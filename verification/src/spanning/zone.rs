//! A single data zone: the bytes of one source within the written stream.

use vstd::prelude::*;
use vstd::std_specs::cmp::PartialEqSpec;

verus! {

/// The mathematical content of a [`DataZone`]: whose bytes these are, and how
/// many of them were presented, committed and are still in flight.
pub ghost struct ZoneView<P> {
    pub ident: Option<P>,
    pub length: nat,
    pub committed: nat,
    pub uncommitted: nat,
}

impl<P> ZoneView<P> {
    /// Every byte of a zone is either committed or not.
    pub open spec fn balanced(self) -> bool {
        self.length == self.committed + self.uncommitted
    }

    /// The zone after `n` more bytes went straight to the device.
    pub open spec fn through(self, n: nat) -> Self {
        ZoneView { length: self.length + n, committed: self.committed + n, ..self }
    }

    /// The zone after `n` more bytes were buffered.
    pub open spec fn buffered(self, n: nat) -> Self {
        ZoneView { length: self.length + n, uncommitted: self.uncommitted + n, ..self }
    }

    /// How many of `n` committed bytes this zone can account for.
    pub open spec fn absorbed(self, n: nat) -> nat {
        if n <= self.uncommitted {
            n
        } else {
            self.uncommitted
        }
    }

    /// The zone after the device took `n` bytes, as far as the zone had them
    /// in flight.
    pub open spec fn commit(self, n: nat) -> Self {
        ZoneView {
            committed: self.committed + self.absorbed(n),
            uncommitted: (self.uncommitted - self.absorbed(n)) as nat,
            ..self
        }
    }

    /// What of `n` committed bytes lies beyond this zone, if the zone could not
    /// account for all of them.
    pub open spec fn overhang(self, n: nat) -> Option<nat> {
        if n <= self.uncommitted {
            None
        } else {
            Some((n - self.uncommitted) as nat)
        }
    }
}

impl<P: PartialEq> ZoneView<P> {
    /// Both zones belong to the same source, or both are slack.
    pub open spec fn same_source(self, other: Self) -> bool {
        self.ident.eq_spec(&other.ident)
    }

    /// The zone that describes a source of which `self` and `other` each saw
    /// a part: as long as the longer of the two, and committed only as far as
    /// both agree. It keeps the identity of `self`.
    pub open spec fn merged(self, other: Self) -> Self {
        let length = if self.length >= other.length {
            self.length
        } else {
            other.length
        };
        let committed = if self.committed <= other.committed {
            self.committed
        } else {
            other.committed
        };
        ZoneView { ident: self.ident, length, committed, uncommitted: (length - committed) as nat }
    }
}

/// Equality on `P` is an equivalence, and a clone is equal to what it was
/// cloned from.
pub open spec fn lawful_identity<P: Clone + PartialEq>() -> bool {
    &&& P::obeys_eq_spec()
    &&& forall|a: P| #[trigger] a.eq_spec(&a)
    &&& forall|a: P, b: P| #[trigger] a.eq_spec(&b) ==> b.eq_spec(&a)
    &&& forall|a: P, b: P, c: P| #[trigger]
        a.eq_spec(&b) && #[trigger] b.eq_spec(&c) ==> a.eq_spec(&c)
    &&& forall|a: P, b: P| #[trigger] cloned(a, b) ==> a.eq_spec(&b)
}

impl<P: PartialEq> ZoneView<P> {
    /// Both zones have the same counts and belong to the same source.
    pub open spec fn matches(self, other: Self) -> bool {
        &&& self.length == other.length
        &&& self.committed == other.committed
        &&& self.uncommitted == other.uncommitted
        &&& self.same_source(other)
    }
}

impl<P: Clone> ZoneView<P> {
    /// `self` has the counts of `source` and an identity cloned from it.
    pub open spec fn is_clone_of(self, source: Self) -> bool {
        &&& self.length == source.length
        &&& self.committed == source.committed
        &&& self.uncommitted == source.uncommitted
        &&& match (source.ident, self.ident) {
            (None, None) => true,
            (Some(from), Some(to)) => cloned(from, to),
            _ => false,
        }
    }
}

/// A range of the written stream that belongs to one source, with the count
/// of its bytes that the device has confirmed.
///
/// A zone without an identity is a slack zone: it counts bytes that were
/// written between two sources and that nobody needs to recover.
#[derive(Debug)]
pub struct DataZone<P> {
    pub ident: Option<P>,
    /// All bytes written within this zone.
    pub length: u64,
    /// Those of them that reached the device.
    pub committed_length: u64,
    /// Those of them that did not yet.
    pub uncommitted_length: u64,
}

impl<P> View for DataZone<P> {
    type V = ZoneView<P>;

    open spec fn view(&self) -> ZoneView<P> {
        ZoneView {
            ident: self.ident,
            length: self.length as nat,
            committed: self.committed_length as nat,
            uncommitted: self.uncommitted_length as nat,
        }
    }
}

impl<P> DataZone<P> {
    /// The three counts agree.
    pub open spec fn wf(&self) -> bool {
        self@.balanced()
    }

    /// An empty zone for the source `ident`.
    pub fn new(ident: P) -> (zone: DataZone<P>)
        ensures
            zone@ == (ZoneView { ident: Some(ident), length: 0, committed: 0, uncommitted: 0 }),
            zone.wf(),
    {
        DataZone { ident: Some(ident), length: 0, committed_length: 0, uncommitted_length: 0 }
    }

    /// A zone for a source of which `committed` bytes are already safe on an
    /// earlier volume.
    pub fn for_resumption(ident: P, committed: u64) -> (zone: DataZone<P>)
        ensures
            zone@ == (ZoneView {
                ident: Some(ident),
                length: committed as nat,
                committed: committed as nat,
                uncommitted: 0,
            }),
            zone.wf(),
    {
        DataZone {
            ident: Some(ident),
            length: committed,
            committed_length: committed,
            uncommitted_length: 0,
        }
    }

    /// An empty zone for bytes that belong to no source.
    pub fn slack_zone() -> (zone: DataZone<P>)
        ensures
            zone@ == (ZoneView::<P> { ident: None, length: 0, committed: 0, uncommitted: 0 }),
            zone.wf(),
    {
        DataZone { ident: None, length: 0, committed_length: 0, uncommitted_length: 0 }
    }

    /// Counts `length` bytes that went to the device without being buffered.
    pub fn write_through(&mut self, length: u64)
        requires
            old(self).wf(),
            old(self).length + length <= u64::MAX,
        ensures
            final(self)@ == old(self)@.through(length as nat),
            final(self).wf(),
    {
        self.length += length;
        self.committed_length += length;
    }

    /// Counts `length` bytes that were buffered and may still fail to reach
    /// the device.
    pub fn write_buffered(&mut self, length: u64)
        requires
            old(self).wf(),
            old(self).length + length <= u64::MAX,
        ensures
            final(self)@ == old(self)@.buffered(length as nat),
            final(self).wf(),
    {
        self.length += length;
        self.uncommitted_length += length;
    }

    /// Counts `length` bytes that left the buffer and reached the device.
    ///
    /// The zone takes as many of them as it has in flight. Where that is all
    /// of them the result is `None`; otherwise it is the number of bytes that
    /// belong to whatever follows this zone.
    pub fn write_committed(&mut self, length: u64) -> (overhang: Option<u64>)
        requires
            old(self).wf(),
        ensures
            final(self)@ == old(self)@.commit(length as nat),
            final(self).wf(),
            match overhang {
                Some(rest) => old(self)@.overhang(length as nat) == Some(rest as nat),
                None => old(self)@.overhang(length as nat).is_none(),
            },
    {
        if self.uncommitted_length >= length {
            self.uncommitted_length -= length;
            self.committed_length += length;
            return None;
        }
        let overhang: u64 = length - self.uncommitted_length;
        self.committed_length += self.uncommitted_length;
        self.uncommitted_length = 0;
        Some(overhang)
    }
}

impl<P: Clone> Clone for DataZone<P> {
    fn clone(&self) -> (copy: Self)
        ensures
            copy@.is_clone_of(self@),
    {
        DataZone {
            ident: self.ident.clone(),
            length: self.length,
            committed_length: self.committed_length,
            uncommitted_length: self.uncommitted_length,
        }
    }
}

impl<P: Clone + PartialEq> DataZone<P> {
    /// Joins the accounts that two stages of a pipeline kept of one source.
    ///
    /// Zones of different sources do not merge. Otherwise the result is as
    /// long as the longer zone and committed as far as the less committed
    /// one, whichever of the two comes first: it describes the stream in which
    /// as much as possible is still in flight.
    pub fn merge_zone(&self, other: &Self) -> (merged: Option<Self>)
        requires
            P::obeys_eq_spec(),
            self.wf(),
            other.wf(),
        ensures
            merged.is_some() == self@.same_source(other@),
            merged matches Some(zone) ==> zone@.is_clone_of(self@.merged(other@)) && zone.wf(),
    {
        if !(self.ident == other.ident) {
            return None;
        }
        let merged_length: u64 = if self.length >= other.length {
            self.length
        } else {
            other.length
        };
        let merged_commit: u64 = if self.committed_length <= other.committed_length {
            self.committed_length
        } else {
            other.committed_length
        };
        Some(
            DataZone {
                ident: self.ident.clone(),
                length: merged_length,
                committed_length: merged_commit,
                uncommitted_length: merged_length - merged_commit,
            },
        )
    }
}

} // verus!
