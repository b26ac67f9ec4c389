//! The ledger that one stage of a write pipeline keeps of the zones that pass
//! through it.

use crate::spanning::zone::{lawful_identity, DataZone, ZoneView};
use std::collections::VecDeque;
use vstd::prelude::*;
use vstd::std_specs::cmp::PartialEqSpec;

verus! {

/// The mathematical content of a [`DataZoneStream`]: the zone that is being
/// written, if any, and before it the zones that ended while bytes of them
/// were still in flight, oldest first.
pub ghost struct StreamView<P> {
    pub current: Option<ZoneView<P>>,
    pub pending: Seq<ZoneView<P>>,
}

/// The views of a list of zones.
pub open spec fn zone_views<P>(zones: Seq<DataZone<P>>) -> Seq<ZoneView<P>> {
    zones.map_values(|zone: DataZone<P>| zone@)
}

/// Every zone of the list has counts that agree.
pub open spec fn all_balanced<P>(zones: Seq<ZoneView<P>>) -> bool {
    forall|i: int| 0 <= i < zones.len() ==> (#[trigger] zones[i]).balanced()
}

/// `zones` holds, place by place, clones of `sources`.
pub open spec fn all_clones_of<P: Clone>(
    zones: Seq<ZoneView<P>>,
    sources: Seq<ZoneView<P>>,
) -> bool {
    &&& zones.len() == sources.len()
    &&& forall|i: int| 0 <= i < zones.len() ==> (#[trigger] zones[i]).is_clone_of(sources[i])
}

/// `zones` holds, place by place, zones with the counts and the sources of
/// those in `others`.
pub open spec fn all_match<P: PartialEq>(zones: Seq<ZoneView<P>>, others: Seq<ZoneView<P>>) -> bool {
    &&& zones.len() == others.len()
    &&& forall|i: int| 0 <= i < zones.len() ==> (#[trigger] zones[i]).matches(others[i])
}

/// The sum of the committed counts of a list of zones.
pub open spec fn committed_total<P>(zones: Seq<ZoneView<P>>) -> nat
    decreases zones.len(),
{
    if zones.len() == 0 {
        0
    } else {
        zones[0].committed + committed_total(zones.drop_first())
    }
}

/// A list of zones without its last one, where that is a slack zone that
/// never saw a byte.
pub open spec fn trimmed<P>(zones: Seq<ZoneView<P>>) -> Seq<ZoneView<P>> {
    if zones.len() > 0 && zones.last().ident.is_none() && zones.last().length == 0 {
        zones.drop_last()
    } else {
        zones
    }
}

/// What is left of the ended zones, and of `n` committed bytes, once the
/// oldest zones took what they had in flight. A zone that could not take all
/// that was left for it is dropped; the zone that could stays, even with
/// nothing more in flight.
pub open spec fn drain<P>(pending: Seq<ZoneView<P>>, n: nat) -> (Seq<ZoneView<P>>, nat)
    decreases pending.len(),
{
    if pending.len() == 0 {
        (pending, n)
    } else if n <= pending[0].uncommitted {
        (pending.update(0, pending[0].commit(n)), 0)
    } else {
        drain(pending.drop_first(), (n - pending[0].uncommitted) as nat)
    }
}

/// The committed bytes of the zones that [`drain`] drops.
pub open spec fn retired<P>(pending: Seq<ZoneView<P>>, n: nat) -> nat
    decreases pending.len(),
{
    if pending.len() == 0 || n <= pending[0].uncommitted {
        0
    } else {
        pending[0].committed + pending[0].uncommitted + retired(
            pending.drop_first(),
            (n - pending[0].uncommitted) as nat,
        )
    }
}

/// The first place at or after `from` where `chain` holds a zone of the same
/// source as `probe`, or the length of `chain` if there is none.
pub open spec fn find_source<P: PartialEq>(
    chain: Seq<ZoneView<P>>,
    probe: ZoneView<P>,
    from: int,
) -> int
    decreases chain.len() - from,
{
    if from < 0 || from >= chain.len() {
        chain.len() as int
    } else if chain[from].same_source(probe) {
        from
    } else {
        find_source(chain, probe, from + 1)
    }
}

/// How many zones of `mine`, counted from its start and at least `k`, pair up
/// with the zones of `chain` from `start` on, each with one of the same
/// source.
pub open spec fn run_length<P: PartialEq>(
    chain: Seq<ZoneView<P>>,
    mine: Seq<ZoneView<P>>,
    start: int,
    k: int,
) -> int
    decreases mine.len() - k,
{
    if 0 <= k < mine.len() && 0 <= start + k < chain.len() && chain[start + k].same_source(
        mine[k],
    ) {
        run_length(chain, mine, start, k + 1)
    } else {
        k
    }
}

/// `chain` with each of its `run` zones from `start` on merged with the zone
/// of `mine` that it pairs up with.
pub open spec fn merged_run<P: PartialEq>(
    chain: Seq<ZoneView<P>>,
    mine: Seq<ZoneView<P>>,
    start: int,
    run: int,
) -> Seq<ZoneView<P>> {
    Seq::new(
        chain.len(),
        |i: int|
            if start <= i < start + run {
                chain[i].merged(mine[i - start])
            } else {
                chain[i]
            },
    )
}

impl<P> StreamView<P> {
    /// The stream in which nothing was written yet.
    pub open spec fn empty() -> Self {
        StreamView { current: None, pending: Seq::empty() }
    }

    /// Every zone of the stream has counts that agree.
    pub open spec fn balanced(self) -> bool {
        &&& all_balanced(self.pending)
        &&& self.current matches Some(zone) ==> zone.balanced()
    }

    /// All zones of the stream, oldest first.
    pub open spec fn zones(self) -> Seq<ZoneView<P>> {
        match self.current {
            Some(zone) => self.pending.push(zone),
            None => self.pending,
        }
    }

    /// The current zone is worth keeping once it ends: it names a source, or
    /// it is a slack zone that saw bytes.
    pub open spec fn keeps_current(self) -> bool {
        self.current matches Some(zone) && (zone.ident.is_some() || zone.length > 0)
    }

    /// The stream after its current zone ended: a fresh slack zone is open.
    pub open spec fn ended(self) -> Self {
        StreamView {
            current: Some(ZoneView { ident: None, length: 0, committed: 0, uncommitted: 0 }),
            pending: if self.keeps_current() {
                self.pending.push(self.current.unwrap())
            } else {
                self.pending
            },
        }
    }

    /// The stream after a zone for `ident` began.
    pub open spec fn begun(self, ident: P) -> Self {
        StreamView {
            current: Some(
                ZoneView { ident: Some(ident), length: 0, committed: 0, uncommitted: 0 },
            ),
            ..self.ended()
        }
    }

    /// The stream after a zone for `ident` began of which `committed` bytes
    /// are safe already.
    pub open spec fn resumed(self, ident: P, committed: nat) -> Self {
        StreamView {
            current: Some(
                ZoneView { ident: Some(ident), length: committed, committed, uncommitted: 0 },
            ),
            ..self.ended()
        }
    }

    /// The stream after `n` bytes were buffered in its current zone.
    pub open spec fn buffered(self, n: nat) -> Self {
        match self.current {
            Some(zone) => StreamView { current: Some(zone.buffered(n)), ..self },
            None => self,
        }
    }

    /// The stream after `n` bytes passed its current zone unbuffered.
    pub open spec fn through(self, n: nat) -> Self {
        match self.current {
            Some(zone) => StreamView { current: Some(zone.through(n)), ..self },
            None => self,
        }
    }

    /// The current zone can count `n` more bytes.
    pub open spec fn has_room(self, n: nat) -> bool {
        self.current matches Some(zone) ==> zone.length + n <= u64::MAX
    }

    /// How many more bytes the current zone can count.
    pub open spec fn room(self) -> nat {
        match self.current {
            Some(zone) => (u64::MAX - zone.length) as nat,
            None => u64::MAX as nat,
        }
    }

    /// What of `n` committed bytes is left for the current zone.
    pub open spec fn spill(self, n: nat) -> nat {
        drain(self.pending, n).1
    }

    /// The stream after the device took `n` bytes: the ended zones account for
    /// them oldest first, and the current zone for what they leave.
    pub open spec fn commit(self, n: nat) -> Self {
        StreamView {
            pending: drain(self.pending, n).0,
            current: match self.current {
                Some(zone) => Some(zone.commit(self.spill(n))),
                None => None,
            },
        }
    }

    /// What of `n` committed bytes no zone of the stream accounts for, if
    /// there is any such byte.
    pub open spec fn overhang(self, n: nat) -> Option<nat> {
        if self.spill(n) == 0 {
            None
        } else {
            match self.current {
                Some(zone) => zone.overhang(self.spill(n)),
                None => Some(self.spill(n)),
            }
        }
    }

    /// The committed bytes of the zones that leave the stream when the device
    /// takes `n` bytes.
    pub open spec fn retires(self, n: nat) -> nat {
        retired(self.pending, n)
    }
}

impl<P: PartialEq> StreamView<P> {
    /// The zones of this stage laid over `chain`, the snapshot of the stage
    /// below it.
    ///
    /// The first zone of this stage is looked up in `chain` by its source.
    /// From there on, as long as the zones of both pair up source by source,
    /// each pair is merged in place. The zones of this stage that found no
    /// partner follow after `chain`. A slack zone without bytes at the very
    /// end is left out.
    pub open spec fn snapshot(self, chain: Option<Seq<ZoneView<P>>>) -> Seq<ZoneView<P>> {
        let below = match chain {
            Some(list) => list,
            None => Seq::empty(),
        };
        let mine = self.zones();
        if mine.len() == 0 {
            trimmed(below)
        } else {
            let start = find_source(below, mine[0], 0);
            let run = run_length(below, mine, start, 0);
            trimmed(merged_run(below, mine, start, run) + mine.subrange(run, mine.len() as int))
        }
    }
}

/// The zones of one stage of a write pipeline, in the order in which they
/// were written.
///
/// `P` names the source of a zone. Zones of two stages are merged where their
/// sources compare equal.
pub struct DataZoneStream<P> {
    cur_zone: Option<DataZone<P>>,
    pending_zones: VecDeque<DataZone<P>>,
}

impl<P> View for DataZoneStream<P> {
    type V = StreamView<P>;

    closed spec fn view(&self) -> StreamView<P> {
        StreamView {
            current: match self.cur_zone {
                Some(zone) => Some(zone@),
                None => None,
            },
            pending: zone_views(self.pending_zones@),
        }
    }
}

impl<P> DataZoneStream<P> {
    /// Every zone of the stream has counts that agree.
    pub open spec fn wf(&self) -> bool {
        self@.balanced()
    }

    /// The current zone has room for `n` more bytes.
    pub open spec fn has_room(&self, n: nat) -> bool {
        self@.has_room(n)
    }
}

impl<P: Clone + PartialEq> DataZoneStream<P> {
    /// A stream in which nothing was written yet.
    pub fn new() -> (stream: DataZoneStream<P>)
        ensures
            stream@ == StreamView::<P>::empty(),
            stream.wf(),
    {
        let stream = DataZoneStream { cur_zone: None, pending_zones: VecDeque::new() };
        assert(stream@.pending =~= Seq::empty());
        stream
    }

    /// How many more bytes the current zone can count before its length
    /// leaves the range of its counter.
    pub fn room(&self) -> (room: u64)
        requires
            self.wf(),
        ensures
            room == self@.room(),
            forall|n: nat| n <= room ==> self.has_room(n),
    {
        match &self.cur_zone {
            Some(zone) => u64::MAX - zone.length,
            None => u64::MAX,
        }
    }

    /// Counts `length` bytes that were buffered in the current zone. Without
    /// a current zone nothing is counted.
    pub fn write_buffered(&mut self, length: u64)
        requires
            old(self).wf(),
            old(self).has_room(length as nat),
        ensures
            final(self)@ == old(self)@.buffered(length as nat),
            final(self).wf(),
    {
        match self.cur_zone.take() {
            Some(mut zone) => {
                zone.write_buffered(length);
                self.cur_zone = Some(zone);
            },
            None => {},
        }
    }

    /// Counts `length` bytes that went past the buffer of this stage, straight
    /// to the device. Without a current zone nothing is counted.
    ///
    /// The ledger cannot tell whether bytes of the zone are still buffered:
    /// call this only when all of them were committed.
    pub fn write_through(&mut self, length: u64)
        requires
            old(self).wf(),
            old(self).has_room(length as nat),
        ensures
            final(self)@ == old(self)@.through(length as nat),
            final(self).wf(),
    {
        match self.cur_zone.take() {
            Some(mut zone) => {
                zone.write_through(length);
                self.cur_zone = Some(zone);
            },
            None => {},
        }
    }

    /// Counts `length` bytes that reached the device.
    ///
    /// The ended zones account for them oldest first. A zone that cannot take
    /// all that is left leaves the stream, and the next one goes on. What the
    /// ended zones leave goes to the current zone, and what that cannot take
    /// is returned: bytes that were committed but never counted as buffered.
    pub fn write_committed(&mut self, length: u64) -> (overhang: Option<u64>)
        requires
            old(self).wf(),
        ensures
            final(self)@ == old(self)@.commit(length as nat),
            final(self).wf(),
            match overhang {
                Some(rest) => old(self)@.overhang(length as nat) == Some(rest as nat),
                None => old(self)@.overhang(length as nat).is_none(),
            },
    {
        let mut remain: u64 = length;
        loop
            invariant
                self.wf(),
                self.cur_zone == old(self).cur_zone,
                drain(self@.pending, remain as nat) == drain(old(self)@.pending, length as nat),
            ensures
                self.pending_zones@.len() == 0,
            decreases self.pending_zones.len(),
        {
            let ghost before = self@.pending;
            match self.pending_zones.pop_front() {
                None => {
                    break ;
                },
                Some(mut zone) => {
                    assert(zone@ == before[0]);
                    assert(zone_views(self.pending_zones@) =~= before.drop_first());
                    match zone.write_committed(remain) {
                        None => {
                            self.pending_zones.push_front(zone);
                            assert(self@.pending =~= before.update(
                                0,
                                before[0].commit(remain as nat),
                            ));
                            assert(self@.pending =~= old(self)@.commit(length as nat).pending);
                            return None;
                        },
                        Some(rest) => {
                            remain = rest;
                        },
                    }
                },
            }
        }
        assert(self@.pending =~= Seq::<ZoneView<P>>::empty());
        match self.cur_zone.take() {
            Some(mut zone) => {
                let overhang = zone.write_committed(remain);
                self.cur_zone = Some(zone);
                overhang
            },
            None => {
                if remain > 0 {
                    Some(remain)
                } else {
                    None
                }
            },
        }
    }

    /// The zone at place `k` among all zones of the stream, oldest first.
    fn zone_at(&self, k: usize) -> (zone: Option<&DataZone<P>>)
        ensures
            match zone {
                Some(found) => k < self@.zones().len() && found@ == self@.zones()[k as int],
                None => k >= self@.zones().len(),
            },
    {
        if k < self.pending_zones.len() {
            Some(&self.pending_zones[k])
        } else if k == self.pending_zones.len() {
            self.cur_zone.as_ref()
        } else {
            None
        }
    }

    /// The first place in `chain` of a zone of the same source as `probe`, or
    /// the length of `chain`.
    fn find_zone(chain: &Vec<DataZone<P>>, probe: &DataZone<P>) -> (start: usize)
        requires
            P::obeys_eq_spec(),
        ensures
            start == find_source(zone_views(chain@), probe@, 0),
            start <= chain.len(),
    {
        let mut i: usize = 0;
        while i < chain.len()
            invariant
                P::obeys_eq_spec(),
                i <= chain.len(),
                find_source(zone_views(chain@), probe@, 0) == find_source(
                    zone_views(chain@),
                    probe@,
                    i as int,
                ),
            decreases chain.len() - i,
        {
            if chain[i].ident == probe.ident {
                return i;
            }
            i += 1;
        }
        i
    }

    /// All zones of this stage, oldest first, laid over the snapshot of the
    /// stage below where `chain` holds one.
    ///
    /// The first zone of this stage is looked up in `chain` by its source.
    /// From there on, as long as the zones of both lists pair up source by
    /// source, each pair is merged in place. The zones of this stage that
    /// found no partner follow after those of `chain`, so zones merge only
    /// where both stages hold them in the same order. A slack zone without
    /// bytes at the very end is left out.
    pub fn uncommitted_writes(&self, chain: Option<Vec<DataZone<P>>>) -> (zones: Vec<DataZone<P>>)
        requires
            P::obeys_eq_spec(),
            self.wf(),
            chain matches Some(list) ==> all_balanced(zone_views(list@)),
        ensures
            all_clones_of(
                zone_views(zones@),
                self@.snapshot(
                    match chain {
                        Some(list) => Some(zone_views(list@)),
                        None => None,
                    },
                ),
            ),
            all_balanced(zone_views(zones@)),
            lawful_identity::<P>() ==> all_match(
                zone_views(zones@),
                self@.snapshot(
                    match chain {
                        Some(list) => Some(zone_views(list@)),
                        None => None,
                    },
                ),
            ),
    {
        let ghost below_given: Option<Seq<ZoneView<P>>> = match &chain {
            Some(list) => Some(zone_views(list@)),
            None => None,
        };
        let ghost expected = self@.snapshot(below_given);
        let mut zonelist: Vec<DataZone<P>> = match chain {
            Some(list) => list,
            None => Vec::new(),
        };
        let ghost below = zone_views(zonelist@);
        let ghost mine = self@.zones();
        let n_pending: usize = self.pending_zones.len();
        let start: usize = match self.zone_at(0) {
            Some(first) => Self::find_zone(&zonelist, first),
            None => zonelist.len(),
        };
        let mut k: usize = 0;
        loop
            invariant
                P::obeys_eq_spec(),
                self.wf(),
                mine == self@.zones(),
                all_balanced(below),
                zonelist.len() == below.len(),
                start <= zonelist.len(),
                k <= mine.len(),
                k <= zonelist.len() - start,
                run_length(below, mine, start as int, 0) == run_length(
                    below,
                    mine,
                    start as int,
                    k as int,
                ),
                all_clones_of(
                    zone_views(zonelist@),
                    merged_run(below, mine, start as int, k as int),
                ),
                forall|i: int| start + k <= i < zonelist.len() ==> zonelist[i]@ == below[i],
                all_balanced(zone_views(zonelist@)),
            ensures
                run_length(below, mine, start as int, 0) == k,
            decreases zonelist.len() - start - k,
        {
            if k >= zonelist.len() - start {
                break ;
            }
            match self.zone_at(k) {
                None => {
                    break ;
                },
                Some(zone) => {
                    assert(zone@.balanced()) by {
                        if k < self@.pending.len() {
                            assert(self@.pending[k as int].balanced());
                        }
                    }
                    assert(zone_views(zonelist@)[start + k].balanced());
                    match zonelist[start + k].merge_zone(zone) {
                        Some(merged) => {
                            let ghost before = zone_views(zonelist@);
                            zonelist.set(start + k, merged);
                            assert(zone_views(zonelist@) =~= before.update(start + k, merged@));
                            k += 1;
                        },
                        None => {
                            break ;
                        },
                    }
                },
            }
        }
        let ghost run = k as int;
        let ghost kept = merged_run(below, mine, start as int, run);
        while k < n_pending
            invariant
                self.wf(),
                mine == self@.zones(),
                n_pending == self.pending_zones.len(),
                n_pending == self@.pending.len(),
                0 <= run <= k,
                k <= mine.len(),
                k <= n_pending || k == mine.len(),
                all_clones_of(zone_views(zonelist@), kept + mine.subrange(run, k as int)),
                all_balanced(zone_views(zonelist@)),
            decreases n_pending - k,
        {
            let ghost before = zone_views(zonelist@);
            let copy = self.pending_zones[k].clone();
            assert(self@.pending[k as int].balanced());
            zonelist.push(copy);
            assert(zone_views(zonelist@) =~= before.push(copy@));
            assert(kept + mine.subrange(run, k + 1) =~= (kept + mine.subrange(run, k as int)).push(
                mine[k as int],
            ));
            k += 1;
        }
        if k == n_pending {
            match &self.cur_zone {
                Some(zone) => {
                    let ghost before = zone_views(zonelist@);
                    let copy = zone.clone();
                    zonelist.push(copy);
                    assert(zone_views(zonelist@) =~= before.push(copy@));
                    assert(kept + mine.subrange(run, k + 1) =~= (kept + mine.subrange(
                        run,
                        k as int,
                    )).push(mine[k as int]));
                },
                None => {},
            }
        }
        let ghost full = kept + mine.subrange(run, mine.len() as int);
        assert(all_clones_of(zone_views(zonelist@), full));
        assert(mine.len() == 0 ==> full =~= below);
        assert(chain is None ==> below =~= Seq::<ZoneView<P>>::empty());
        assert(trimmed(full) == self@.snapshot(
            match chain {
                Some(list) => Some(zone_views(list@)),
                None => None,
            },
        ));
        let n: usize = zonelist.len();
        assert(n > 0 ==> zone_views(zonelist@)[n - 1].is_clone_of(full[n - 1]));
        if n > 0 && zonelist[n - 1].ident.is_none() && zonelist[n - 1].length == 0 {
            let ghost before = zone_views(zonelist@);
            zonelist.pop();
            assert(zone_views(zonelist@) =~= before.drop_last());
            assert(trimmed(full) == full.drop_last());
        } else {
            assert(trimmed(full) == full);
        }
        proof {
            if lawful_identity::<P>() {
                crate::spanning::laws::lemma_clones_match(zone_views(zonelist@), expected);
            }
        }
        zonelist
    }

    /// Ends the current zone and begins one for `ident`.
    pub fn begin_data_zone(&mut self, ident: P)
        requires
            old(self).wf(),
        ensures
            final(self)@ == old(self)@.begun(ident),
            final(self).wf(),
    {
        self.end_data_zone();
        self.cur_zone = Some(DataZone::new(ident));
    }

    /// Ends the current zone and begins one for `ident`, a source of which
    /// `committed` bytes are safe on an earlier volume.
    pub fn resume_data_zone(&mut self, ident: P, committed: u64)
        requires
            old(self).wf(),
        ensures
            final(self)@ == old(self)@.resumed(ident, committed as nat),
            final(self).wf(),
    {
        self.end_data_zone();
        self.cur_zone = Some(DataZone::for_resumption(ident, committed));
    }

    /// Ends the current zone. It joins the ended zones if it names a source
    /// or saw any byte; a slack zone opens in its place.
    pub fn end_data_zone(&mut self)
        requires
            old(self).wf(),
        ensures
            final(self)@ == old(self)@.ended(),
            final(self).wf(),
    {
        match self.cur_zone.take() {
            Some(zone) => {
                if zone.ident.is_some() || zone.length > 0 {
                    self.pending_zones.push_back(zone);
                    assert(self@.pending =~= old(self)@.pending.push(zone@));
                }
            },
            None => {},
        }
        self.cur_zone = Some(DataZone::slack_zone());
    }
}

} // verus!
