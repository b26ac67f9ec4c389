//! What holds of a ledger over a whole run of operations.

use crate::spanning::stream::{
    all_balanced, all_clones_of, all_match, committed_total, drain, find_source, merged_run,
    retired, run_length, trimmed, StreamView,
};
use crate::spanning::zone::{lawful_identity, ZoneView};
use vstd::prelude::*;
use vstd::std_specs::cmp::PartialEqSpec;

verus! {

/// One operation on a ledger.
pub ghost enum StreamOp<P> {
    Begin(P),
    WriteBuffered(nat),
    WriteCommitted(nat),
    End,
}

/// The ledger after one operation.
pub open spec fn step<P>(stream: StreamView<P>, op: StreamOp<P>) -> StreamView<P> {
    match op {
        StreamOp::Begin(ident) => stream.begun(ident),
        StreamOp::WriteBuffered(n) => stream.buffered(n),
        StreamOp::WriteCommitted(n) => stream.commit(n),
        StreamOp::End => stream.ended(),
    }
}

/// The ledger that a run of operations leaves, begun on an empty one.
pub open spec fn replay<P>(ops: Seq<StreamOp<P>>) -> StreamView<P>
    decreases ops.len(),
{
    if ops.len() == 0 {
        StreamView::empty()
    } else {
        step(replay(ops.drop_last()), ops.last())
    }
}

/// The bytes that the commits of a run reported, all together.
pub open spec fn requested<P>(ops: Seq<StreamOp<P>>) -> nat
    decreases ops.len(),
{
    if ops.len() == 0 {
        0
    } else {
        requested(ops.drop_last()) + match ops.last() {
            StreamOp::WriteCommitted(n) => n,
            _ => 0,
        }
    }
}

/// The overhang that the commits of a run returned, all together.
pub open spec fn returned<P>(ops: Seq<StreamOp<P>>) -> nat
    decreases ops.len(),
{
    if ops.len() == 0 {
        0
    } else {
        returned(ops.drop_last()) + match ops.last() {
            StreamOp::WriteCommitted(n) => match replay(ops.drop_last()).overhang(n) {
                Some(rest) => rest,
                None => 0,
            },
            _ => 0,
        }
    }
}

/// The committed bytes of the zones that left the ledger during a run, all
/// together.
pub open spec fn dropped<P>(ops: Seq<StreamOp<P>>) -> nat
    decreases ops.len(),
{
    if ops.len() == 0 {
        0
    } else {
        dropped(ops.drop_last()) + match ops.last() {
            StreamOp::WriteCommitted(n) => replay(ops.drop_last()).retires(n),
            _ => 0,
        }
    }
}

/// Appending a zone adds its committed bytes to the total.
pub proof fn lemma_committed_total_push<P>(zones: Seq<ZoneView<P>>, zone: ZoneView<P>)
    ensures
        committed_total(zones.push(zone)) == committed_total(zones) + zone.committed,
    decreases zones.len(),
{
    if zones.len() == 0 {
        assert(zones.push(zone).drop_first() =~= zones);
    } else {
        assert(zones.push(zone).drop_first() =~= zones.drop_first().push(zone));
        lemma_committed_total_push(zones.drop_first(), zone);
    }
}

/// Draining keeps the ended zones balanced, and every reported byte is
/// committed in a zone that stays, committed in a zone that leaves, or left
/// for the current zone.
pub proof fn lemma_drain_accounts<P>(pending: Seq<ZoneView<P>>, n: nat)
    requires
        all_balanced(pending),
    ensures
        all_balanced(drain(pending, n).0),
        committed_total(drain(pending, n).0) + drain(pending, n).1 + retired(pending, n)
            == committed_total(pending) + n,
    decreases pending.len(),
{
    if pending.len() == 0 {
    } else if n <= pending[0].uncommitted {
        let after = pending.update(0, pending[0].commit(n));
        assert(after.drop_first() =~= pending.drop_first());
        assert forall|i: int| 0 <= i < after.len() implies (#[trigger] after[i]).balanced() by {
            if i > 0 {
                assert(pending[i].balanced());
            } else {
                assert(pending[0].balanced());
            }
        }
    } else {
        let rest = pending.drop_first();
        assert forall|i: int| 0 <= i < rest.len() implies (#[trigger] rest[i]).balanced() by {
            assert(pending[i + 1].balanced());
        }
        assert(pending[0].balanced());
        lemma_drain_accounts(rest, (n - pending[0].uncommitted) as nat);
    }
}

/// One operation keeps a balanced ledger balanced.
pub proof fn lemma_step_balanced<P>(stream: StreamView<P>, op: StreamOp<P>)
    requires
        stream.balanced(),
    ensures
        step(stream, op).balanced(),
{
    match op {
        StreamOp::WriteCommitted(n) => {
            lemma_drain_accounts(stream.pending, n);
        },
        StreamOp::WriteBuffered(n) => {},
        _ => {
            let after = stream.ended().pending;
            assert forall|i: int| 0 <= i < after.len() implies (#[trigger] after[i]).balanced() by {
                if i < stream.pending.len() {
                    assert(stream.pending[i].balanced());
                }
            }
        },
    }
}

/// One commit on a balanced ledger loses no byte: what it reported is
/// committed in the zones that stay, was committed in the zones that left, or
/// came back as overhang.
pub proof fn lemma_commit_accounts<P>(stream: StreamView<P>, n: nat)
    requires
        stream.balanced(),
    ensures
        committed_total(stream.commit(n).zones()) + stream.retires(n) + match stream.overhang(n) {
            Some(rest) => rest,
            None => 0,
        } == committed_total(stream.zones()) + n,
{
    lemma_drain_accounts(stream.pending, n);
    match stream.current {
        Some(zone) => {
            lemma_committed_total_push(stream.pending, zone);
            lemma_committed_total_push(drain(stream.pending, n).0, zone.commit(stream.spill(n)));
        },
        None => {},
    }
}

/// Over any run of operations on a fresh ledger no committed byte is lost:
/// the bytes that the commits reported are committed in a zone of the ledger,
/// were committed in a zone that has left it, or came back as overhang.
pub proof fn lemma_run_accounts<P>(ops: Seq<StreamOp<P>>)
    ensures
        replay(ops).balanced(),
        committed_total(replay(ops).zones()) + dropped(ops) + returned(ops) == requested(ops),
    decreases ops.len(),
{
    if ops.len() == 0 {
        assert(replay(ops).zones() =~= Seq::<ZoneView<P>>::empty());
    } else {
        let before = replay(ops.drop_last());
        lemma_run_accounts(ops.drop_last());
        lemma_step_balanced(before, ops.last());
        match ops.last() {
            StreamOp::WriteCommitted(n) => {
                lemma_commit_accounts(before, n);
            },
            StreamOp::WriteBuffered(n) => {
                match before.current {
                    Some(zone) => {
                        lemma_committed_total_push(before.pending, zone);
                        lemma_committed_total_push(before.pending, zone.buffered(n));
                    },
                    None => {},
                }
            },
            _ => {
                let after = step(before, ops.last());
                lemma_committed_total_push(after.pending, after.current.unwrap());
                match before.current {
                    Some(zone) => {
                        lemma_committed_total_push(before.pending, zone);
                    },
                    None => {},
                }
            },
        }
    }
}

/// Leaving out an empty slack zone at the end changes no total.
pub proof fn lemma_trimmed_total<P>(zones: Seq<ZoneView<P>>)
    requires
        all_balanced(zones),
    ensures
        committed_total(trimmed(zones)) == committed_total(zones),
{
    if zones.len() > 0 && zones.last().ident.is_none() && zones.last().length == 0 {
        assert(zones.last().balanced());
        assert(zones =~= zones.drop_last().push(zones.last()));
        lemma_committed_total_push(zones.drop_last(), zones.last());
    }
}

/// The snapshot of a ledger alone holds the zones of the ledger, but for an
/// empty slack zone at the end.
pub proof fn lemma_snapshot_alone<P: PartialEq>(stream: StreamView<P>)
    ensures
        stream.snapshot(None) == trimmed(stream.zones()),
{
    let below = Seq::<ZoneView<P>>::empty();
    let mine = stream.zones();
    if mine.len() > 0 {
        assert(find_source(below, mine[0], 0) == 0);
        assert(run_length(below, mine, 0, 0) == 0);
        assert(merged_run(below, mine, 0, 0) + mine.subrange(0, mine.len() as int) =~= mine);
    }
}

/// Over any run of `begin`, `write_buffered`, `write_committed` and `end` on a
/// fresh ledger during which no zone left the ledger with committed bytes, the
/// committed bytes of the zones in its snapshot and the overhang that the
/// commits returned add up to the bytes that the commits reported.
pub proof fn lemma_snapshot_accounts_for_commits<P: PartialEq>(ops: Seq<StreamOp<P>>)
    requires
        dropped(ops) == 0,
    ensures
        committed_total(replay(ops).snapshot(None)) + returned(ops) == requested(ops),
{
    lemma_run_accounts(ops);
    lemma_snapshot_alone(replay(ops));
    let stream = replay(ops);
    let zones = stream.zones();
    assert forall|i: int| 0 <= i < zones.len() implies (#[trigger] zones[i]).balanced() by {
        if i < stream.pending.len() {
            assert(stream.pending[i].balanced());
        }
    }
    lemma_trimmed_total(zones);
}

/// Where identities are lawful, belonging to the same source is an
/// equivalence among zones.
pub proof fn lemma_same_source_is_equivalence<P: Clone + PartialEq>(
    a: ZoneView<P>,
    b: ZoneView<P>,
    c: ZoneView<P>,
)
    requires
        lawful_identity::<P>(),
    ensures
        a.same_source(a),
        a.same_source(b) ==> b.same_source(a),
        a.same_source(b) && b.same_source(c) ==> a.same_source(c),
{
    match a.ident {
        Some(x) => {
            assert(x.eq_spec(&x));
            match b.ident {
                Some(y) => {
                    if x.eq_spec(&y) {
                        assert(y.eq_spec(&x));
                        match c.ident {
                            Some(z) => {
                                if y.eq_spec(&z) {
                                    assert(x.eq_spec(&z));
                                }
                            },
                            None => {},
                        }
                    }
                },
                None => {},
            }
        },
        None => {},
    }
}

/// Where identities are lawful, a clone of a zone matches the zone.
pub proof fn lemma_clone_matches<P: Clone + PartialEq>(copy: ZoneView<P>, source: ZoneView<P>)
    requires
        lawful_identity::<P>(),
        copy.is_clone_of(source),
    ensures
        copy.matches(source),
{
    match (source.ident, copy.ident) {
        (Some(from), Some(to)) => {
            assert(cloned(from, to));
            assert(from.eq_spec(&to));
            assert(to.eq_spec(&from));
        },
        _ => {},
    }
}

/// Where identities are lawful, a list of clones matches the list that it
/// was cloned from.
pub proof fn lemma_clones_match<P: Clone + PartialEq>(
    copies: Seq<ZoneView<P>>,
    sources: Seq<ZoneView<P>>,
)
    requires
        lawful_identity::<P>(),
        all_clones_of(copies, sources),
    ensures
        all_match(copies, sources),
{
    assert forall|i: int| 0 <= i < copies.len() implies (#[trigger] copies[i]).matches(
        sources[i],
    ) by {
        assert(copies[i].is_clone_of(sources[i]));
        lemma_clone_matches(copies[i], sources[i]);
    }
}

/// Where identities are lawful, matching is transitive.
pub proof fn lemma_match_transitive<P: Clone + PartialEq>(
    a: Seq<ZoneView<P>>,
    b: Seq<ZoneView<P>>,
    c: Seq<ZoneView<P>>,
)
    requires
        lawful_identity::<P>(),
        all_match(a, b),
        all_match(b, c),
    ensures
        all_match(a, c),
{
    assert forall|i: int| 0 <= i < a.len() implies (#[trigger] a[i]).matches(c[i]) by {
        assert(a[i].matches(b[i]));
        assert(b[i].matches(c[i]));
        lemma_same_source_is_equivalence(a[i], b[i], c[i]);
    }
}

/// Zones that match belong to the same sources as each other.
pub proof fn lemma_match_same_source<P: Clone + PartialEq>(
    a: ZoneView<P>,
    b: ZoneView<P>,
    probe: ZoneView<P>,
)
    requires
        lawful_identity::<P>(),
        a.matches(b),
    ensures
        a.same_source(probe) == b.same_source(probe),
{
    lemma_same_source_is_equivalence(a, b, probe);
    lemma_same_source_is_equivalence(b, a, probe);
}

/// A source is found at the same place in lists that match.
pub proof fn lemma_find_respects_match<P: Clone + PartialEq>(
    a: Seq<ZoneView<P>>,
    b: Seq<ZoneView<P>>,
    probe: ZoneView<P>,
    from: int,
)
    requires
        lawful_identity::<P>(),
        all_match(a, b),
    ensures
        find_source(a, probe, from) == find_source(b, probe, from),
    decreases a.len() - from,
{
    if 0 <= from < a.len() {
        assert(a[from].matches(b[from]));
        lemma_match_same_source(a[from], b[from], probe);
        if !a[from].same_source(probe) {
            lemma_find_respects_match(a, b, probe, from + 1);
        }
    }
}

/// The zones of a stage pair up equally far with lists that match.
pub proof fn lemma_run_respects_match<P: Clone + PartialEq>(
    a: Seq<ZoneView<P>>,
    b: Seq<ZoneView<P>>,
    mine: Seq<ZoneView<P>>,
    start: int,
    k: int,
)
    requires
        lawful_identity::<P>(),
        all_match(a, b),
    ensures
        run_length(a, mine, start, k) == run_length(b, mine, start, k),
    decreases mine.len() - k,
{
    if 0 <= k < mine.len() && 0 <= start + k < a.len() {
        assert(a[start + k].matches(b[start + k]));
        lemma_match_same_source(a[start + k], b[start + k], mine[k]);
        if a[start + k].same_source(mine[k]) {
            lemma_run_respects_match(a, b, mine, start, k + 1);
        }
    }
}

/// The snapshot of a stage over the snapshot of the stage below depends on
/// that only up to the equality of identities: over lists that match, the
/// snapshots match.
pub proof fn lemma_snapshot_respects_match<P: Clone + PartialEq>(
    stream: StreamView<P>,
    a: Seq<ZoneView<P>>,
    b: Seq<ZoneView<P>>,
)
    requires
        lawful_identity::<P>(),
        all_match(a, b),
    ensures
        all_match(stream.snapshot(Some(a)), stream.snapshot(Some(b))),
{
    let mine = stream.zones();
    let (full_a, full_b) = if mine.len() == 0 {
        (a, b)
    } else {
        lemma_find_respects_match(a, b, mine[0], 0);
        let start = find_source(a, mine[0], 0);
        lemma_run_respects_match(a, b, mine, start, 0);
        let run = run_length(a, mine, start, 0);
        (
            merged_run(a, mine, start, run) + mine.subrange(run, mine.len() as int),
            merged_run(b, mine, start, run) + mine.subrange(run, mine.len() as int),
        )
    };
    assert(full_a.len() == full_b.len());
    assert forall|i: int| 0 <= i < full_a.len() implies (#[trigger] full_a[i]).matches(
        full_b[i],
    ) by {
        if i < a.len() {
            assert(a[i].matches(b[i]));
        } else {
            lemma_same_source_is_equivalence(full_a[i], full_a[i], full_a[i]);
        }
    }
    assert(stream.snapshot(Some(a)) == trimmed(full_a));
    assert(stream.snapshot(Some(b)) == trimmed(full_b));
    if full_a.len() > 0 {
        assert(full_a.last().matches(full_b.last()));
    }
    assert forall|i: int| 0 <= i < trimmed(full_a).len() implies (#[trigger] trimmed(
        full_a,
    )[i]).matches(trimmed(full_b)[i]) by {
        assert(full_a[i].matches(full_b[i]));
    }
}

/// Identities that are numbers are lawful.
pub proof fn lemma_numbers_are_lawful()
    ensures
        lawful_identity::<u64>(),
{
}

} // verus!
