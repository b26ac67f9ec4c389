//! The stage that hands bytes on in records of one fixed size.

use crate::bytes::{append_bytes, pad_to, padded};
use crate::spanning::sink::{
    all_of_size, ends_with, is_rest_of, ByteSink, RecoverableWrite, SinkError,
};
use crate::spanning::laws::{lemma_match_transitive, lemma_snapshot_respects_match};
use crate::spanning::stream::{all_balanced, zone_views, DataZoneStream, StreamView};
use crate::spanning::zone::{lawful_identity, DataZone, ZoneView};
use vstd::prelude::*;
use vstd::slice::slice_subrange;
use vstd::std_specs::cmp::PartialEqSpec;

verus! {

/// The smaller of two numbers.
pub open spec fn least(a: int, b: int) -> int {
    if a <= b {
        a
    } else {
        b
    }
}

/// The first `count` records of `size` bytes that `buf` holds, one after the
/// other.
pub open spec fn records_of(buf: Seq<u8>, size: nat, count: nat) -> Seq<Seq<u8>> {
    Seq::new(count, |k: int| buf.subrange(k * size, (k + 1) * size))
}

/// No records after a list of slices leave the list as it is.
proof fn lemma_no_records(buf: Seq<u8>, size: nat, calls: Seq<Seq<u8>>)
    ensures
        calls + records_of(buf, size, 0) == calls,
{
    assert(calls + records_of(buf, size, 0) =~= calls);
}

/// A sink that was offered a record of `size` bytes and answered with
/// `outcome` did not take the record, and `error` says so: it is the error of
/// the sink, or `WriteZero` where the sink took less than the record.
pub open spec fn refused_record(
    outcome: Result<usize, SinkError>,
    error: SinkError,
    size: nat,
) -> bool {
    outcome == Err::<usize, SinkError>(error) || (outcome matches Ok(taken) && taken < size
        && error == SinkError::WriteZero)
}

/// A stage that offers its inner sink nothing but records: slices of exactly
/// 512 bytes times the blocking factor.
///
/// Bytes gather in a record buffer until it is full; a full record goes to
/// the inner sink at the start of the next write. A write that finds the
/// buffer empty and covers a record or more goes around the buffer: the inner
/// sink is offered records cut straight from the caller's bytes.
///
/// A record is offered to the inner sink as a whole and never in parts: where
/// the inner sink takes less than the record, the stage takes it to be full
/// and does not offer it the rest.
pub struct BlockingWriter<W, P = u64> {
    blocking_factor: usize,
    inner: W,
    block: Vec<u8>,
    datazone_stream: DataZoneStream<P>,
    calls: Ghost<Seq<Seq<u8>>>,
    taken: Ghost<Seq<u8>>,
    answers: Ghost<Seq<Result<usize, SinkError>>>,
    flushes: Ghost<Seq<bool>>,
    first_call: Ghost<nat>,
}

impl<W: RecoverableWrite<P>, P: Clone + PartialEq> BlockingWriter<W, P> {
    /// The sink under this stage.
    pub closed spec fn inner(&self) -> W {
        self.inner
    }

    /// The length of a record in bytes.
    pub closed spec fn record_size(&self) -> nat {
        self.blocking_factor as nat
    }

    /// The bytes that wait in the record buffer.
    pub closed spec fn buffered(&self) -> Seq<u8> {
        self.block@
    }

    /// The zones of this stage.
    pub closed spec fn ledger(&self) -> StreamView<P> {
        self.datazone_stream@
    }

    /// How many slices the inner sink had been offered before this stage was
    /// put on it.
    pub closed spec fn first_call(&self) -> nat {
        self.first_call@
    }

    /// The bytes that went into this stage and did not get lost: those that
    /// the inner sink took, then those that wait in the record buffer.
    pub open spec fn pipeline(&self) -> Seq<u8> {
        self.inner().accepted() + self.buffered()
    }

    /// The zones of this stage once a full record buffer was handed on.
    pub open spec fn cleared_ledger(&self) -> StreamView<P> {
        if self.buffered().len() == self.record_size() {
            self.ledger().commit(self.record_size())
        } else {
            self.ledger()
        }
    }

    /// The number of bytes in the record buffer once a full one was handed on.
    pub open spec fn cleared_fill(&self) -> nat {
        if self.buffered().len() == self.record_size() {
            0
        } else {
            self.buffered().len()
        }
    }

    /// The record that the buffer holds, where it is full: it is the first
    /// that the next write or flush offers to the inner sink.
    pub open spec fn full_record(&self) -> Seq<Seq<u8>> {
        if self.buffered().len() == self.record_size() {
            seq![self.buffered()]
        } else {
            Seq::empty()
        }
    }

    /// From `self` to `after`, the inner sink was offered the record that the
    /// buffer held, where it was full, and then `count` records cut from the
    /// start of `buf`, each where the one before it ends.
    pub open spec fn offered(&self, after: &Self, buf: Seq<u8>, count: nat) -> bool {
        &&& after.inner().presented() == self.inner().presented() + self.full_record()
            + records_of(buf, self.record_size(), count)
        &&& count * self.record_size() <= buf.len()
    }

    /// A write of `len` bytes goes around the record buffer.
    pub open spec fn shortcuts(&self, len: nat) -> bool {
        self.cleared_fill() == 0 && len >= self.record_size()
    }

    /// The number of bytes that a write of `len` bytes puts into the record
    /// buffer, where it does not go around it: what the buffer has room for,
    /// and no more than the current zone can count.
    pub open spec fn fills(&self, len: nat) -> nat {
        least(
            least(len as int, self.record_size() - self.cleared_fill()),
            self.cleared_ledger().room() as int,
        ) as nat
    }

    /// A write of `buf` that ended with `result` and took the stage from
    /// `self` to `after` cut `count` records from the start of `buf` for the
    /// inner sink, and stopped where it had to.
    ///
    /// Records are cut only by a write that goes around the buffer. Such a
    /// write goes on while the inner sink takes each record as a whole. It
    /// stops after a record that the inner sink took in part or not at all,
    /// and else where less than a record is left of `buf` or the current
    /// zone cannot count another. It fails only with the error that the
    /// inner sink gave for the very first record; without a record cut, a
    /// write fails only where the inner sink did not take the full record
    /// that the buffer held.
    pub open spec fn cut(
        &self,
        after: &Self,
        buf: Seq<u8>,
        result: Result<usize, SinkError>,
        count: nat,
    ) -> bool {
        let size = self.record_size();
        let answers = after.inner().outcomes();
        &&& self.offered(after, buf, count)
        &&& answers.len() == self.inner().outcomes().len() + self.full_record().len() + count
        &&& !self.shortcuts(buf.len()) ==> count == 0
        &&& match result {
            Ok(n) => {
                &&& self.shortcuts(buf.len()) ==> {
                    &&& n <= count * size
                    &&& n == count * size ==> buf.len() - n < size || self.cleared_ledger().through(
                        n as nat,
                    ).room() < size
                }
                &&& count > 0 ==> match answers.last() {
                    Ok(taken) => taken <= size && n == (count - 1) * size + taken,
                    Err(_) => count > 1 && n == (count - 1) * size,
                }
            },
            Err(error) => if count == 0 {
                &&& self.buffered().len() == size
                &&& refused_record(answers.last(), error, size)
                &&& after.buffered() == self.buffered()
                &&& after.ledger() == self.ledger()
            } else {
                &&& count == 1
                &&& answers.last() == Err::<usize, SinkError>(error)
                &&& after.buffered().len() == 0
                &&& after.inner().accepted() == self.pipeline()
                &&& after.ledger() == self.cleared_ledger()
            },
        }
    }

    /// A write of `buf` that ended with `result` took the stage from `self`
    /// to `after`: what `write` promises, in one place.
    pub open spec fn wrote(
        &self,
        after: &Self,
        buf: Seq<u8>,
        result: Result<usize, SinkError>,
    ) -> bool {
        &&& after.record_size() == self.record_size()
        &&& after.first_call() == self.first_call()
        &&& self.inner().presented().is_prefix_of(after.inner().presented())
        &&& self.inner().outcomes().is_prefix_of(after.inner().outcomes())
        &&& self.inner().accepted().is_prefix_of(after.inner().accepted())
        &&& after.inner().flushed() == self.inner().flushed()
        &&& exists|count: nat| #[trigger] self.cut(after, buf, result, count)
        &&& match result {
            Ok(n) => {
                &&& after.pipeline() == self.pipeline() + buf.subrange(0, n as int)
                &&& if buf.len() > 0 && self.shortcuts(buf.len()) {
                    &&& after.buffered().len() == 0
                    &&& after.ledger() == self.cleared_ledger().through(n as nat)
                } else {
                    &&& n == self.fills(buf.len())
                    &&& after.buffered().len() == self.cleared_fill() + n
                    &&& after.ledger() == self.cleared_ledger().buffered(n as nat)
                }
            },
            Err(_) => {
                &&& after.buffered().len() == self.cleared_fill() || after.buffered()
                    == self.buffered()
                &&& after.ledger() == self.cleared_ledger() || after.ledger() == self.ledger()
                &&& self.buffered().len() == self.record_size() || self.shortcuts(buf.len())
            },
        }
        &&& self.buffered().len() < self.record_size() && !self.shortcuts(buf.len())
            ==> result is Ok && after.inner() == self.inner()
    }

    /// Of a row of `len` bytes, the bytes that go into a record buffer that
    /// holds some and is not full: as many as it has room for.
    pub open spec fn head(&self, len: nat) -> nat {
        let fill = self.buffered().len();
        if 0 < fill < self.record_size() {
            least(len as int, self.record_size() - fill) as nat
        } else {
            0
        }
    }

    /// The inner sink took every record that it was offered from `self` to
    /// `after`, each as a whole.
    pub open spec fn took_records(&self, after: &Self) -> bool {
        forall|i: int|
            self.inner().outcomes().len() <= i < after.inner().outcomes().len() ==> (
            #[trigger] after.inner().outcomes()[i]) == Ok::<usize, SinkError>(
                self.record_size() as usize,
            )
    }

    /// From `self` to `after` nothing happened to the inner sink, the record
    /// buffer or the zones.
    pub open spec fn kept(&self, after: &Self) -> bool {
        &&& after.inner() == self.inner()
        &&& after.buffered() == self.buffered()
        &&& after.ledger() == self.ledger()
    }

    /// From `self` to `after` the first `n` bytes of `buf` went into the
    /// record buffer, and nothing to the inner sink.
    pub open spec fn filled(&self, after: &Self, buf: Seq<u8>, n: nat) -> bool {
        &&& after.inner() == self.inner()
        &&& after.buffered() == self.buffered() + buf.subrange(0, n as int)
        &&& after.ledger() == self.ledger().buffered(n)
    }

    /// The zones once records went on their way: the record that the buffer
    /// held, filled up with `head` bytes, is committed, where the buffer held
    /// anything; `around` bytes went around the buffer; `tail` bytes wait in
    /// it.
    pub open spec fn emitted_ledger(&self, head: nat, around: nat, tail: nat) -> StreamView<P> {
        let size = self.record_size();
        let fill = self.buffered().len();
        let first = if fill == size {
            self.ledger().commit(size)
        } else if fill > 0 {
            self.ledger().buffered(head).commit(size)
        } else {
            self.ledger()
        };
        let second = if around > 0 {
            first.through(around)
        } else {
            first
        };
        if tail > 0 {
            second.buffered(tail)
        } else {
            second
        }
    }

    /// From `self` to `after` the first `upto` bytes of `buf` went into the
    /// stage, and the inner sink took records of them: first the record
    /// that the buffer held, filled up from `buf`, where the buffer held
    /// anything, and then `count` records cut from `buf` where that one
    /// ends. What follows these records waits in the buffer.
    pub open spec fn emitted(&self, after: &Self, buf: Seq<u8>, count: nat, upto: nat) -> bool {
        let size = self.record_size();
        let head = self.head(buf.len());
        let first = if self.buffered().len() > 0 {
            seq![self.buffered() + buf.subrange(0, head as int)]
        } else {
            Seq::empty()
        };
        &&& after.inner().presented() == self.inner().presented() + first + records_of(
            buf.skip(head as int),
            size,
            count,
        )
        &&& after.inner().accepted() == self.inner().accepted() + self.buffered() + buf.subrange(
            0,
            (head + count * size) as int,
        )
        &&& after.buffered() == buf.subrange((head + count * size) as int, upto as int)
        &&& after.ledger() == self.emitted_ledger(
            head,
            count * size,
            (upto - head - count * size) as nat,
        )
    }

    /// From `self` to `after` all of `buf` went into the stage, and the inner
    /// sink took every record that was due.
    ///
    /// Bytes go into a buffer that holds some until it is full. If bytes are
    /// left then, the full record goes to the inner sink, and so does every
    /// whole record that is left of `buf`, cut straight from it; what is
    /// left after the last of them waits in the buffer. A full buffer is
    /// handed on only when bytes follow.
    pub open spec fn wrote_all(&self, after: &Self, buf: Seq<u8>) -> bool {
        let head = self.head(buf.len());
        let rest = buf.len() - head;
        if buf.len() == 0 {
            self.kept(after)
        } else if rest == 0 {
            self.filled(after, buf, buf.len())
        } else {
            self.emitted(after, buf, (rest / self.record_size() as int) as nat, buf.len())
        }
    }

    /// Where `write_all` stands after `done` bytes of `buf`, as long as the
    /// inner sink takes every record: at the start, at a buffer that was
    /// filled up, behind the records that went around the buffer, or at the
    /// end.
    spec fn between(&self, now: &Self, buf: Seq<u8>, done: nat) -> bool {
        let size = self.record_size();
        let fill = self.buffered().len();
        let head = self.head(buf.len());
        let rest = buf.len() - head;
        let count = (rest / size as int) as nat;
        ||| done == 0 && self.kept(now)
        ||| 0 < fill < size && done == head && self.filled(now, buf, head)
        ||| rest > 0 && count > 0 && done == head + count * size && self.emitted(
            now,
            buf,
            count,
            done,
        )
        ||| rest > 0 && done == buf.len() && self.emitted(now, buf, count, done)
    }

    /// A stage with records of 20 times 512 bytes.
    pub fn new(inner: W) -> (writer: BlockingWriter<W, P>)
        requires
            inner.inv(),
            P::obeys_eq_spec(),
        ensures
            writer.inv(),
            writer.inner() == inner,
            writer.record_size() == 20 * 512,
            writer.buffered() == Seq::<u8>::empty(),
            writer.ledger() == StreamView::<P>::empty(),
            writer.first_call() == inner.presented().len(),
            writer.presented() == Seq::<Seq<u8>>::empty(),
            writer.accepted() == Seq::<u8>::empty(),
            writer.outcomes() == Seq::<Result<usize, SinkError>>::empty(),
            writer.flushed() == Seq::<bool>::empty(),
    {
        Self::new_with_factor(inner, 20)
    }

    /// A stage with records of `factor` times 512 bytes.
    pub fn new_with_factor(inner: W, factor: usize) -> (writer: BlockingWriter<W, P>)
        requires
            inner.inv(),
            P::obeys_eq_spec(),
            1 <= factor,
            factor * 512 <= usize::MAX,
        ensures
            writer.inv(),
            writer.inner() == inner,
            writer.record_size() == factor * 512,
            writer.buffered() == Seq::<u8>::empty(),
            writer.ledger() == StreamView::<P>::empty(),
            writer.first_call() == inner.presented().len(),
            writer.presented() == Seq::<Seq<u8>>::empty(),
            writer.accepted() == Seq::<u8>::empty(),
            writer.outcomes() == Seq::<Result<usize, SinkError>>::empty(),
            writer.flushed() == Seq::<bool>::empty(),
    {
        let ghost first = inner.presented().len();
        BlockingWriter {
            blocking_factor: factor * 512,
            inner,
            block: Vec::new(),
            datazone_stream: DataZoneStream::new(),
            calls: Ghost(Seq::empty()),
            taken: Ghost(Seq::empty()),
            answers: Ghost(Seq::empty()),
            flushes: Ghost(Seq::empty()),
            first_call: Ghost(first),
        }
    }

    pub fn as_inner_writer(&self) -> (inner: &W)
        ensures
            *inner == self.inner(),
    {
        &self.inner
    }

    /// Puts into the record buffer as much of `buf` as it has room for and the
    /// current zone can count, and returns what is left of `buf`, if anything
    /// is.
    fn fill_block<'a>(&mut self, buf: &'a [u8]) -> (rest: Option<&'a [u8]>)
        requires
            old(self).inv(),
            old(self).buffered().len() < old(self).record_size(),
        ensures
            final(self).inv(),
            final(self).inner() == old(self).inner(),
            final(self).record_size() == old(self).record_size(),
            final(self).first_call() == old(self).first_call(),
            final(self).calls == old(self).calls,
            final(self).taken == old(self).taken,
            final(self).answers == old(self).answers,
            final(self).flushes == old(self).flushes,
            final(self).buffered() == old(self).buffered() + buf@.subrange(
                0,
                old(self).fills(buf@.len()) as int,
            ),
            final(self).ledger() == old(self).ledger().buffered(old(self).fills(buf@.len())),
            match rest {
                Some(left) => left@ == buf@.subrange(
                    old(self).fills(buf@.len()) as int,
                    buf@.len() as int,
                ) && left@.len() > 0,
                None => old(self).fills(buf@.len()) == buf@.len(),
            },
    {
        let block_space: usize = self.blocking_factor - self.block.len();
        let room: u64 = self.datazone_stream.room();
        let mut count: usize = if block_space >= buf.len() {
            buf.len()
        } else {
            block_space
        };
        if count as u64 > room {
            count = room as usize;
        }
        append_bytes(&mut self.block, slice_subrange(buf, 0, count));
        self.datazone_stream.write_buffered(count as u64);
        if count == buf.len() {
            None
        } else {
            Some(slice_subrange(buf, count, buf.len()))
        }
    }

    /// Hands a full record buffer to the inner sink and clears it. A buffer
    /// that is not full stays as it is.
    ///
    /// Fails with the error of the inner sink, and with `WriteZero` where the
    /// inner sink took less than the record. The record stays in the buffer
    /// then, and no zone counts it as committed.
    fn empty_block(&mut self) -> (result: Result<(), SinkError>)
        requires
            old(self).inv(),
        ensures
            final(self).inv(),
            final(self).record_size() == old(self).record_size(),
            final(self).first_call() == old(self).first_call(),
            final(self).calls == old(self).calls,
            final(self).taken == old(self).taken,
            final(self).answers == old(self).answers,
            final(self).flushes == old(self).flushes,
            old(self).buffered().len() < old(self).record_size() ==> {
                &&& result is Ok
                &&& final(self).inner() == old(self).inner()
                &&& final(self).buffered() == old(self).buffered()
                &&& final(self).ledger() == old(self).ledger()
            },
            old(self).buffered().len() == old(self).record_size() ==> {
                &&& final(self).inner().presented() == old(self).inner().presented().push(
                    old(self).buffered(),
                )
                &&& old(self).inner().accepted().is_prefix_of(final(self).inner().accepted())
                &&& final(self).inner().outcomes().len() == old(self).inner().outcomes().len() + 1
                &&& result is Ok <==> final(self).inner().outcomes().last() == Ok::<
                    usize,
                    SinkError,
                >(old(self).blocking_factor)
            },
            old(self).inner().outcomes().is_prefix_of(final(self).inner().outcomes()),
            final(self).inner().flushed() == old(self).inner().flushed(),
            final(self).inner().presented() == old(self).inner().presented()
                + old(self).full_record(),
            result is Ok ==> {
                &&& final(self).pipeline() == old(self).pipeline()
                &&& final(self).buffered().len() == old(self).cleared_fill()
                &&& final(self).ledger() == old(self).cleared_ledger()
            },
            result matches Err(error) ==> {
                &&& final(self).buffered() == old(self).buffered()
                &&& final(self).ledger() == old(self).ledger()
                &&& old(self).buffered().len() == old(self).record_size()
                &&& refused_record(
                    final(self).inner().outcomes().last(),
                    error,
                    old(self).record_size(),
                )
                &&& final(self).inner().accepted().len() < old(self).inner().accepted().len()
                    + old(self).record_size()
            },
    {
        assert(self.inner.presented() + Seq::<Seq<u8>>::empty() =~= self.inner.presented());
        assert(self.inner.presented().push(self.block@) =~= self.inner.presented() + seq![
            self.block@,
        ]);
        if self.block.len() >= self.blocking_factor {
            let ghost before = self.inner.accepted();
            match self.inner.write(self.block.as_slice()) {
                Ok(n) => {
                    if n < self.blocking_factor {
                        return Err(SinkError::WriteZero);
                    }
                    assert(self.block@.subrange(0, n as int) =~= self.block@);
                    self.datazone_stream.write_committed(self.blocking_factor as u64);
                    self.block.clear();
                    assert(self.inner.accepted() + self.block@ =~= before + old(self).block@);
                    Ok(())
                },
                Err(error) => Err(error),
            }
        } else {
            Ok(())
        }
    }

    /// Does the work of a write, but for the record of the call itself.
    fn take(&mut self, buf: &[u8]) -> (result: Result<usize, SinkError>)
        requires
            old(self).inv(),
        ensures
            final(self).inv(),
            final(self).calls == old(self).calls,
            final(self).answers == old(self).answers,
            final(self).flushes == old(self).flushes,
            match result {
                Ok(n) => n <= buf.len() && final(self).taken@ == old(self).taken@ + buf@.subrange(
                    0,
                    n as int,
                ),
                Err(_) => final(self).taken == old(self).taken,
            },
            old(self).wrote(final(self), buf@, result),
    {
        let ghost size_before = self.record_size();
        match self.empty_block() {
            Err(error) => {
                proof {
                    lemma_no_records(buf@, size_before, self.inner.presented());
                    assert(old(self).cut(self, buf@, Err(error), 0));
                }
                return Err(error);
            },
            Ok(()) => {},
        }
        let ghost offered_before = self.inner.presented();
        let ghost answers_before = self.inner.outcomes();
        proof {
            lemma_no_records(buf@, size_before, offered_before);
        }
        let ghost cleared_ledger = self.ledger();
        let ghost cleared_pipeline = self.pipeline();
        assert(cleared_ledger == old(self).cleared_ledger());
        assert(cleared_pipeline == old(self).pipeline());
        if buf.len() == 0 {
            assert(buf@.subrange(0, 0) =~= Seq::<u8>::empty());
            assert(self.taken@ + buf@.subrange(0, 0) =~= self.taken@);
            assert(self.pipeline() + buf@.subrange(0, 0) =~= self.pipeline());
            assert(old(self).cut(self, buf@, Ok(0), 0));
            return Ok(0);
        }
        let size: usize = self.blocking_factor;
        if self.block.len() == 0 && buf.len() >= size {
            let mut done: usize = 0;
            let ghost mut count: nat = 0;
            let ghost accepted = self.inner.accepted();
            assert(accepted + buf@.subrange(0, 0) =~= accepted);
            assert(accepted =~= cleared_pipeline);
            loop
                invariant_except_break
                    done == count * size,
                    count > 0 ==> self.inner.outcomes().last() == Ok::<usize, SinkError>(size),
                invariant
                    size_before == size,
                    offered_before == old(self).inner().presented() + old(self).full_record(),
                    self.inner.presented() == offered_before + records_of(
                        buf@,
                        size as nat,
                        count,
                    ),
                    answers_before.len() == old(self).inner().outcomes().len()
                        + old(self).full_record().len(),
                    self.inner.outcomes().len() == answers_before.len() + count,
                    old(self).inner().outcomes().is_prefix_of(self.inner.outcomes()),
                    self.inner.flushed() == old(self).inner().flushed(),
                    count * size <= buf.len(),
                    done <= count * size,
                    count > 0 ==> (count - 1) * size <= done,
                    size == self.blocking_factor,
                    size == old(self).blocking_factor,
                    old(self).inner.accepted().is_prefix_of(accepted),
                    accepted == old(self).pipeline(),
                    cleared_ledger == old(self).cleared_ledger(),
                    old(self).shortcuts(buf@.len()),
                    size <= buf.len(),
                    done <= buf.len(),
                    self.inv(),
                    self.block@.len() == 0,
                    self.calls == old(self).calls,
                    self.taken == old(self).taken,
                    self.answers == old(self).answers,
                    self.flushes == old(self).flushes,
                    self.first_call == old(self).first_call,
                    self.datazone_stream@ == cleared_ledger.through(done as nat),
                    self.inner.accepted() == accepted + buf@.subrange(0, done as int),
                    old(self).inner().presented().is_prefix_of(self.inner.presented()),
                ensures
                    done == count * size ==> buf.len() - done < size
                        || self.datazone_stream@.room() < size,
                    count > 0 ==> match self.inner.outcomes().last() {
                        Ok(taken) => taken <= size && done == (count - 1) * size + taken,
                        Err(_) => count > 1 && done == (count - 1) * size,
                    },
                decreases buf.len() - done,
            {
                proof {
                    assert((count - 1) * size + size == count * size) by (nonlinear_arith);
                }
                if buf.len() - done < size {
                    break ;
                }
                if self.datazone_stream.room() < size as u64 {
                    break ;
                }
                let ghost taken_before = self.inner.accepted();
                let ghost offered = self.inner.presented();
                let record = slice_subrange(buf, done, done + size);
                proof {
                    assert((count + 1) * size == count * size + size) by (nonlinear_arith);
                    assert(records_of(buf@, size as nat, count + 1) =~= records_of(
                        buf@,
                        size as nat,
                        count,
                    ).push(record@));
                    assert(offered.push(record@) =~= offered_before + records_of(
                        buf@,
                        size as nat,
                        count + 1,
                    ));
                    count = count + 1;
                }
                match self.inner.write(record) {
                    Ok(n) => {
                        self.datazone_stream.write_through(n as u64);
                        assert(taken_before + record@.subrange(0, n as int) =~= accepted
                            + buf@.subrange(0, done + n));
                        done += n;
                        if n < size {
                            break ;
                        }
                    },
                    Err(error) => {
                        if done == 0 {
                            proof {
                                assert(count == 1) by (nonlinear_arith)
                                    requires
                                        (count - 1) * size == 0,
                                        size > 0,
                                        count >= 1,
                                ;
                                assert(self.inner.accepted() =~= old(self).pipeline());
                                assert(old(self).cut(self, buf@, Err(error), count));
                            }
                            return Err(error);
                        }
                        proof {
                            assert(count > 1) by (nonlinear_arith)
                                requires
                                    (count - 1) * size == done,
                                    done > 0,
                                    count >= 1,
                            ;
                        }
                        break ;
                    },
                }
            }
            proof {
                self.taken@ = self.taken@ + buf@.subrange(0, done as int);
                assert(self.pipeline() =~= cleared_pipeline + buf@.subrange(0, done as int));
                assert(old(self).cut(self, buf@, Ok(done), count));
            }
            return Ok(done);
        }
        let ghost count = self.fills(buf@.len());
        let written: usize = match self.fill_block(buf) {
            Some(rest) => buf.len() - rest.len(),
            None => buf.len(),
        };
        proof {
            assert(written == count);
            self.taken@ = self.taken@ + buf@.subrange(0, written as int);
            assert(self.pipeline() =~= cleared_pipeline + buf@.subrange(0, written as int));
            assert(old(self).cut(self, buf@, Ok(written), 0));
        }
        Ok(written)
    }
}

impl<W: RecoverableWrite<P>, P: Clone + PartialEq> ByteSink for BlockingWriter<W, P> {
    /// Every slice that the inner sink was offered since this stage was put
    /// on it is exactly one record long.
    open spec fn inv(&self) -> bool {
        &&& P::obeys_eq_spec()
        &&& self.inner().inv()
        &&& self.record_size() > 0
        &&& self.buffered().len() <= self.record_size()
        &&& self.ledger().balanced()
        &&& self.first_call() <= self.inner().presented().len()
        &&& all_of_size(
            self.inner().presented(),
            self.first_call() as int,
            self.record_size() as int,
        )
    }

    closed spec fn presented(&self) -> Seq<Seq<u8>> {
        self.calls@
    }

    closed spec fn outcomes(&self) -> Seq<Result<usize, SinkError>> {
        self.answers@
    }

    closed spec fn accepted(&self) -> Seq<u8> {
        self.taken@
    }

    closed spec fn flushed(&self) -> Seq<bool> {
        self.flushes@
    }

    /// Takes bytes from the start of `buf`.
    ///
    /// A full record buffer goes to the inner sink first; if that fails, so
    /// does the write, and nothing is taken. Then, where the buffer is empty
    /// and `buf` holds a record or more, the inner sink is offered one record
    /// after the other straight from `buf`, until less than a record is left,
    /// the inner sink takes less than it was offered or fails, or the current
    /// zone cannot count another record. What the inner sink took is counted
    /// as written through. If it failed on the very first record the write
    /// fails; later its error is dropped, and the write reports what was taken
    /// before. In every other case the bytes go into the record buffer, as
    /// many as it has room for and the current zone can count.
    fn write(&mut self, buf: &[u8]) -> (result: Result<usize, SinkError>)
        ensures
            final(self).record_size() == old(self).record_size(),
            final(self).first_call() == old(self).first_call(),
            old(self).inner().presented().is_prefix_of(final(self).inner().presented()),
            old(self).inner().outcomes().is_prefix_of(final(self).inner().outcomes()),
            old(self).inner().accepted().is_prefix_of(final(self).inner().accepted()),
            final(self).inner().flushed() == old(self).inner().flushed(),
            exists|count: nat| #[trigger] old(self).cut(final(self), buf@, result, count),
            match result {
                Ok(n) => {
                    &&& final(self).pipeline() == old(self).pipeline() + buf@.subrange(0, n as int)
                    &&& if buf@.len() > 0 && old(self).shortcuts(buf@.len()) {
                        &&& final(self).buffered().len() == 0
                        &&& final(self).ledger() == old(self).cleared_ledger().through(n as nat)
                    } else {
                        &&& n == old(self).fills(buf@.len())
                        &&& final(self).buffered().len() == old(self).cleared_fill() + n
                        &&& final(self).ledger() == old(self).cleared_ledger().buffered(n as nat)
                    }
                },
                Err(_) => {
                    &&& final(self).buffered().len() == old(self).cleared_fill()
                        || final(self).buffered() == old(self).buffered()
                    &&& final(self).ledger() == old(self).cleared_ledger() || final(self).ledger()
                        == old(self).ledger()
                    &&& old(self).buffered().len() == old(self).record_size()
                        || old(self).shortcuts(buf@.len())
                },
            },
            old(self).buffered().len() < old(self).record_size() && !old(self).shortcuts(
                buf@.len(),
            ) ==> result is Ok && final(self).inner() == old(self).inner(),
    {
        let result = self.take(buf);
        proof {
            let ghost taken = *self;
            let count = choose|count: nat| #[trigger] old(self).cut(&taken, buf@, result, count);
            self.calls@ = self.calls@.push(buf@);
            self.answers@ = self.answers@.push(result);
            assert(old(self).cut(self, buf@, result, count));
        }
        result
    }

    /// Offers `buf` to the stage again and again until all of it is taken.
    ///
    /// Where the writes succeed no byte got lost: the inner sink and the
    /// record buffer hold, one after the other, what they held and then
    /// `buf`. The writes fail only with what the inner sink answered to a record that
    /// it did not take as a whole, or with `WriteZero` where the current
    /// zone cannot count the bytes. Where the zone can count them and the
    /// inner sink takes every record, they succeed, and the stage is as
    /// `wrote_all` says.
    fn write_all(&mut self, buf: &[u8]) -> (result: Result<(), SinkError>)
        ensures
            final(self).record_size() == old(self).record_size(),
            final(self).first_call() == old(self).first_call(),
            final(self).inner().flushed() == old(self).inner().flushed(),
            old(self).inner().presented().is_prefix_of(final(self).inner().presented()),
            old(self).inner().outcomes().is_prefix_of(final(self).inner().outcomes()),
            result is Ok ==> final(self).pipeline() == old(self).pipeline() + buf@,
            buf@.len() == 0 ==> old(self).kept(final(self)),
            result matches Err(error) ==> {
                ||| final(self).inner().outcomes().len() > old(self).inner().outcomes().len()
                    && refused_record(
                    final(self).inner().outcomes().last(),
                    error,
                    old(self).record_size(),
                )
                ||| error == SinkError::WriteZero
                    && final(self).ledger().room() < old(self).record_size()
            },
            old(self).ledger().has_room(buf@.len()) && old(self).took_records(final(self))
                ==> result is Ok && old(self).wrote_all(final(self), buf@),
    {
        let mut done: usize = 0;
        let ghost size = self.record_size();
        assert(self.pipeline() + buf@.subrange(0, 0) =~= self.pipeline());
        while done < buf.len()
            invariant
                self.inv(),
                done <= buf.len(),
                self.flushed() == old(self).flushed(),
                old(self).presented().is_prefix_of(self.presented()),
                old(self).outcomes().is_prefix_of(self.outcomes()),
                self.presented().len() - old(self).presented().len() == self.outcomes().len()
                    - old(self).outcomes().len(),
                forall|i: int|
                    old(self).presented().len() <= i < self.presented().len() ==> is_rest_of(
                        #[trigger] self.presented()[i],
                        buf@,
                    ),
                self.accepted() == old(self).accepted() + buf@.subrange(0, done as int),
                done > 0 ==> self.presented().len() > old(self).presented().len()
                    && self.presented()[old(self).presented().len() as int] == buf@,
                done == 0 ==> self.presented() == old(self).presented()
                    && self.outcomes() == old(self).outcomes(),
                size == old(self).record_size(),
                size > 0,
                old(self).buffered().len() <= size,
                self.record_size() == size,
                self.first_call() == old(self).first_call(),
                self.inner().flushed() == old(self).inner().flushed(),
                old(self).inner().presented().is_prefix_of(self.inner().presented()),
                old(self).inner().outcomes().is_prefix_of(self.inner().outcomes()),
                self.pipeline() == old(self).pipeline() + buf@.subrange(0, done as int),
                done == 0 ==> old(self).kept(self),
                old(self).ledger().has_room(buf@.len()) ==> self.ledger().has_room(
                    (buf@.len() - done) as nat,
                ),
                old(self).ledger().has_room(buf@.len()) && old(self).took_records(self)
                    ==> old(self).between(self, buf@, done as nat),
            decreases buf.len() - done,
        {
            let rest = slice_subrange(buf, done, buf.len());
            let ghost before = self.accepted();
            let ghost prev = *self;
            assert(is_rest_of(rest@, buf@));
            match self.write(rest) {
                Ok(n) => {
                    assert(before + rest@.subrange(0, n as int) =~= old(self).accepted()
                        + buf@.subrange(0, done + n));
                    assert(prev.pipeline() + rest@.subrange(0, n as int) =~= old(self).pipeline()
                        + buf@.subrange(0, done + n));
                    proof {
                        lemma_step(old(self), &prev, self, buf@, done as nat, Ok(n));
                    }
                    if n == 0 {
                        assert(rest@ =~= buf@ || done > 0);
                        return Err(SinkError::WriteZero);
                    }
                    assert(done == 0 ==> rest@ =~= buf@);
                    done += n;
                },
                Err(error) => {
                    assert(done == 0 ==> rest@ =~= buf@);
                    assert(prev.pipeline() + rest@.subrange(0, 0) =~= prev.pipeline());
                    proof {
                        lemma_step(old(self), &prev, self, buf@, done as nat, Err(error));
                    }
                    return Err(error);
                },
            }
        }
        assert(buf@.subrange(0, done as int) =~= buf@);
        proof {
            if old(self).ledger().has_room(buf@.len()) && old(self).took_records(self) {
                assert(old(self).between(self, buf@, done as nat));
            }
        }
        Ok(())
    }

    /// Ends the current zone, fills the record buffer up with zero bytes,
    /// hands it to the inner sink and flushes that.
    ///
    /// The inner sink is offered exactly one record, whatever the buffer
    /// held: a flush on an empty buffer writes a record of zero bytes. Where
    /// the inner sink takes the record as a whole, the buffer is empty
    /// afterwards, the inner sink is flushed, and the flush ends as that one
    /// does. Where it does not, the record stays in the buffer, the inner
    /// sink is not flushed, and the flush fails: with the error of the inner
    /// sink, or with `WriteZero` where it took less than the record.
    fn flush(&mut self) -> (result: Result<(), SinkError>)
        ensures
            final(self).record_size() == old(self).record_size(),
            final(self).first_call() == old(self).first_call(),
            final(self).inner().presented() == old(self).inner().presented().push(
                padded(old(self).buffered(), old(self).record_size()),
            ),
            final(self).inner().outcomes().len() == old(self).inner().outcomes().len() + 1,
            old(self).inner().outcomes().is_prefix_of(final(self).inner().outcomes()),
            final(self).buffered().len() == 0 <==> final(self).inner().outcomes().last() == Ok::<
                usize,
                SinkError,
            >(old(self).record_size() as usize),
            final(self).buffered().len() == 0 <==> final(self).inner().accepted()
                == old(self).inner().accepted() + padded(
                old(self).buffered(),
                old(self).record_size(),
            ),
            final(self).buffered().len() == 0 ==> {
                &&& final(self).inner().flushed() == old(self).inner().flushed().push(result is Ok)
                &&& final(self).ledger() == old(self).ledger().ended().commit(
                    old(self).record_size(),
                )
            },
            final(self).buffered().len() != 0 ==> {
                &&& result matches Err(error) && refused_record(
                    final(self).inner().outcomes().last(),
                    error,
                    old(self).record_size(),
                )
                &&& final(self).inner().flushed() == old(self).inner().flushed()
                &&& final(self).buffered() == padded(old(self).buffered(), old(self).record_size())
                &&& final(self).ledger() == old(self).ledger().ended()
                &&& old(self).inner().accepted().is_prefix_of(final(self).inner().accepted())
            },
    {
        self.datazone_stream.end_data_zone();
        self.inner.end_data_zone();
        pad_to(&mut self.block, self.blocking_factor);
        let ghost record = self.block@;
        let ghost accepted = self.inner.accepted();
        let result = match self.empty_block() {
            Err(error) => {
                assert(self.inner.accepted().len() != (accepted + record).len());
                Err(error)
            },
            Ok(()) => self.inner.flush(),
        };
        proof {
            self.flushes@ = self.flushes@.push(result is Ok);
        }
        result
    }
}

impl<W: RecoverableWrite<P>, P: Clone + PartialEq> RecoverableWrite<P> for BlockingWriter<W, P> {
    /// Begins a zone for `ident` in this stage and in the inner sink.
    fn begin_data_zone(&mut self, ident: P)
        ensures
            final(self).record_size() == old(self).record_size(),
            final(self).first_call() == old(self).first_call(),
            final(self).buffered() == old(self).buffered(),
            final(self).inner().presented() == old(self).inner().presented(),
            final(self).inner().outcomes() == old(self).inner().outcomes(),
            final(self).inner().accepted() == old(self).inner().accepted(),
            final(self).inner().flushed() == old(self).inner().flushed(),
            final(self).ledger().current matches Some(zone) && zone.ident matches Some(copy)
                && cloned(ident, copy) && final(self).ledger() == old(self).ledger().begun(copy),
    {
        self.datazone_stream.begin_data_zone(ident.clone());
        self.inner.begin_data_zone(ident);
    }

    /// Begins a zone in this stage and in the inner sink for `ident`, a
    /// source of which `committed` bytes are safe on an earlier volume.
    fn resume_data_zone(&mut self, ident: P, committed: u64)
        ensures
            final(self).record_size() == old(self).record_size(),
            final(self).first_call() == old(self).first_call(),
            final(self).buffered() == old(self).buffered(),
            final(self).inner().presented() == old(self).inner().presented(),
            final(self).inner().outcomes() == old(self).inner().outcomes(),
            final(self).inner().accepted() == old(self).inner().accepted(),
            final(self).inner().flushed() == old(self).inner().flushed(),
            final(self).ledger().current matches Some(zone) && zone.ident matches Some(copy)
                && cloned(ident, copy) && final(self).ledger() == old(self).ledger().resumed(
                copy,
                committed as nat,
            ),
    {
        self.datazone_stream.resume_data_zone(ident.clone(), committed);
        self.inner.resume_data_zone(ident, committed);
    }

    /// Ends the current zone in this stage and in the inner sink.
    fn end_data_zone(&mut self)
        ensures
            final(self).record_size() == old(self).record_size(),
            final(self).first_call() == old(self).first_call(),
            final(self).buffered() == old(self).buffered(),
            final(self).inner().presented() == old(self).inner().presented(),
            final(self).inner().outcomes() == old(self).inner().outcomes(),
            final(self).inner().accepted() == old(self).inner().accepted(),
            final(self).inner().flushed() == old(self).inner().flushed(),
            final(self).ledger() == old(self).ledger().ended(),
    {
        self.datazone_stream.end_data_zone();
        self.inner.end_data_zone();
    }

    /// The zones of this stage laid over those that the inner sink reports.
    open spec fn reported(&self) -> Seq<ZoneView<P>> {
        self.ledger().snapshot(Some(self.inner().reported()))
    }

    /// The zones of this stage laid over those that the inner sink gives.
    fn uncommitted_writes(&self) -> (zones: Vec<DataZone<P>>) {
        let inner_ucw = self.inner.uncommitted_writes();
        let ghost below = zone_views(inner_ucw@);
        let zones = self.datazone_stream.uncommitted_writes(Some(inner_ucw));
        proof {
            if lawful_identity::<P>() {
                lemma_snapshot_respects_match(self.ledger(), below, self.inner().reported());
                lemma_match_transitive(
                    zone_views(zones@),
                    self.ledger().snapshot(Some(below)),
                    self.reported(),
                );
            }
        }
        zones
    }
}

/// One write of `write_all` takes the stage from one of the places where it
/// can stand to the next, as long as the inner sink takes every record and
/// the current zone can count the bytes; a write that fails or takes nothing
/// shows that one of the two does not hold.
proof fn lemma_step<W: RecoverableWrite<P>, P: Clone + PartialEq>(
    start: &BlockingWriter<W, P>,
    prev: &BlockingWriter<W, P>,
    next: &BlockingWriter<W, P>,
    buf: Seq<u8>,
    done: nat,
    result: Result<usize, SinkError>,
)
    requires
        start.record_size() > 0,
        prev.record_size() == start.record_size(),
        start.buffered().len() <= start.record_size(),
        prev.buffered().len() <= prev.record_size(),
        done < buf.len(),
        result matches Ok(n) ==> n <= buf.len() - done,
        start.inner().outcomes().is_prefix_of(prev.inner().outcomes()),
        start.ledger().has_room(buf.len()) ==> prev.ledger().has_room((buf.len() - done) as nat),
        start.ledger().has_room(buf.len()) && start.took_records(prev) ==> start.between(
            prev,
            buf,
            done,
        ),
        prev.wrote(next, buf.subrange(done as int, buf.len() as int), result),
    ensures
        match result {
            Ok(n) => {
                &&& start.ledger().has_room(buf.len()) ==> next.ledger().has_room(
                    (buf.len() - done - n) as nat,
                )
                &&& n > 0 && start.ledger().has_room(buf.len()) && start.took_records(next)
                    ==> start.between(next, buf, (done + n) as nat)
                &&& n == 0 ==> !(start.ledger().has_room(buf.len()) && start.took_records(next))
                &&& n == 0 ==> {
                    ||| next.inner().outcomes().len() > start.inner().outcomes().len()
                        && refused_record(
                        next.inner().outcomes().last(),
                        SinkError::WriteZero,
                        start.record_size(),
                    )
                    ||| next.ledger().room() < start.record_size()
                }
            },
            Err(error) => {
                &&& !start.took_records(next)
                &&& next.inner().outcomes().len() > start.inner().outcomes().len()
                &&& refused_record(next.inner().outcomes().last(), error, start.record_size())
            },
        },
{
    let size = start.record_size();
    let rest = buf.subrange(done as int, buf.len() as int);
    let count = choose|count: nat| #[trigger] prev.cut(next, rest, result, count);
    let answers = next.inner().outcomes();
    let roomy = start.ledger().has_room(buf.len());
    assert(prev.cleared_ledger().room() == prev.ledger().room());
    assert(start.took_records(next) ==> start.took_records(prev));
    if count > 0 || prev.buffered().len() == size {
        assert(answers.len() > start.inner().outcomes().len());
        assert(start.took_records(next) ==> answers.last() == Ok::<usize, SinkError>(
            size as usize,
        ));
    }
    match result {
        Ok(n) => {
            if prev.shortcuts(rest.len()) {
                if count > 0 && answers.last() == Ok::<usize, SinkError>(size as usize) {
                    assert(n == count * size) by (nonlinear_arith)
                        requires
                            n == (count - 1) * size + size,
                    ;
                }
                if count == 0 {
                    assert(n == 0);
                    assert(count * size == 0) by (nonlinear_arith)
                        requires
                            count == 0,
                    ;
                }
            }
            if roomy && start.took_records(next) && n > 0 {
                lemma_next_place(start, prev, next, buf, done, n as nat, count);
            }
            if n == 0 {
                if prev.shortcuts(rest.len()) {
                    if count > 0 {
                        assert((count - 1) * size >= 0) by (nonlinear_arith)
                            requires
                                count >= 1,
                                size > 0,
                        ;
                        assert(count > 1 ==> (count - 1) * size > 0) by (nonlinear_arith)
                            requires
                                size > 0,
                        ;
                        assert(answers.last() == Ok::<usize, SinkError>(0));
                    } else {
                        assert(next.ledger() == prev.cleared_ledger().through(0));
                        assert(next.ledger().room() < size);
                    }
                } else {
                    assert(prev.cleared_fill() < size);
                    assert(prev.cleared_ledger().room() == 0);
                    assert(next.ledger() == prev.cleared_ledger().buffered(0));
                    assert(next.ledger().room() == 0);
                }
            }
        },
        Err(error) => {},
    }
}

/// The step of `lemma_step` for a write that took `n` bytes from a stage
/// that stood where `between` says.
proof fn lemma_next_place<W: RecoverableWrite<P>, P: Clone + PartialEq>(
    start: &BlockingWriter<W, P>,
    prev: &BlockingWriter<W, P>,
    next: &BlockingWriter<W, P>,
    buf: Seq<u8>,
    done: nat,
    n: nat,
    cut: nat,
)
    requires
        start.record_size() > 0,
        prev.record_size() == start.record_size(),
        start.buffered().len() <= start.record_size(),
        prev.buffered().len() <= prev.record_size(),
        done < buf.len(),
        0 < n <= buf.len() - done,
        n <= usize::MAX,
        start.ledger().has_room(buf.len()),
        prev.ledger().has_room((buf.len() - done) as nat),
        start.between(prev, buf, done),
        prev.wrote(next, buf.subrange(done as int, buf.len() as int), Ok(n as usize)),
        prev.cut(next, buf.subrange(done as int, buf.len() as int), Ok(n as usize), cut),
        prev.shortcuts((buf.len() - done) as nat) ==> n == cut * start.record_size(),
    ensures
        start.between(next, buf, done + n),
{
    let size = start.record_size();
    let fill = start.buffered().len();
    let head = start.head(buf.len());
    let left = buf.len() - head;
    let count = (left / size as int) as nat;
    let rest = buf.subrange(done as int, buf.len() as int);
    let around = prev.shortcuts(rest.len());
    assert(prev.cleared_ledger().room() == prev.ledger().room());
    vstd::arithmetic::div_mod::lemma_fundamental_div_mod(left, size as int);
    vstd::arithmetic::div_mod::lemma_mod_bound(left, size as int);
    assert(size * count == count * size) by (nonlinear_arith);
    if around {
        // The write went around the buffer and stopped for want of bytes.
        assert(rest.len() - n < size);
        assert(cut > 0) by {
            if cut == 0 {
                assert(cut * size == 0) by (nonlinear_arith)
                    requires
                        cut == 0,
                ;
            }
        }
        vstd::arithmetic::div_mod::lemma_fundamental_div_mod_converse(
            rest.len() as int,
            size as int,
            cut as int,
            rest.len() - n,
        );
    } else {
        assert(n == least(rest.len() as int, size - prev.cleared_fill()));
    }
    if done == 0 && start.kept(prev) {
        assert(rest =~= buf);
        assert(buf.skip(0) =~= buf);
        assert(buf.subrange(0, 0) =~= Seq::<u8>::empty());
        assert(start.buffered() + Seq::<u8>::empty() =~= start.buffered());
        if around {
            assert(head == 0);
            assert(cut == count);
            assert(next.buffered() =~= buf.subrange((head + count * size) as int, (done + n) as int));
            assert(next.inner().accepted() =~= next.pipeline());
            assert(start.emitted(next, buf, count, done + n));
        } else if fill == size {
            assert(cut == 0);
            vstd::arithmetic::div_mod::lemma_basic_div(left, size as int);
            assert(count == 0);
            assert(count * size == 0) by (nonlinear_arith)
                requires
                    count == 0,
            ;
            lemma_no_records(rest, size, prev.inner().presented() + prev.full_record());
            lemma_parts(
                next.inner().accepted(),
                next.buffered(),
                start.inner().accepted() + start.buffered(),
                buf.subrange(0, n as int),
            );
            assert(records_of(buf.skip(head as int), size, 0) =~= records_of(rest, size, 0));
            assert(start.emitted(next, buf, count, done + n));
        } else if fill == 0 {
            vstd::arithmetic::div_mod::lemma_basic_div(left, size as int);
            assert(count == 0);
            assert(count * size == 0) by (nonlinear_arith)
                requires
                    count == 0,
            ;
            lemma_no_records(buf.skip(head as int), size, start.inner().presented());
            assert(start.inner().presented() + Seq::<Seq<u8>>::empty() =~= start.inner().presented());
            lemma_parts(
                next.inner().accepted(),
                next.buffered(),
                start.inner().accepted() + start.buffered(),
                buf.subrange(0, n as int),
            );
            assert(start.emitted(next, buf, count, done + n));
        } else {
            assert(n == head);
            assert(prev.pipeline() + rest.subrange(0, n as int) =~= start.inner().accepted() + (
            start.buffered() + buf.subrange(0, n as int)));
            lemma_parts(
                next.inner().accepted(),
                next.buffered(),
                start.inner().accepted(),
                start.buffered() + buf.subrange(0, n as int),
            );
            assert(start.filled(next, buf, head));
        }
    } else if 0 < fill < size && done == head && start.filled(prev, buf, head) {
        assert(prev.buffered().len() == size);
        assert(rest =~= buf.skip(head as int));
        assert(buf.subrange(0, head as int) + rest.subrange(0, n as int) =~= buf.subrange(
            0,
            (head + n) as int,
        ));
        if around {
            assert(cut == count);
            assert(next.buffered() =~= buf.subrange((head + count * size) as int, (done + n) as int));
            assert(next.inner().accepted() =~= next.pipeline());
            assert(next.inner().accepted() =~= start.inner().accepted() + start.buffered()
                + buf.subrange(0, (head + count * size) as int));
            assert(start.emitted(next, buf, count, done + n));
        } else {
            assert(cut == 0);
            vstd::arithmetic::div_mod::lemma_basic_div(left, size as int);
            assert(count == 0);
            assert(count * size == 0) by (nonlinear_arith)
                requires
                    count == 0,
            ;
            lemma_no_records(rest, size, prev.inner().presented() + prev.full_record());
            assert(prev.pipeline() + rest.subrange(0, n as int) =~= (start.inner().accepted()
                + start.buffered() + buf.subrange(0, head as int)) + rest.subrange(0, n as int));
            lemma_parts(
                next.inner().accepted(),
                next.buffered(),
                start.inner().accepted() + start.buffered() + buf.subrange(0, head as int),
                rest.subrange(0, n as int),
            );
            assert(rest.subrange(0, n as int) =~= buf.subrange(head as int, (done + n) as int));
            assert(start.emitted(next, buf, count, done + n));
        }
    } else {
        assert(left > 0 && count > 0 && done == head + count * size);
        assert(start.emitted(prev, buf, count, done));
        assert(prev.buffered().len() == 0);
        assert(!around);
        assert(n == rest.len());
        lemma_parts(
            next.inner().accepted(),
            next.buffered(),
            prev.inner().accepted(),
            rest.subrange(0, n as int),
        );
        assert(rest.subrange(0, n as int) =~= buf.subrange(
            (head + count * size) as int,
            (done + n) as int,
        ));
        assert(start.emitted(next, buf, count, done + n));
    }
}

/// Two rows of bytes that make the same row when each is followed by a row
/// of one length are the same, and so are the rows that follow them.
proof fn lemma_parts(a: Seq<u8>, b: Seq<u8>, c: Seq<u8>, d: Seq<u8>)
    requires
        a + b == c + d,
        b.len() == d.len(),
    ensures
        a == c,
        b == d,
{
    assert((a + b).len() == a.len() + b.len());
    assert((c + d).len() == c.len() + d.len());
    assert(a.len() == c.len());
    assert forall|i: int| 0 <= i < a.len() implies a[i] == c[i] by {
        assert((a + b)[i] == a[i]);
        assert((c + d)[i] == c[i]);
    }
    assert forall|i: int| 0 <= i < b.len() implies b[i] == d[i] by {
        assert((a + b)[a.len() + i] == b[i]);
        assert((c + d)[c.len() + i] == d[i]);
    }
    assert(a =~= c);
    assert(b =~= d);
}

} // verus!
