//! What a write pipeline asks of each of its stages, and the stages that do
//! no buffering of their own.

use crate::bytes::append_bytes;
use crate::spanning::stream::{all_balanced, all_match, zone_views};
use crate::spanning::zone::{lawful_identity, DataZone, ZoneView};
use vstd::prelude::*;
use vstd::slice::slice_subrange;

verus! {

/// `std::io::Error` of the standard library, as an opaque value: an error
/// of a device is carried through, and nothing is said about what it holds.
#[verifier::external_type_specification]
#[verifier::external_body]
pub struct ExIoError(std::io::Error);

/// Why a sink did not take the bytes it was given.
#[derive(Debug)]
pub enum SinkError {
    /// The medium is full: a write took no byte at all.
    WriteZero,
    /// The device failed in some other way.
    DeviceIO(std::io::Error),
    /// The worker that writes on behalf of a buffer is gone.
    WorkerTerminated,
}

/// Every slice of `calls` from place `from` on is `size` bytes long.
pub open spec fn all_of_size(calls: Seq<Seq<u8>>, from: int, size: int) -> bool {
    forall|i: int| from <= i < calls.len() ==> (#[trigger] calls[i]).len() == size
}

/// `slice` is what is left of `whole` from some place on, and holds a byte
/// at least.
pub open spec fn is_rest_of(slice: Seq<u8>, whole: Seq<u8>) -> bool {
    0 < slice.len() <= whole.len() && slice == whole.subrange(
        whole.len() - slice.len(),
        whole.len() as int,
    )
}

/// A row of writes that ended with `outcome` ends with `error`: the write
/// failed with it, or it took nothing and the error is `WriteZero`.
pub open spec fn ends_with(outcome: Result<usize, SinkError>, error: SinkError) -> bool {
    outcome == Err::<usize, SinkError>(error) || (outcome == Ok::<usize, SinkError>(0)
        && error == SinkError::WriteZero)
}

/// A destination for bytes.
///
/// A sink is described by its histories: the slices that were handed to
/// `write`, call by call, how each of these writes ended, the bytes that the
/// sink took of them, and how each `flush` ended. A sink that this crate
/// defines says what its histories are. For any other sink they are what its
/// calls make of them: it keeps to the contract by taking bytes as `write`
/// says.
pub trait ByteSink {
    /// What the sink needs to hold between calls.
    open spec fn inv(&self) -> bool {
        true
    }

    /// Every slice that was handed to `write`, oldest first.
    open spec fn presented(&self) -> Seq<Seq<u8>> {
        arbitrary()
    }

    /// How every `write` ended, oldest first: with the number of bytes that
    /// the sink took of the slice, or with an error.
    open spec fn outcomes(&self) -> Seq<Result<usize, SinkError>> {
        arbitrary()
    }

    /// The bytes that the sink took, in order.
    open spec fn accepted(&self) -> Seq<u8> {
        arbitrary()
    }

    /// How every `flush` of the sink ended, oldest first: whether it
    /// succeeded.
    open spec fn flushed(&self) -> Seq<bool> {
        arbitrary()
    }

    /// Offers `buf` to the sink, which takes a number of bytes from its
    /// start. A sink that takes no byte of a slice that holds some is full:
    /// that is how the end of a medium shows.
    fn write(&mut self, buf: &[u8]) -> (result: Result<usize, SinkError>)
        requires
            old(self).inv(),
        ensures
            final(self).inv(),
            final(self).presented() == old(self).presented().push(buf@),
            final(self).outcomes() == old(self).outcomes().push(result),
            final(self).flushed() == old(self).flushed(),
            match result {
                Ok(n) => n <= buf.len() && final(self).accepted() == old(self).accepted()
                    + buf@.subrange(0, n as int),
                Err(_) => final(self).accepted() == old(self).accepted(),
            },
    ;

    /// Has the sink pass on what it holds back. The flush takes no byte and
    /// is no write: it adds its outcome to the flushes of the sink, and
    /// nothing else.
    fn flush(&mut self) -> (result: Result<(), SinkError>)
        requires
            old(self).inv(),
        ensures
            final(self).inv(),
            final(self).presented() == old(self).presented(),
            final(self).outcomes() == old(self).outcomes(),
            final(self).accepted() == old(self).accepted(),
            final(self).flushed() == old(self).flushed().push(result is Ok),
    ;

    /// Offers `buf` to the sink again and again until all of it is taken.
    ///
    /// Every slice that is offered is what is left of `buf` at that time, and
    /// holds a byte at least. The writes end with the first of which the sink
    /// takes nothing, and `WriteZero` is the error then, or with the first
    /// that fails, and its error is the error. No flush is asked for.
    fn write_all(&mut self, buf: &[u8]) -> (result: Result<(), SinkError>)
        requires
            old(self).inv(),
        ensures
            final(self).inv(),
            final(self).flushed() == old(self).flushed(),
            old(self).presented().is_prefix_of(final(self).presented()),
            old(self).outcomes().is_prefix_of(final(self).outcomes()),
            final(self).presented().len() - old(self).presented().len()
                == final(self).outcomes().len() - old(self).outcomes().len(),
            forall|i: int|
                old(self).presented().len() <= i < final(self).presented().len()
                    ==> is_rest_of(#[trigger] final(self).presented()[i], buf@),
            old(self).accepted().is_prefix_of(final(self).accepted()),
            final(self).accepted().len() <= old(self).accepted().len() + buf.len(),
            final(self).accepted() == old(self).accepted() + buf@.subrange(
                0,
                final(self).accepted().len() - old(self).accepted().len(),
            ),
            result is Ok <==> final(self).accepted() == old(self).accepted() + buf@,
            result matches Err(error) ==> final(self).outcomes().len() > old(self).outcomes().len()
                && ends_with(final(self).outcomes().last(), error),
            buf.len() > 0 ==> final(self).presented().len() > old(self).presented().len()
                && final(self).presented()[old(self).presented().len() as int] == buf@,
            buf.len() == 0 ==> result is Ok && final(self).presented() == old(self).presented()
                && final(self).outcomes() == old(self).outcomes(),
    {
        let mut done: usize = 0;
        while done < buf.len()
            invariant
                self.inv(),
                done <= buf.len(),
                self.flushed() == old(self).flushed(),
                old(self).presented().is_prefix_of(self.presented()),
                old(self).outcomes().is_prefix_of(self.outcomes()),
                self.presented().len() - old(self).presented().len() == self.outcomes().len()
                    - old(self).outcomes().len(),
                forall|i: int|
                    old(self).presented().len() <= i < self.presented().len() ==> is_rest_of(
                        #[trigger] self.presented()[i],
                        buf@,
                    ),
                self.accepted() == old(self).accepted() + buf@.subrange(0, done as int),
                done > 0 ==> self.presented().len() > old(self).presented().len()
                    && self.presented()[old(self).presented().len() as int] == buf@,
                done == 0 ==> self.presented() == old(self).presented()
                    && self.outcomes() == old(self).outcomes(),
            decreases buf.len() - done,
        {
            let rest = slice_subrange(buf, done, buf.len());
            let ghost before = self.accepted();
            assert(is_rest_of(rest@, buf@));
            match self.write(rest) {
                Ok(n) => {
                    assert(before + rest@.subrange(0, n as int) =~= old(self).accepted()
                        + buf@.subrange(0, done + n));
                    if n == 0 {
                        assert(rest@ =~= buf@ || done > 0);
                        return Err(SinkError::WriteZero);
                    }
                    assert(done == 0 ==> rest@ =~= buf@);
                    done += n;
                },
                Err(error) => {
                    assert(done == 0 ==> rest@ =~= buf@);
                    return Err(error);
                },
            }
        }
        assert(buf@.subrange(0, done as int) =~= buf@);
        Ok(())
    }
}

/// A stage of a write pipeline: a sink that can say which of the bytes it
/// took have not reached the device yet, and to which source they belong.
///
/// A stage that buffers nothing has no zone to keep: the methods that mark
/// zones do nothing unless a stage replaces them.
pub trait RecoverableWrite<P: Clone + PartialEq>: ByteSink {
    /// The zones that the stage reports: those of which it, or a stage below
    /// it, holds bytes that have not reached the device. A stage that buffers
    /// nothing reports none.
    open spec fn reported(&self) -> Seq<ZoneView<P>> {
        Seq::empty()
    }

    /// Marks the start of a zone: the bytes that follow belong to `ident`.
    fn begin_data_zone(&mut self, ident: P)
        requires
            old(self).inv(),
        ensures
            final(self).inv(),
            final(self).presented() == old(self).presented(),
            final(self).outcomes() == old(self).outcomes(),
            final(self).accepted() == old(self).accepted(),
            final(self).flushed() == old(self).flushed(),
    {
    }

    /// Marks the start of a zone for a source of which `committed` bytes are
    /// safe on an earlier volume.
    fn resume_data_zone(&mut self, ident: P, committed: u64)
        requires
            old(self).inv(),
        ensures
            final(self).inv(),
            final(self).presented() == old(self).presented(),
            final(self).outcomes() == old(self).outcomes(),
            final(self).accepted() == old(self).accepted(),
            final(self).flushed() == old(self).flushed(),
    {
    }

    /// Marks the end of the current zone. The bytes that follow belong to no
    /// source.
    fn end_data_zone(&mut self)
        requires
            old(self).inv(),
        ensures
            final(self).inv(),
            final(self).presented() == old(self).presented(),
            final(self).outcomes() == old(self).outcomes(),
            final(self).accepted() == old(self).accepted(),
            final(self).flushed() == old(self).flushed(),
    {
    }

    /// The zones of which this stage, or a stage below it, holds bytes that
    /// have not reached the device. Each zone has counts that agree; where
    /// identities are lawful, the zones are those that the stage reports, up
    /// to the equality of identities.
    fn uncommitted_writes(&self) -> (zones: Vec<DataZone<P>>)
        requires
            self.inv(),
        ensures
            all_balanced(zone_views(zones@)),
            lawful_identity::<P>() ==> all_match(zone_views(zones@), self.reported()),
    ;
}

/// A sink that keeps in memory whatever it is given, and never fails.
pub struct MemorySink {
    data: Vec<u8>,
    held: Ghost<Seq<u8>>,
    calls: Ghost<Seq<Seq<u8>>>,
    answers: Ghost<Seq<Result<usize, SinkError>>>,
    flushes: Ghost<Seq<bool>>,
}

impl MemorySink {
    /// The bytes that the sink was made with.
    pub closed spec fn held(&self) -> Seq<u8> {
        self.held@
    }

    /// A sink that holds `data` already and appends to it.
    pub fn new(data: Vec<u8>) -> (sink: MemorySink)
        ensures
            sink.inv(),
            sink.held() == data@,
            sink.accepted() == data@,
            sink.presented() == Seq::<Seq<u8>>::empty(),
            sink.outcomes() == Seq::<Result<usize, SinkError>>::empty(),
            sink.flushed() == Seq::<bool>::empty(),
    {
        let ghost held = data@;
        assert(held + Seq::<Seq<u8>>::empty().flatten() =~= held);
        MemorySink {
            data,
            held: Ghost(held),
            calls: Ghost(Seq::empty()),
            answers: Ghost(Seq::empty()),
            flushes: Ghost(Seq::empty()),
        }
    }

    /// The bytes that the sink holds.
    pub fn get_ref(&self) -> (data: &Vec<u8>)
        ensures
            data@ == self.accepted(),
    {
        &self.data
    }

    /// Gives up the sink for the bytes that it holds.
    pub fn into_inner(self) -> (data: Vec<u8>)
        ensures
            data@ == self.accepted(),
    {
        self.data
    }

    /// A sink in memory took every slice that it was offered, as a whole,
    /// and every flush of it succeeded: it holds what it was made with and
    /// then the slices, one after the other.
    pub proof fn lemma_takes_everything(&self)
        requires
            self.inv(),
        ensures
            self.outcomes().len() == self.presented().len(),
            forall|i: int|
                0 <= i < self.presented().len() ==> #[trigger] self.outcomes()[i] == Ok::<
                    usize,
                    SinkError,
                >(self.presented()[i].len() as usize),
            forall|i: int| 0 <= i < self.flushed().len() ==> #[trigger] self.flushed()[i],
            self.accepted() == self.held() + self.presented().flatten(),
    {
    }
}

impl ByteSink for MemorySink {
    closed spec fn inv(&self) -> bool {
        &&& self.answers@.len() == self.calls@.len()
        &&& forall|i: int|
            0 <= i < self.calls@.len() ==> #[trigger] self.answers@[i] == Ok::<usize, SinkError>(
                self.calls@[i].len() as usize,
            )
        &&& forall|i: int| 0 <= i < self.flushes@.len() ==> #[trigger] self.flushes@[i]
        &&& self.data@ == self.held@ + self.calls@.flatten()
    }

    closed spec fn presented(&self) -> Seq<Seq<u8>> {
        self.calls@
    }

    closed spec fn outcomes(&self) -> Seq<Result<usize, SinkError>> {
        self.answers@
    }

    closed spec fn accepted(&self) -> Seq<u8> {
        self.data@
    }

    closed spec fn flushed(&self) -> Seq<bool> {
        self.flushes@
    }

    /// Takes all of `buf`.
    fn write(&mut self, buf: &[u8]) -> (result: Result<usize, SinkError>)
        ensures
            result == Ok::<usize, SinkError>(buf.len()),
            final(self).held() == old(self).held(),
    {
        append_bytes(&mut self.data, buf);
        proof {
            old(self).calls@.lemma_flatten_push(buf@);
            self.calls@ = self.calls@.push(buf@);
            self.answers@ = self.answers@.push(Ok(buf.len()));
            assert(buf@.subrange(0, buf.len() as int) =~= buf@);
            assert(self.data@ =~= self.held@ + self.calls@.flatten());
        }
        Ok(buf.len())
    }

    /// Has nothing to pass on, and succeeds.
    fn flush(&mut self) -> (result: Result<(), SinkError>)
        ensures
            result is Ok,
            final(self).held() == old(self).held(),
    {
        proof {
            self.flushes@ = self.flushes@.push(true);
        }
        Ok(())
    }
}

impl<P: Clone + PartialEq> RecoverableWrite<P> for MemorySink {
    /// A sink in memory holds nothing back.
    fn uncommitted_writes(&self) -> (zones: Vec<DataZone<P>>)
        ensures
            zone_views::<P>(zones@).len() == 0,
    {
        Vec::new()
    }
}

/// Makes a stage of a sink that holds nothing back: it has no zone to
/// report, whatever passes through it.
pub struct UnbufferedWriter<W: ByteSink> {
    inner: W,
}

impl<W: ByteSink> UnbufferedWriter<W> {
    /// The sink under this stage.
    pub closed spec fn inner(&self) -> W {
        self.inner
    }

    pub fn wrap(inner: W) -> (writer: UnbufferedWriter<W>)
        ensures
            writer.inner() == inner,
    {
        UnbufferedWriter { inner }
    }

    pub fn as_inner_writer(&self) -> (inner: &W)
        ensures
            *inner == self.inner(),
    {
        &self.inner
    }
}

impl<W: ByteSink> ByteSink for UnbufferedWriter<W> {
    open spec fn inv(&self) -> bool {
        self.inner().inv()
    }

    open spec fn presented(&self) -> Seq<Seq<u8>> {
        self.inner().presented()
    }

    open spec fn outcomes(&self) -> Seq<Result<usize, SinkError>> {
        self.inner().outcomes()
    }

    open spec fn accepted(&self) -> Seq<u8> {
        self.inner().accepted()
    }

    open spec fn flushed(&self) -> Seq<bool> {
        self.inner().flushed()
    }

    /// Hands `buf` to the inner sink, and hands on how that write ended.
    fn write(&mut self, buf: &[u8]) -> (result: Result<usize, SinkError>) {
        self.inner.write(buf)
    }

    /// Flushes the inner sink, once, and hands on how that ended: the
    /// stage has nothing of its own to pass on.
    fn flush(&mut self) -> (result: Result<(), SinkError>)
        ensures
            final(self).inner().flushed() == old(self).inner().flushed().push(result is Ok),
            final(self).inner().presented() == old(self).inner().presented(),
            final(self).inner().accepted() == old(self).inner().accepted(),
    {
        self.inner.flush()
    }
}

impl<W: ByteSink, P: Clone + PartialEq> RecoverableWrite<P> for UnbufferedWriter<W> {
    /// The stage holds nothing back.
    fn uncommitted_writes(&self) -> (zones: Vec<DataZone<P>>)
        ensures
            zone_views::<P>(zones@).len() == 0,
    {
        Vec::new()
    }
}

/// A sink that takes a limited number of bytes.
///
/// A write that is longer than what is left of the limit is refused as a
/// whole: no byte of it is taken, even where some would fit. Every other
/// write goes to the inner sink and is charged in full, whatever the inner
/// sink takes of it.
pub struct LimitingWriter<W: ByteSink> {
    inner: W,
    remain: u64,
    calls: Ghost<Seq<Seq<u8>>>,
    answers: Ghost<Seq<Result<usize, SinkError>>>,
}

impl<W: ByteSink> LimitingWriter<W> {
    /// The sink under this one.
    pub closed spec fn inner(&self) -> W {
        self.inner
    }

    /// The number of bytes that may still be offered.
    pub closed spec fn remaining(&self) -> nat {
        self.remain as nat
    }

    pub fn wrap(inner: W, limit: u64) -> (writer: LimitingWriter<W>)
        ensures
            writer.inner() == inner,
            writer.remaining() == limit,
            writer.presented() == Seq::<Seq<u8>>::empty(),
            writer.outcomes() == Seq::<Result<usize, SinkError>>::empty(),
    {
        LimitingWriter {
            inner,
            remain: limit,
            calls: Ghost(Seq::empty()),
            answers: Ghost(Seq::empty()),
        }
    }

    pub fn as_inner_writer(&self) -> (inner: &W)
        ensures
            *inner == self.inner(),
    {
        &self.inner
    }
}

impl<W: ByteSink> ByteSink for LimitingWriter<W> {
    open spec fn inv(&self) -> bool {
        self.inner().inv()
    }

    closed spec fn presented(&self) -> Seq<Seq<u8>> {
        self.calls@
    }

    closed spec fn outcomes(&self) -> Seq<Result<usize, SinkError>> {
        self.answers@
    }

    open spec fn accepted(&self) -> Seq<u8> {
        self.inner().accepted()
    }

    open spec fn flushed(&self) -> Seq<bool> {
        self.inner().flushed()
    }

    /// Refuses a slice that is longer than what is left of the limit: takes
    /// nothing of it, and the inner sink does not see it. Any other slice is
    /// charged in full and goes to the inner sink as it is, and how that
    /// write ended is how this one ends.
    fn write(&mut self, buf: &[u8]) -> (result: Result<usize, SinkError>)
        ensures
            buf.len() > old(self).remaining() ==> {
                &&& result == Ok::<usize, SinkError>(0)
                &&& final(self).inner() == old(self).inner()
                &&& final(self).remaining() == old(self).remaining()
            },
            buf.len() <= old(self).remaining() ==> {
                &&& final(self).remaining() == old(self).remaining() - buf.len()
                &&& final(self).inner().presented() == old(self).inner().presented().push(buf@)
                &&& final(self).inner().outcomes() == old(self).inner().outcomes().push(result)
            },
    {
        if buf.len() as u64 > self.remain {
            proof {
                self.calls@ = self.calls@.push(buf@);
                self.answers@ = self.answers@.push(Ok(0));
            }
            assert(buf@.subrange(0, 0) =~= Seq::<u8>::empty());
            assert(self.inner.accepted() + Seq::<u8>::empty() =~= self.inner.accepted());
            return Ok(0);
        }
        self.remain -= buf.len() as u64;
        let result = self.inner.write(buf);
        proof {
            self.calls@ = self.calls@.push(buf@);
            self.answers@ = self.answers@.push(result);
        }
        result
    }

    /// Flushes the inner sink, once, and hands on how that ended. A flush
    /// is charged nothing: the limit stays as it was.
    fn flush(&mut self) -> (result: Result<(), SinkError>)
        ensures
            final(self).remaining() == old(self).remaining(),
            final(self).inner().flushed() == old(self).inner().flushed().push(result is Ok),
            final(self).inner().presented() == old(self).inner().presented(),
            final(self).inner().accepted() == old(self).inner().accepted(),
    {
        self.inner.flush()
    }
}

} // verus!
