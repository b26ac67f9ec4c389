//! The buffer that lets the archiver run ahead of a slow device: what the
//! worker at the device does with each command, and what the archiver keeps
//! in its books of the bytes that are on their way.

use crate::spanning::sink::{ends_with, ByteSink, RecoverableWrite, SinkError};
use crate::spanning::stream::{all_balanced, zone_views, DataZoneStream, StreamView};
use crate::spanning::zone::DataZone;
use vstd::prelude::*;
use vstd::slice::slice_to_vec;
use vstd::std_specs::cmp::PartialEqSpec;

verus! {

/// What the archiver asks of the worker at the device.
pub enum ConcurrentCommand<I> {
    /// Read so many bytes. A worker at a sink cannot.
    DoRead(u64),
    /// Write all of these bytes, as one write.
    DoWriteAll(Vec<u8>),
    DoFlush,
    DoBeginDataZone(I),
    DoResumeDataZone(I, u64),
    DoEndDataZone,
    /// Stop.
    Terminate,
}

/// What the worker answers.
pub enum ConcurrentResponse {
    DidRead(Result<Vec<u8>, SinkError>),
    /// How many bytes were written, or why not all of them were.
    DidWriteAll(Result<usize, SinkError>),
    DidFlush(Result<(), SinkError>),
    DidBeginDataZone,
    DidResumeDataZone,
    DidEndDataZone,
    Terminated,
}

/// No write went to the sink: nothing more was offered to it, and it took
/// nothing more.
pub open spec fn unwritten<T: ByteSink>(before: &T, after: &T) -> bool {
    &&& after.presented() == before.presented()
    &&& after.outcomes() == before.outcomes()
    &&& after.accepted() == before.accepted()
}

/// The sink is as it was: no write went to it, and no flush.
pub open spec fn untouched<T: ByteSink>(before: &T, after: &T) -> bool {
    unwritten(before, after) && after.flushed() == before.flushed()
}

/// Carries out one command on the sink `inner` and says what came of it.
///
/// The bytes of a write are offered to the sink as they are, in one piece,
/// and again only as far as the sink did not take them: writes are never
/// joined, so that a sink that makes a record of each write makes the
/// records that the archiver asked for. The answer to a write tells the
/// number of bytes of the command where all were taken, and else the error
/// that ended the writes. A flush goes to the sink, once, and the answer
/// tells how it ended. The marks of zones go to the sink. A command to read
/// is refused, and the command to stop is answered with `Terminated`.
pub fn command_task_write<T: RecoverableWrite<P>, P: Clone + PartialEq>(
    inner: &mut T,
    cmd: ConcurrentCommand<P>,
) -> (response: ConcurrentResponse)
    requires
        old(inner).inv(),
    ensures
        final(inner).inv(),
        match cmd {
            ConcurrentCommand::DoRead(_) => {
                &&& response matches ConcurrentResponse::DidRead(Err(_))
                &&& untouched(old(inner), final(inner))
            },
            ConcurrentCommand::DoWriteAll(data) => {
                &&& response matches ConcurrentResponse::DidWriteAll(outcome) && match outcome {
                    Ok(count) => count == data@.len() && final(inner).accepted()
                        == old(inner).accepted() + data@,
                    Err(error) => {
                        &&& old(inner).accepted().is_prefix_of(final(inner).accepted())
                        &&& final(inner).accepted().len() < old(inner).accepted().len()
                            + data@.len()
                        &&& final(inner).outcomes().len() > old(inner).outcomes().len()
                        &&& ends_with(final(inner).outcomes().last(), error)
                    },
                }
                &&& final(inner).flushed() == old(inner).flushed()
                &&& old(inner).presented().is_prefix_of(final(inner).presented())
                &&& old(inner).outcomes().is_prefix_of(final(inner).outcomes())
                &&& data@.len() > 0 ==> {
                    let first = old(inner).presented().len() as int;
                    final(inner).presented().len() > first && final(inner).presented()[first]
                        == data@
                }
                &&& data@.len() == 0 ==> final(inner).presented() == old(inner).presented()
            },
            ConcurrentCommand::DoFlush => {
                &&& response matches ConcurrentResponse::DidFlush(outcome)
                    && final(inner).flushed() == old(inner).flushed().push(outcome is Ok)
                &&& unwritten(old(inner), final(inner))
            },
            ConcurrentCommand::DoBeginDataZone(_) => {
                &&& response is DidBeginDataZone
                &&& untouched(old(inner), final(inner))
            },
            ConcurrentCommand::DoResumeDataZone(_, _) => {
                &&& response is DidResumeDataZone
                &&& untouched(old(inner), final(inner))
            },
            ConcurrentCommand::DoEndDataZone => {
                &&& response is DidEndDataZone
                &&& untouched(old(inner), final(inner))
            },
            ConcurrentCommand::Terminate => {
                &&& response is Terminated
                &&& untouched(old(inner), final(inner))
            },
        },
{
    match cmd {
        ConcurrentCommand::DoRead(_) => ConcurrentResponse::DidRead(
            Err(SinkError::WorkerTerminated),
        ),
        ConcurrentCommand::DoWriteAll(data) => {
            match inner.write_all(data.as_slice()) {
                Ok(()) => ConcurrentResponse::DidWriteAll(Ok(data.len())),
                Err(error) => {
                    proof {
                        let taken = inner.accepted().len() - old(inner).accepted().len();
                        if taken == data@.len() {
                            assert(data@.subrange(0, taken) =~= data@);
                        }
                    }
                    ConcurrentResponse::DidWriteAll(Err(error))
                },
            }
        },
        ConcurrentCommand::DoFlush => ConcurrentResponse::DidFlush(inner.flush()),
        ConcurrentCommand::DoBeginDataZone(ident) => {
            inner.begin_data_zone(ident);
            ConcurrentResponse::DidBeginDataZone
        },
        ConcurrentCommand::DoResumeDataZone(ident, commit) => {
            inner.resume_data_zone(ident, commit);
            ConcurrentResponse::DidResumeDataZone
        },
        ConcurrentCommand::DoEndDataZone => {
            inner.end_data_zone();
            ConcurrentResponse::DidEndDataZone
        },
        ConcurrentCommand::Terminate => ConcurrentResponse::Terminated,
    }
}

/// What the archiver does next while it waits for the worker.
pub enum DrainStep {
    /// Wait for the next answer.
    Wait,
    /// What was waited for has come.
    Done,
    /// The worker reported an error, or is gone.
    Failed(SinkError),
}

/// The books of the archiver's side of the buffer: how many bytes are on
/// their way to the device, how many may be, and to which zones they
/// belong.
///
/// The archiver sends each write to the worker as a command of its own and
/// does not wait for the answer; it waits only when the bytes on their way
/// and those of the next write together would pass the limit.
pub struct ConcurrentWriteBuffer<P> {
    buffered_size: u64,
    buffered_limit: u64,
    datazone_stream: DataZoneStream<P>,
}

impl<P: Clone + PartialEq> ConcurrentWriteBuffer<P> {
    /// The number of bytes that are on their way to the device.
    pub closed spec fn buffered(&self) -> nat {
        self.buffered_size as nat
    }

    /// The number of bytes that may be on their way at once.
    pub closed spec fn limit(&self) -> nat {
        self.buffered_limit as nat
    }

    /// The zones of this stage.
    pub closed spec fn ledger(&self) -> StreamView<P> {
        self.datazone_stream@
    }

    /// The books are in order.
    pub open spec fn wf(&self) -> bool {
        P::obeys_eq_spec() && self.ledger().balanced()
    }

    /// A write of `needed` bytes has to wait: with it more bytes would be on
    /// their way than the limit allows. A write that is larger than the
    /// limit never waits, since no waiting would make room for it.
    pub open spec fn must_wait(&self, needed: nat) -> bool {
        needed <= self.limit() && self.buffered() + needed > self.limit()
    }

    /// Books for a buffer that lets `limit` bytes be on their way.
    pub fn new(limit: u64) -> (buffer: ConcurrentWriteBuffer<P>)
        requires
            P::obeys_eq_spec(),
        ensures
            buffer.wf(),
            buffer.buffered() == 0,
            buffer.limit() == limit,
            buffer.ledger() == StreamView::<P>::empty(),
    {
        ConcurrentWriteBuffer {
            buffered_size: 0,
            buffered_limit: limit,
            datazone_stream: DataZoneStream::new(),
        }
    }

    /// The number of bytes that are on their way to the device.
    pub fn buffered_size(&self) -> (size: u64)
        ensures
            size == self.buffered(),
    {
        self.buffered_size
    }

    /// The number of bytes that may be on their way at once.
    pub fn buffered_limit(&self) -> (limit: u64)
        ensures
            limit == self.limit(),
    {
        self.buffered_limit
    }

    /// How many more bytes the current zone can count.
    pub fn zone_room(&self) -> (room: u64)
        requires
            self.wf(),
        ensures
            room == self.ledger().room(),
            forall|n: nat| n <= room ==> self.ledger().has_room(n),
    {
        let room = self.datazone_stream.room();
        assert forall|n: nat| n <= room implies self.ledger().has_room(n) by {
            assert(self.datazone_stream.has_room(n));
        }
        room
    }

    /// Counts `committed_size` bytes that reached the device.
    pub fn mark_data_committed(&mut self, committed_size: u64)
        requires
            old(self).wf(),
            committed_size <= old(self).buffered(),
        ensures
            final(self).wf(),
            final(self).limit() == old(self).limit(),
            final(self).buffered() == old(self).buffered() - committed_size,
            final(self).ledger() == old(self).ledger().commit(committed_size as nat),
    {
        self.datazone_stream.write_committed(committed_size);
        self.buffered_size = self.buffered_size - committed_size;
    }

    /// Counts `buffered_size` bytes that were sent on their way.
    pub fn mark_data_buffered(&mut self, buffered_size: u64)
        requires
            old(self).wf(),
            old(self).buffered() + buffered_size <= u64::MAX,
            old(self).ledger().has_room(buffered_size as nat),
        ensures
            final(self).wf(),
            final(self).limit() == old(self).limit(),
            final(self).buffered() == old(self).buffered() + buffered_size,
            final(self).ledger() == old(self).ledger().buffered(buffered_size as nat),
    {
        self.datazone_stream.write_buffered(buffered_size);
        self.buffered_size = self.buffered_size + buffered_size;
    }

    /// Counts the bytes of `buf` as sent on their way, and gives the command
    /// that has the worker write them: the bytes as they are, in one piece.
    pub fn write_command(&mut self, buf: &[u8]) -> (cmd: ConcurrentCommand<P>)
        requires
            old(self).wf(),
            old(self).buffered() + buf.len() <= u64::MAX,
            old(self).ledger().has_room(buf@.len()),
        ensures
            final(self).wf(),
            final(self).limit() == old(self).limit(),
            final(self).buffered() == old(self).buffered() + buf.len(),
            final(self).ledger() == old(self).ledger().buffered(buf@.len()),
            cmd matches ConcurrentCommand::DoWriteAll(data) && data@ == buf@,
    {
        self.mark_data_buffered(buf.len() as u64);
        ConcurrentCommand::DoWriteAll(slice_to_vec(buf))
    }

    /// Whether a write of `needed_space` bytes has to wait for answers.
    pub fn needs_space(&self, needed_space: u64) -> (wait: bool)
        ensures
            wait == self.must_wait(needed_space as nat),
    {
        needed_space <= self.buffered_limit && self.buffered_size as u128 + needed_space as u128
            > self.buffered_limit as u128
    }

    /// Takes in one answer of the worker while a write of `needed_space`
    /// bytes waits for room; `None` stands for a worker that is gone.
    ///
    /// A write that was done is counted as committed. An error that the
    /// worker reports fails the wait, and so does a worker that is gone. Else
    /// the wait is over as soon as there is room.
    pub fn drain_buf_until_space(
        &mut self,
        needed_space: u64,
        response: Option<ConcurrentResponse>,
    ) -> (step: DrainStep)
        requires
            old(self).wf(),
            response matches Some(ConcurrentResponse::DidWriteAll(Ok(size)))
                ==> size <= old(self).buffered(),
        ensures
            final(self).wf(),
            final(self).limit() == old(self).limit(),
            match response {
                Some(ConcurrentResponse::DidWriteAll(Ok(size))) => {
                    &&& final(self).buffered() == old(self).buffered() - size
                    &&& final(self).ledger() == old(self).ledger().commit(size as nat)
                    &&& step is Wait == final(self).must_wait(needed_space as nat)
                    &&& step is Done == !final(self).must_wait(needed_space as nat)
                },
                Some(ConcurrentResponse::DidWriteAll(Err(error))) => {
                    &&& step == DrainStep::Failed(error)
                    &&& final(self).buffered() == old(self).buffered()
                    &&& final(self).ledger() == old(self).ledger()
                },
                Some(ConcurrentResponse::DidRead(Err(error))) => {
                    &&& step == DrainStep::Failed(error)
                    &&& final(self).buffered() == old(self).buffered()
                    &&& final(self).ledger() == old(self).ledger()
                },
                Some(ConcurrentResponse::DidFlush(Err(error))) => {
                    &&& step == DrainStep::Failed(error)
                    &&& final(self).buffered() == old(self).buffered()
                    &&& final(self).ledger() == old(self).ledger()
                },
                None => {
                    &&& step == DrainStep::Failed(SinkError::WorkerTerminated)
                    &&& final(self).buffered() == old(self).buffered()
                    &&& final(self).ledger() == old(self).ledger()
                },
                _ => {
                    &&& final(self).buffered() == old(self).buffered()
                    &&& final(self).ledger() == old(self).ledger()
                    &&& step is Wait == old(self).must_wait(needed_space as nat)
                    &&& step is Done == !old(self).must_wait(needed_space as nat)
                },
            },
    {
        match response {
            Some(ConcurrentResponse::DidWriteAll(Ok(size))) => {
                self.mark_data_committed(size as u64);
            },
            Some(ConcurrentResponse::DidWriteAll(Err(error))) => {
                return DrainStep::Failed(error);
            },
            Some(ConcurrentResponse::DidRead(Err(error))) => {
                return DrainStep::Failed(error);
            },
            Some(ConcurrentResponse::DidFlush(Err(error))) => {
                return DrainStep::Failed(error);
            },
            None => {
                return DrainStep::Failed(SinkError::WorkerTerminated);
            },
            _ => {},
        }
        if self.needs_space(needed_space) {
            DrainStep::Wait
        } else {
            DrainStep::Done
        }
    }

    /// Takes in one answer of the worker while the archiver waits for a
    /// flush that it asked for; `None` stands for a worker that is gone.
    ///
    /// A write that was done is counted as committed. The wait is over when
    /// the flush is answered, and fails with any error that the worker
    /// reports and with a worker that is gone.
    pub fn drain_buf_until_flush(&mut self, response: Option<ConcurrentResponse>) -> (step:
        DrainStep)
        requires
            old(self).wf(),
            response matches Some(ConcurrentResponse::DidWriteAll(Ok(size)))
                ==> size <= old(self).buffered(),
        ensures
            final(self).wf(),
            final(self).limit() == old(self).limit(),
            match response {
                Some(ConcurrentResponse::DidWriteAll(Ok(size))) => {
                    &&& step is Wait
                    &&& final(self).buffered() == old(self).buffered() - size
                    &&& final(self).ledger() == old(self).ledger().commit(size as nat)
                },
                Some(ConcurrentResponse::DidWriteAll(Err(error))) => step == DrainStep::Failed(
                    error,
                ),
                Some(ConcurrentResponse::DidRead(Err(error))) => step == DrainStep::Failed(error),
                Some(ConcurrentResponse::DidFlush(Ok(()))) => step is Done,
                Some(ConcurrentResponse::DidFlush(Err(error))) => step == DrainStep::Failed(error),
                None => step == DrainStep::Failed(SinkError::WorkerTerminated),
                _ => step is Wait,
            },
            !(response matches Some(ConcurrentResponse::DidWriteAll(Ok(_)))) ==> {
                &&& final(self).buffered() == old(self).buffered()
                &&& final(self).ledger() == old(self).ledger()
            },
    {
        match response {
            Some(ConcurrentResponse::DidWriteAll(Ok(size))) => {
                self.mark_data_committed(size as u64);
                DrainStep::Wait
            },
            Some(ConcurrentResponse::DidWriteAll(Err(error))) => DrainStep::Failed(error),
            Some(ConcurrentResponse::DidRead(Err(error))) => DrainStep::Failed(error),
            Some(ConcurrentResponse::DidFlush(Ok(()))) => DrainStep::Done,
            Some(ConcurrentResponse::DidFlush(Err(error))) => DrainStep::Failed(error),
            None => DrainStep::Failed(SinkError::WorkerTerminated),
            _ => DrainStep::Wait,
        }
    }

    /// Begins a zone for `ident` in the books, and gives the command that
    /// has the worker do the same at the sink.
    pub fn begin_data_zone(&mut self, ident: P) -> (cmd: ConcurrentCommand<P>)
        requires
            old(self).wf(),
        ensures
            final(self).wf(),
            final(self).limit() == old(self).limit(),
            final(self).buffered() == old(self).buffered(),
            cmd == ConcurrentCommand::DoBeginDataZone(ident),
            final(self).ledger().current matches Some(zone) && zone.ident matches Some(copy)
                && cloned(ident, copy) && final(self).ledger() == old(self).ledger().begun(copy),
    {
        self.datazone_stream.begin_data_zone(ident.clone());
        ConcurrentCommand::DoBeginDataZone(ident)
    }

    /// Begins in the books a zone for `ident`, a source of which `committed`
    /// bytes are safe, and gives the command for the worker.
    pub fn resume_data_zone(&mut self, ident: P, committed: u64) -> (cmd: ConcurrentCommand<P>)
        requires
            old(self).wf(),
        ensures
            final(self).wf(),
            final(self).limit() == old(self).limit(),
            final(self).buffered() == old(self).buffered(),
            cmd == ConcurrentCommand::DoResumeDataZone(ident, committed),
            final(self).ledger().current matches Some(zone) && zone.ident matches Some(copy)
                && cloned(ident, copy) && final(self).ledger() == old(self).ledger().resumed(
                copy,
                committed as nat,
            ),
    {
        self.datazone_stream.resume_data_zone(ident.clone(), committed);
        ConcurrentCommand::DoResumeDataZone(ident, committed)
    }

    /// Ends the current zone in the books, and gives the command for the
    /// worker.
    pub fn end_data_zone(&mut self) -> (cmd: ConcurrentCommand<P>)
        requires
            old(self).wf(),
        ensures
            final(self).wf(),
            final(self).limit() == old(self).limit(),
            final(self).buffered() == old(self).buffered(),
            cmd is DoEndDataZone,
            final(self).ledger() == old(self).ledger().ended(),
    {
        self.datazone_stream.end_data_zone();
        ConcurrentCommand::DoEndDataZone
    }

    /// The zones of this stage laid over `inner_ucw`, those that the sink
    /// under the buffer reports.
    pub fn uncommitted_writes(&self, inner_ucw: Vec<DataZone<P>>) -> (zones: Vec<DataZone<P>>)
        requires
            self.wf(),
            all_balanced(zone_views(inner_ucw@)),
        ensures
            crate::spanning::stream::all_clones_of(
                zone_views(zones@),
                self.ledger().snapshot(Some(zone_views(inner_ucw@))),
            ),
            all_balanced(zone_views(zones@)),
    {
        self.datazone_stream.uncommitted_writes(Some(inner_ucw))
    }
}

} // verus!
