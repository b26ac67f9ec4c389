//! Devices that write and read whole records, and the rules that do not
//! depend on the system that drives them.

use crate::bytes::copy_range;
use crate::spanning::sink::{ByteSink, SinkError};
use vstd::prelude::*;

verus! {

/// Where to go on a tape, counted in blocks or marks.
#[derive(Copy, Clone, Debug, PartialEq, Eq)]
pub enum TapeSeek {
    /// So many from the start.
    Start(u64),
    /// So many on from here, or back.
    Current(i64),
    /// So many from the end.
    End(i64),
}

/// A device that writes each write as a record of its own, and can be moved
/// along the marks on its medium.
pub trait TapeDevice: ByteSink {
    /// Reads the next record, or what is left of the record that the last
    /// read began, and puts it in place of what `buf` held.
    fn read_block(&mut self, buf: &mut Vec<u8>) -> (result: Result<(), SinkError>)
        requires
            old(self).inv(),
        ensures
            final(self).inv(),
    ;

    /// Writes a filemark, and waits for it to be on the medium if
    /// `blocking` is set.
    fn write_filemark(&mut self, blocking: bool) -> (result: Result<(), SinkError>)
        requires
            old(self).inv(),
        ensures
            final(self).inv(),
    ;

    fn seek_blocks(&mut self, pos: TapeSeek) -> (result: Result<(), SinkError>)
        requires
            old(self).inv(),
        ensures
            final(self).inv(),
    ;

    fn tell_blocks(&mut self) -> (result: Result<u64, SinkError>)
        requires
            old(self).inv(),
        ensures
            final(self).inv(),
    ;

    fn seek_filemarks(&mut self, pos: TapeSeek) -> (result: Result<(), SinkError>)
        requires
            old(self).inv(),
        ensures
            final(self).inv(),
    ;

    fn seek_setmarks(&mut self, pos: TapeSeek) -> (result: Result<(), SinkError>)
        requires
            old(self).inv(),
        ensures
            final(self).inv(),
    ;

    /// Goes to the partition with the number `id`, counted from 1. The
    /// number 0 means to stay.
    fn seek_partition(&mut self, id: u32) -> (result: Result<(), SinkError>)
        requires
            old(self).inv(),
        ensures
            final(self).inv(),
    ;
}

/// What a tape is moved by.
#[derive(Copy, Clone, Debug, PartialEq, Eq)]
pub enum TapeUnit {
    Block,
    Filemark,
    Setmark,
}

/// One movement that a tape drive can make.
#[derive(Copy, Clone, Debug, PartialEq, Eq)]
pub enum TapeOp {
    /// Go to the block with the given number.
    SeekBlock,
    /// Go to the start of the medium.
    Rewind,
    /// Go to the end of what is recorded.
    EndOfData,
    ForwardBlocks,
    BackwardBlocks,
    ForwardFilemarks,
    BackwardFilemarks,
    ForwardSetmarks,
    BackwardSetmarks,
}

/// A movement, and the count that the drive is given with it.
#[derive(Copy, Clone, Debug, PartialEq, Eq)]
pub struct TapeStep {
    pub op: TapeOp,
    pub count: i32,
}

/// The movement forward by a unit.
pub open spec fn forward_op(unit: TapeUnit) -> TapeOp {
    match unit {
        TapeUnit::Block => TapeOp::ForwardBlocks,
        TapeUnit::Filemark => TapeOp::ForwardFilemarks,
        TapeUnit::Setmark => TapeOp::ForwardSetmarks,
    }
}

/// The movement backward by a unit.
pub open spec fn backward_op(unit: TapeUnit) -> TapeOp {
    match unit {
        TapeUnit::Block => TapeOp::BackwardBlocks,
        TapeUnit::Filemark => TapeOp::BackwardFilemarks,
        TapeUnit::Setmark => TapeOp::BackwardSetmarks,
    }
}

/// The movements that bring a tape to `pos`, counted in `unit`.
///
/// From the start a block is sought by its number, and a mark by a rewind
/// and a movement forward. From here the tape moves forward for a count
/// above zero and else backward. From the end it goes to the end of the data
/// and then backward. The drive is given the number of `pos` as its count,
/// cut to 32 bits.
pub open spec fn seek_steps(unit: TapeUnit, pos: TapeSeek) -> Seq<TapeStep> {
    match pos {
        TapeSeek::Start(count) => match unit {
            TapeUnit::Block => seq![TapeStep { op: TapeOp::SeekBlock, count: count as i32 }],
            _ => seq![
                TapeStep { op: TapeOp::Rewind, count: 1i32 },
                TapeStep { op: forward_op(unit), count: count as i32 },
            ],
        },
        TapeSeek::Current(count) => seq![
            TapeStep {
                op: if count > 0 {
                    forward_op(unit)
                } else {
                    backward_op(unit)
                },
                count: count as i32,
            },
        ],
        TapeSeek::End(count) => seq![
            TapeStep { op: TapeOp::EndOfData, count: count as i32 },
            TapeStep { op: backward_op(unit), count: count as i32 },
        ],
    }
}

/// The movements that bring a tape to `pos`, counted in `unit`.
pub fn seek_plan(unit: TapeUnit, pos: TapeSeek) -> (plan: Vec<TapeStep>)
    ensures
        plan@ == seek_steps(unit, pos),
{
    let forward = match unit {
        TapeUnit::Block => TapeOp::ForwardBlocks,
        TapeUnit::Filemark => TapeOp::ForwardFilemarks,
        TapeUnit::Setmark => TapeOp::ForwardSetmarks,
    };
    let backward = match unit {
        TapeUnit::Block => TapeOp::BackwardBlocks,
        TapeUnit::Filemark => TapeOp::BackwardFilemarks,
        TapeUnit::Setmark => TapeOp::BackwardSetmarks,
    };
    let mut plan: Vec<TapeStep> = Vec::new();
    match pos {
        TapeSeek::Start(count) => {
            let cut: i32 = #[verifier::truncate]
            (count as i32);
            match unit {
                TapeUnit::Block => {
                    plan.push(TapeStep { op: TapeOp::SeekBlock, count: cut });
                },
                _ => {
                    plan.push(TapeStep { op: TapeOp::Rewind, count: 1 });
                    plan.push(TapeStep { op: forward, count: cut });
                },
            }
        },
        TapeSeek::Current(count) => {
            let cut: i32 = #[verifier::truncate]
            (count as i32);
            plan.push(
                TapeStep {
                    op: if count > 0 {
                        forward
                    } else {
                        backward
                    },
                    count: cut,
                },
            );
        },
        TapeSeek::End(count) => {
            let cut: i32 = #[verifier::truncate]
            (count as i32);
            plan.push(TapeStep { op: TapeOp::EndOfData, count: cut });
            plan.push(TapeStep { op: backward, count: cut });
        },
    }
    assert(plan@ =~= seek_steps(unit, pos));
    plan
}

/// What was last done with a tape.
#[derive(Copy, Clone, Debug, PartialEq, Eq)]
pub enum TapeCommand {
    Write,
    WriteFilemark,
    Read,
    NoneOfTheAbove,
}

/// What is left to do with a tape before it is let go.
#[derive(Copy, Clone, Debug, PartialEq, Eq)]
pub enum CloseAction {
    /// Write a filemark and wait for it.
    WriteFilemark,
    /// Move by so many filemarks from here.
    SeekFilemarks(i64),
}

/// What to do when a tape is let go after `last_command`.
///
/// After a write the data is closed with two filemarks, and the tape moved
/// back over the second, so that what is written next takes its place. After
/// a filemark one more is written and stepped back over. After a read that
/// did not come upon the end of the file the tape is moved on past the next
/// filemark. Else nothing is to do.
pub fn close_plan(last_command: TapeCommand, eof_condition: bool) -> (plan: Vec<CloseAction>)
    ensures
        plan@ == match last_command {
            TapeCommand::Write => seq![
                CloseAction::WriteFilemark,
                CloseAction::WriteFilemark,
                CloseAction::SeekFilemarks(-1i64),
            ],
            TapeCommand::WriteFilemark => seq![
                CloseAction::WriteFilemark,
                CloseAction::SeekFilemarks(-1i64),
            ],
            TapeCommand::Read => if eof_condition {
                Seq::<CloseAction>::empty()
            } else {
                seq![CloseAction::SeekFilemarks(1i64)]
            },
            TapeCommand::NoneOfTheAbove => Seq::<CloseAction>::empty(),
        },
{
    let mut plan: Vec<CloseAction> = Vec::new();
    match last_command {
        TapeCommand::Write => {
            plan.push(CloseAction::WriteFilemark);
            plan.push(CloseAction::WriteFilemark);
            plan.push(CloseAction::SeekFilemarks(-1i64));
            assert(plan@ =~= seq![
                CloseAction::WriteFilemark,
                CloseAction::WriteFilemark,
                CloseAction::SeekFilemarks(-1i64),
            ]);
        },
        TapeCommand::WriteFilemark => {
            plan.push(CloseAction::WriteFilemark);
            plan.push(CloseAction::SeekFilemarks(-1i64));
            assert(plan@ =~= seq![CloseAction::WriteFilemark, CloseAction::SeekFilemarks(-1i64)]);
        },
        TapeCommand::Read => {
            if !eof_condition {
                plan.push(CloseAction::SeekFilemarks(1i64));
                assert(plan@ =~= seq![CloseAction::SeekFilemarks(1i64)]);
            }
        },
        TapeCommand::NoneOfTheAbove => {},
    }
    plan
}

/// What a tape drive reports in place of doing what it was asked.
#[derive(Copy, Clone, Debug, PartialEq, Eq)]
pub enum TapeCondition {
    /// The medium is full.
    EndOfMedia,
    /// A filemark was in the way.
    FilemarkDetected,
    /// A setmark was in the way.
    SetmarkDetected,
    /// Nothing is recorded from here on.
    NoDataDetected,
    /// The record is larger than the buffer that it was to be read into.
    MoreData,
    /// The medium was changed.
    MediaChanged,
    /// Anything else.
    Other,
}

/// What to make of a condition.
#[derive(Copy, Clone, Debug, PartialEq, Eq)]
pub enum TapeOutcome {
    /// A write that took no byte: the medium is full.
    ShortWrite,
    /// The operation is done as far as it can be.
    Finished,
    /// The end of the file is reached: reads give nothing from now on.
    EndOfFile,
    /// Read the record again, one block back and with a larger buffer.
    RetryLarger,
    /// An error.
    Failure,
}

/// What a write makes of a condition: a full medium is a write that took
/// nothing, and anything else an error.
pub fn write_outcome(condition: TapeCondition) -> (outcome: TapeOutcome)
    ensures
        outcome == if condition == TapeCondition::EndOfMedia {
            TapeOutcome::ShortWrite
        } else {
            TapeOutcome::Failure
        },
{
    match condition {
        TapeCondition::EndOfMedia => TapeOutcome::ShortWrite,
        _ => TapeOutcome::Failure,
    }
}

/// What a seek makes of a condition: a mark, the end of the data and a
/// changed medium end the seek, and are no error.
pub fn seek_outcome(condition: TapeCondition) -> (outcome: TapeOutcome)
    ensures
        outcome == match condition {
            TapeCondition::FilemarkDetected => TapeOutcome::Finished,
            TapeCondition::SetmarkDetected => TapeOutcome::Finished,
            TapeCondition::NoDataDetected => TapeOutcome::Finished,
            TapeCondition::MediaChanged => TapeOutcome::Finished,
            _ => TapeOutcome::Failure,
        },
{
    match condition {
        TapeCondition::FilemarkDetected => TapeOutcome::Finished,
        TapeCondition::SetmarkDetected => TapeOutcome::Finished,
        TapeCondition::NoDataDetected => TapeOutcome::Finished,
        TapeCondition::MediaChanged => TapeOutcome::Finished,
        _ => TapeOutcome::Failure,
    }
}

/// What a read makes of a condition: a mark and the end of the data are the
/// end of the file, and a record that did not fit is read again.
pub fn read_outcome(condition: TapeCondition) -> (outcome: TapeOutcome)
    ensures
        outcome == match condition {
            TapeCondition::FilemarkDetected => TapeOutcome::EndOfFile,
            TapeCondition::SetmarkDetected => TapeOutcome::EndOfFile,
            TapeCondition::NoDataDetected => TapeOutcome::EndOfFile,
            TapeCondition::MoreData => TapeOutcome::RetryLarger,
            TapeCondition::MediaChanged => TapeOutcome::RetryLarger,
            _ => TapeOutcome::Failure,
        },
{
    match condition {
        TapeCondition::FilemarkDetected => TapeOutcome::EndOfFile,
        TapeCondition::SetmarkDetected => TapeOutcome::EndOfFile,
        TapeCondition::NoDataDetected => TapeOutcome::EndOfFile,
        TapeCondition::MoreData => TapeOutcome::RetryLarger,
        TapeCondition::MediaChanged => TapeOutcome::RetryLarger,
        _ => TapeOutcome::Failure,
    }
}

/// The record that a tape was last read, and how much of it was handed out.
///
/// A drive hands over a record at a time, whatever the reader has room for.
/// What does not fit waits here, and is handed out before the next record is
/// read.
pub struct SpillBuffer {
    block: Vec<u8>,
    read_pos: usize,
}

impl SpillBuffer {
    /// The bytes of the record that are still to hand out.
    pub closed spec fn pending(&self) -> Seq<u8> {
        self.block@.subrange(self.read_pos as int, self.block@.len() as int)
    }

    pub closed spec fn wf(&self) -> bool {
        self.read_pos <= self.block@.len()
    }

    /// A buffer that holds nothing.
    pub fn new() -> (buffer: SpillBuffer)
        ensures
            buffer.wf(),
            buffer.pending() == Seq::<u8>::empty(),
    {
        let buffer = SpillBuffer { block: Vec::new(), read_pos: 0 };
        assert(buffer.pending() =~= Seq::<u8>::empty());
        buffer
    }

    /// Whether the next read has to begin with a record from the drive:
    /// nothing is left of the one before.
    pub fn needs_record(&self) -> (needed: bool)
        requires
            self.wf(),
        ensures
            needed == (self.pending().len() == 0),
    {
        self.read_pos == self.block.len()
    }

    /// Takes in the record that the drive handed over, in place of what was
    /// left of the one before.
    pub fn load(&mut self, record: Vec<u8>)
        ensures
            final(self).wf(),
            final(self).pending() == record@,
    {
        self.block = record;
        self.read_pos = 0;
        assert(self.block@.subrange(0, self.block@.len() as int) =~= record@);
    }

    /// Hands out the next bytes of the record, `space` of them at most: the
    /// start of what was pending. The rest stays pending.
    pub fn take(&mut self, space: usize) -> (bytes: Vec<u8>)
        requires
            old(self).wf(),
        ensures
            final(self).wf(),
            bytes@.len() == if old(self).pending().len() <= space {
                old(self).pending().len()
            } else {
                space as nat
            },
            bytes@ == old(self).pending().subrange(0, bytes@.len() as int),
            final(self).pending() == old(self).pending().subrange(
                bytes@.len() as int,
                old(self).pending().len() as int,
            ),
    {
        let left: usize = self.block.len() - self.read_pos;
        let count: usize = if left <= space {
            left
        } else {
            space
        };
        let bytes = copy_range(self.block.as_slice(), self.read_pos, self.read_pos + count);
        self.read_pos = self.read_pos + count;
        assert(bytes@ =~= old(self).pending().subrange(0, bytes@.len() as int));
        assert(self.pending() =~= old(self).pending().subrange(
            bytes@.len() as int,
            old(self).pending().len() as int,
        ));
        bytes
    }

    /// Hands out all that is pending of the record.
    pub fn read_block(&mut self) -> (bytes: Vec<u8>)
        requires
            old(self).wf(),
        ensures
            final(self).wf(),
            final(self).pending() == Seq::<u8>::empty(),
            bytes@ == old(self).pending(),
    {
        let bytes = copy_range(self.block.as_slice(), self.read_pos, self.block.len());
        self.block = Vec::new();
        self.read_pos = 0;
        assert(self.pending() =~= Seq::<u8>::empty());
        bytes
    }
}

/// Reading a record in two steps hands out the bytes that reading it in one
/// step would: no byte is left out between the pieces, and none comes twice.
pub proof fn lemma_pieces_make_the_record(record: Seq<u8>, first: int, second: int)
    requires
        0 <= first <= first + second <= record.len(),
    ensures
        record.subrange(0, first) + record.subrange(first, record.len() as int).subrange(
            0,
            second,
        ) == record.subrange(0, first + second),
{
    assert(record.subrange(0, first) + record.subrange(first, record.len() as int).subrange(
        0,
        second,
    ) =~= record.subrange(0, first + second));
}

} // verus!
