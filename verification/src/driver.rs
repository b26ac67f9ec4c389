//! The course of one run of the archiver: what it does next, whatever
//! happens to it.

use vstd::prelude::*;
use vstd::string::StringSliceAdditionalSpecFns;

verus! {

/// Where a run stands.
#[derive(Copy, Clone, Debug, PartialEq, Eq)]
pub enum DriverState {
    /// Entries are written into the archive as they arrive.
    Serialize,
    /// A volume ran full: what it did not take is to go to the next one.
    Recover,
    /// The archive is closed.
    Finish,
    /// The operator gave up. The archive stays without its end.
    Cancelled,
    /// The run failed.
    Aborted,
}

/// What happened to a run.
#[derive(Copy, Clone, Debug, PartialEq, Eq)]
pub enum DriverEvent {
    /// No entry is left to write.
    EntriesDone,
    /// A write took nothing: the volume is full.
    ShortWrite,
    /// An entry failed in some other way.
    EntryFailed,
    /// All that the full volume did not take is on the new volume.
    Recovered,
    /// The new volume ran full in turn.
    RecoveryTorn,
    /// The recovery failed with an error.
    RecoveryFailed,
    /// The operator gave up at the prompt.
    OperatorCancelled,
}

/// What the archiver does next.
#[derive(Copy, Clone, Debug, PartialEq, Eq)]
pub enum DriverAction {
    /// Write the entries that arrive.
    WriteEntries,
    /// Write the end of the archive, two blocks of zero bytes, and flush.
    CloseArchive,
    /// Ask the operator for a new volume, open it, and write there what the
    /// full volume did not take.
    ExchangeVolume,
    /// Say which entry failed, and go on with the next.
    SkipEntry,
    /// Say which entry did not fit, and stop.
    ReportFull,
    /// Stop.
    Stop,
}

/// The state that follows, and what to do in it.
///
/// While entries are written, the end of the entries closes the archive, and
/// an entry that fails is skipped. A full volume leads to recovery where the
/// archive may span volumes, and ends the run with an error where it may
/// not. Recovery goes back to writing once all is recovered, and starts over
/// on yet another volume when the new one ran full as well. The operator can
/// give up at the prompt: then the run ends without the end of the archive.
/// A run that has ended stays as it is.
pub open spec fn next_step(state: DriverState, event: DriverEvent, spanning: bool) -> (
    DriverState,
    DriverAction,
) {
    match (state, event) {
        (DriverState::Serialize, DriverEvent::EntriesDone) => (
            DriverState::Finish,
            DriverAction::CloseArchive,
        ),
        (DriverState::Serialize, DriverEvent::ShortWrite) => if spanning {
            (DriverState::Recover, DriverAction::ExchangeVolume)
        } else {
            (DriverState::Aborted, DriverAction::ReportFull)
        },
        (DriverState::Serialize, DriverEvent::EntryFailed) => (
            DriverState::Serialize,
            DriverAction::SkipEntry,
        ),
        (DriverState::Serialize, _) => (DriverState::Serialize, DriverAction::WriteEntries),
        (DriverState::Recover, DriverEvent::Recovered) => (
            DriverState::Serialize,
            DriverAction::WriteEntries,
        ),
        (DriverState::Recover, DriverEvent::RecoveryTorn) => (
            DriverState::Recover,
            DriverAction::ExchangeVolume,
        ),
        (DriverState::Recover, DriverEvent::ShortWrite) => (
            DriverState::Recover,
            DriverAction::ExchangeVolume,
        ),
        (DriverState::Recover, DriverEvent::OperatorCancelled) => (
            DriverState::Cancelled,
            DriverAction::Stop,
        ),
        (DriverState::Recover, _) => (DriverState::Aborted, DriverAction::Stop),
        (DriverState::Finish, _) => (DriverState::Finish, DriverAction::Stop),
        (DriverState::Cancelled, _) => (DriverState::Cancelled, DriverAction::Stop),
        (DriverState::Aborted, _) => (DriverState::Aborted, DriverAction::Stop),
    }
}

/// The state that follows `state` when `event` happens, and what to do in
/// it. `spanning` tells whether the archive may go on on another volume.
pub fn step(state: DriverState, event: DriverEvent, spanning: bool) -> (next: (
    DriverState,
    DriverAction,
))
    ensures
        next == next_step(state, event, spanning),
{
    match (state, event) {
        (DriverState::Serialize, DriverEvent::EntriesDone) => (
            DriverState::Finish,
            DriverAction::CloseArchive,
        ),
        (DriverState::Serialize, DriverEvent::ShortWrite) => {
            if spanning {
                (DriverState::Recover, DriverAction::ExchangeVolume)
            } else {
                (DriverState::Aborted, DriverAction::ReportFull)
            }
        },
        (DriverState::Serialize, DriverEvent::EntryFailed) => (
            DriverState::Serialize,
            DriverAction::SkipEntry,
        ),
        (DriverState::Serialize, _) => (DriverState::Serialize, DriverAction::WriteEntries),
        (DriverState::Recover, DriverEvent::Recovered) => (
            DriverState::Serialize,
            DriverAction::WriteEntries,
        ),
        (DriverState::Recover, DriverEvent::RecoveryTorn) => (
            DriverState::Recover,
            DriverAction::ExchangeVolume,
        ),
        (DriverState::Recover, DriverEvent::ShortWrite) => (
            DriverState::Recover,
            DriverAction::ExchangeVolume,
        ),
        (DriverState::Recover, DriverEvent::OperatorCancelled) => (
            DriverState::Cancelled,
            DriverAction::Stop,
        ),
        (DriverState::Recover, _) => (DriverState::Aborted, DriverAction::Stop),
        (DriverState::Finish, _) => (DriverState::Finish, DriverAction::Stop),
        (DriverState::Cancelled, _) => (DriverState::Cancelled, DriverAction::Stop),
        (DriverState::Aborted, _) => (DriverState::Aborted, DriverAction::Stop),
    }
}

/// The end of an archive is written only by a run that wrote all of its
/// entries: the archive is closed in no state but the one that follows the end
/// of the entries, and never once the operator gave up.
pub proof fn lemma_closes_only_when_done(state: DriverState, event: DriverEvent, spanning: bool)
    ensures
        next_step(state, event, spanning).1 == DriverAction::CloseArchive <==> state
            == DriverState::Serialize && event == DriverEvent::EntriesDone,
        state == DriverState::Cancelled ==> next_step(state, event, spanning)
            == (DriverState::Cancelled, DriverAction::Stop),
{
}

/// A full volume never ends a run that may span volumes, and always ends one
/// that may not.
pub proof fn lemma_short_write_recovers(state: DriverState, spanning: bool)
    requires
        state == DriverState::Serialize || state == DriverState::Recover,
    ensures
        spanning ==> next_step(state, DriverEvent::ShortWrite, spanning) == (
            DriverState::Recover,
            DriverAction::ExchangeVolume,
        ),
        !spanning && state == DriverState::Serialize ==> next_step(
            state,
            DriverEvent::ShortWrite,
            spanning,
        ) == (DriverState::Aborted, DriverAction::ReportFull),
{
}

/// What the operator answered when asked for a new volume.
#[derive(Clone, Debug, PartialEq, Eq)]
pub enum PromptAnswer {
    /// `?`: say what can be answered.
    Help,
    /// `q`: give up.
    Cancel,
    /// `y`: open the same path again as the next volume.
    Reopen,
    /// `n` and a path: go on at that path. The path is given in bytes.
    NewFile(Vec<u8>),
    /// Anything else.
    Invalid,
}

/// `line` without the line break at its end, if it has one: a line feed, or
/// a carriage return and a line feed.
pub open spec fn without_line_break(line: Seq<u8>) -> Seq<u8> {
    if line.len() >= 2 && line[line.len() - 2] == 13 && line.last() == 10 {
        line.subrange(0, line.len() - 2)
    } else if line.len() >= 1 && line.last() == 10 {
        line.drop_last()
    } else {
        line
    }
}

/// What a line means that the operator typed.
pub open spec fn answer_of(line: Seq<u8>) -> PromptAnswerView {
    let text = without_line_break(line);
    if text == seq![63u8] {
        PromptAnswerView::Help
    } else if text == seq![113u8] {
        PromptAnswerView::Cancel
    } else if text == seq![121u8] {
        PromptAnswerView::Reopen
    } else if text.len() > 2 && text[0] == 110 && text[1] == 32 {
        PromptAnswerView::NewFile(text.subrange(2, text.len() as int))
    } else {
        PromptAnswerView::Invalid
    }
}

/// The mathematical content of a [`PromptAnswer`].
pub ghost enum PromptAnswerView {
    Help,
    Cancel,
    Reopen,
    NewFile(Seq<u8>),
    Invalid,
}

impl View for PromptAnswer {
    type V = PromptAnswerView;

    open spec fn view(&self) -> PromptAnswerView {
        match self {
            PromptAnswer::Help => PromptAnswerView::Help,
            PromptAnswer::Cancel => PromptAnswerView::Cancel,
            PromptAnswer::Reopen => PromptAnswerView::Reopen,
            PromptAnswer::NewFile(path) => PromptAnswerView::NewFile(path@),
            PromptAnswer::Invalid => PromptAnswerView::Invalid,
        }
    }
}

/// Reads the answer of the operator from the line that was typed: `?`, `q`,
/// `y`, or `n`, a space and the path of the next volume.
pub fn parse_answer(line: &str) -> (answer: PromptAnswer)
    ensures
        answer@ == answer_of(line.spec_bytes()),
{
    let bytes = line.as_bytes();
    let n: usize = bytes.len();
    let end: usize = if n >= 2 && bytes[n - 2] == 13 && bytes[n - 1] == 10 {
        n - 2
    } else if n >= 1 && bytes[n - 1] == 10 {
        n - 1
    } else {
        n
    };
    let ghost text = without_line_break(bytes@);
    assert(text =~= bytes@.subrange(0, end as int));
    if end == 1 && bytes[0] == 63 {
        assert(text =~= seq![63u8]);
        PromptAnswer::Help
    } else if end == 1 && bytes[0] == 113 {
        assert(text =~= seq![113u8]);
        PromptAnswer::Cancel
    } else if end == 1 && bytes[0] == 121 {
        assert(text =~= seq![121u8]);
        PromptAnswer::Reopen
    } else if end > 2 && bytes[0] == 110 && bytes[1] == 32 {
        assert(text[0] == 110 && text[1] == 32);
        let path = crate::bytes::copy_range(bytes, 2, end);
        assert(path@ =~= text.subrange(2, text.len() as int));
        assert(text != seq![63u8] && text != seq![113u8] && text != seq![121u8]);
        PromptAnswer::NewFile(path)
    } else {
        assert(text != seq![63u8]) by {
            if text == seq![63u8] {
                assert(text.len() == 1 && text[0] == 63);
            }
        }
        assert(text != seq![113u8]) by {
            if text == seq![113u8] {
                assert(text.len() == 1 && text[0] == 113);
            }
        }
        assert(text != seq![121u8]) by {
            if text == seq![121u8] {
                assert(text.len() == 1 && text[0] == 121);
            }
        }
        PromptAnswer::Invalid
    }
}

} // verus!
