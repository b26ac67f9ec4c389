//! Copying a source of bytes into a sink, as far as both go along.

use crate::bytes::copy_range;
use crate::result::PartialResult;
use crate::spanning::sink::{ends_with, ByteSink, SinkError};
use vstd::prelude::*;

verus! {

/// The length of the pieces in which bytes are copied where the caller
/// names none: ten records of 512 bytes.
pub const DEFAULT_BUF_SIZE: usize = 5120;

/// How a read ended: with the number of bytes that were handed out, or with
/// the error.
pub open spec fn read_outcome(result: Result<Vec<u8>, SinkError>) -> Result<nat, SinkError> {
    match result {
        Ok(bytes) => Ok(bytes@.len()),
        Err(error) => Err(error),
    }
}

/// The last of `reads` found the source at its end: it asked for bytes and
/// was handed none.
pub open spec fn ended(reads: Seq<(nat, Result<nat, SinkError>)>) -> bool {
    reads.len() > 0 && reads.last().0 > 0 && reads.last().1 == Ok::<nat, SinkError>(0)
}

/// Something that bytes can be read from.
///
/// A source is described by two histories: the bytes that it handed out, and
/// its reads, each with the number of bytes that was asked for and with how
/// it ended. A source that this crate defines says what its histories are.
/// For any other source they are what its calls make of them.
pub trait ByteSource {
    /// What the source needs to hold between calls.
    open spec fn inv(&self) -> bool {
        true
    }

    /// The bytes that the source handed out, in order.
    open spec fn delivered(&self) -> Seq<u8> {
        arbitrary()
    }

    /// Every read of the source, oldest first: how many bytes it asked for
    /// at most, and how it ended.
    open spec fn reads(&self) -> Seq<(nat, Result<nat, SinkError>)> {
        arbitrary()
    }

    /// Hands out the next bytes of the source, `max` of them at most. A
    /// source that hands out nothing where `max` is not zero is at its end.
    fn read(&mut self, max: usize) -> (result: Result<Vec<u8>, SinkError>)
        requires
            old(self).inv(),
        ensures
            final(self).inv(),
            final(self).reads() == old(self).reads().push((max as nat, read_outcome(result))),
            match result {
                Ok(bytes) => bytes@.len() <= max && final(self).delivered() == old(self).delivered()
                    + bytes@,
                Err(_) => final(self).delivered() == old(self).delivered(),
            },
    ;
}

/// A source that hands out the bytes that it holds in memory.
pub struct MemorySource {
    data: Vec<u8>,
    position: usize,
    log: Ghost<Seq<(nat, Result<nat, SinkError>)>>,
}

impl MemorySource {
    /// All the bytes of the source: those that it handed out and those that
    /// it has still to hand out.
    pub closed spec fn whole(&self) -> Seq<u8> {
        self.data@
    }

    /// The bytes that the source has still to hand out.
    pub closed spec fn remaining(&self) -> Seq<u8> {
        self.data@.subrange(self.position as int, self.data@.len() as int)
    }

    /// A source that hands out `data`.
    pub fn new(data: Vec<u8>) -> (source: MemorySource)
        ensures
            source.inv(),
            source.whole() == data@,
            source.delivered() == Seq::<u8>::empty(),
            source.remaining() == data@,
            source.reads() == Seq::<(nat, Result<nat, SinkError>)>::empty(),
    {
        let source = MemorySource { data, position: 0, log: Ghost(Seq::empty()) };
        assert(source.data@.subrange(0, 0) =~= Seq::<u8>::empty());
        assert(source.data@.subrange(0, source.data@.len() as int) =~= source.data@);
        source
    }

    /// A source in memory never fails, hands out its bytes in their order,
    /// and is at its end only where it has handed out all of them.
    pub proof fn lemma_hands_out_its_bytes(&self)
        requires
            self.inv(),
        ensures
            self.whole() == self.delivered() + self.remaining(),
            forall|i: int| 0 <= i < self.reads().len() ==> (#[trigger] self.reads()[i]).1 is Ok,
            ended(self.reads()) ==> self.delivered() == self.whole(),
    {
        assert(self.data@ =~= self.delivered() + self.remaining());
        if ended(self.reads()) {
            assert(self.delivered() =~= self.data@);
        }
    }
}

impl ByteSource for MemorySource {
    closed spec fn inv(&self) -> bool {
        &&& self.position <= self.data@.len()
        &&& forall|i: int| 0 <= i < self.log@.len() ==> (#[trigger] self.log@[i]).1 is Ok
        &&& ended(self.log@) ==> self.position == self.data@.len()
    }

    closed spec fn delivered(&self) -> Seq<u8> {
        self.data@.subrange(0, self.position as int)
    }

    closed spec fn reads(&self) -> Seq<(nat, Result<nat, SinkError>)> {
        self.log@
    }

    /// Hands out as many bytes as are left, up to `max`, and never fails.
    fn read(&mut self, max: usize) -> (result: Result<Vec<u8>, SinkError>)
        ensures
            final(self).whole() == old(self).whole(),
            result matches Ok(bytes) && bytes@.len() == if old(self).remaining().len() <= max {
                old(self).remaining().len()
            } else {
                max as nat
            },
            result matches Ok(bytes) && bytes@ == old(self).remaining().subrange(
                0,
                bytes@.len() as int,
            ),
    {
        let left: usize = self.data.len() - self.position;
        let count: usize = if left <= max {
            left
        } else {
            max
        };
        let bytes = copy_range(self.data.as_slice(), self.position, self.position + count);
        self.position = self.position + count;
        proof {
            self.log@ = self.log@.push((max as nat, Ok(count as nat)));
        }
        assert(self.delivered() =~= old(self).delivered() + bytes@);
        assert(bytes@ =~= old(self).remaining().subrange(0, bytes@.len() as int));
        Ok(bytes)
    }
}

/// The length of the pieces in which `stream` copies: `buffer_len`, or
/// `DEFAULT_BUF_SIZE` where none is given.
pub open spec fn piece_length(buffer_len: Option<usize>) -> nat {
    match buffer_len {
        Some(length) => length as nat,
        None => DEFAULT_BUF_SIZE as nat,
    }
}

/// `slice` holds a byte at least and `size` bytes at most, and stands in
/// `whole` at some place from `from` on.
pub open spec fn is_piece_of(slice: Seq<u8>, whole: Seq<u8>, from: int, size: nat) -> bool {
    &&& 0 < slice.len() <= size
    &&& exists|at: int|
        from <= at && at + slice.len() <= whole.len() && slice == #[trigger] whole.subrange(
            at,
            at + slice.len(),
        )
}

proof fn lemma_piece_stays(slice: Seq<u8>, whole: Seq<u8>, longer: Seq<u8>, from: int, size: nat)
    requires
        0 <= from,
        is_piece_of(slice, whole, from, size),
        whole.is_prefix_of(longer),
    ensures
        is_piece_of(slice, longer, from, size),
{
    let at = choose|at: int|
        from <= at && at + slice.len() <= whole.len() && slice == #[trigger] whole.subrange(
            at,
            at + slice.len(),
        );
    assert(longer.subrange(at, at + slice.len()) =~= whole.subrange(at, at + slice.len()));
}

/// Copies the bytes of the source `r` into the sink `w`, piece by piece,
/// until the source is at its end.
///
/// Every read asks for a piece of `buffer_len` bytes, or of
/// `DEFAULT_BUF_SIZE`. What a read hands out is offered to the sink, and what
/// the sink does not take of it is offered again, until all of it is taken;
/// only then the next piece is read. With pieces of no bytes nothing is read
/// or written, and the copy is complete at once.
///
/// The copy may succeed in part: whatever ends it, the result tells how many
/// bytes the sink took, and the sink took them in the order in which the
/// source handed them out, none twice and none left out between them. The
/// result is `Complete` exactly where the last read found the source at its
/// end. Else it is `Partial`: with the error of the read that failed; with
/// the error of the write that failed; with `WriteZero` where the sink took
/// nothing of what it was offered, or where the count has reached the end of
/// 64 bits. The sink is not flushed.
///
/// A sink that needs writes of one fixed size has to sit behind a stage that
/// makes them.
pub fn stream<R: ByteSource, W: ByteSink>(r: &mut R, w: &mut W, buffer_len: Option<usize>) -> (result:
    PartialResult<u64, SinkError>)
    requires
        old(r).inv(),
        old(w).inv(),
    ensures
        final(r).inv(),
        final(w).inv(),
        old(r).delivered().is_prefix_of(final(r).delivered()),
        old(r).reads().is_prefix_of(final(r).reads()),
        forall|i: int|
            old(r).reads().len() <= i < final(r).reads().len() ==> (#[trigger] final(r).reads()[i]).0
                == piece_length(buffer_len),
        final(w).flushed() == old(w).flushed(),
        old(w).presented().is_prefix_of(final(w).presented()),
        old(w).outcomes().is_prefix_of(final(w).outcomes()),
        final(w).presented().len() - old(w).presented().len() == final(w).outcomes().len()
            - old(w).outcomes().len(),
        forall|i: int|
            old(w).presented().len() <= i < final(w).presented().len() ==> is_piece_of(
                #[trigger] final(w).presented()[i],
                final(r).delivered(),
                old(r).delivered().len() as int,
                piece_length(buffer_len),
            ),
        result.value() matches Some(written) && {
            let start = old(r).delivered().len() as int;
            &&& start + written <= final(r).delivered().len()
            &&& final(w).accepted() == old(w).accepted() + final(r).delivered().subrange(
                start,
                start + written,
            )
        },
        piece_length(buffer_len) == 0 ==> {
            &&& result == PartialResult::<u64, SinkError>::Complete(0)
            &&& final(r).delivered() == old(r).delivered()
            &&& final(r).reads() == old(r).reads()
            &&& final(w).presented() == old(w).presented()
            &&& final(w).outcomes() == old(w).outcomes()
            &&& final(w).accepted() == old(w).accepted()
        },
        piece_length(buffer_len) > 0 ==> final(r).reads().len() > old(r).reads().len()
            && match result {
            PartialResult::Complete(written) => {
                &&& ended(final(r).reads())
                &&& old(r).delivered().len() + written == final(r).delivered().len()
            },
            PartialResult::Partial(written, error) => {
                &&& !ended(final(r).reads())
                &&& {
                    ||| final(r).reads().last().1 == Err::<nat, SinkError>(error)
                    ||| final(r).reads().last().1 is Ok
                        && final(w).outcomes().len() > old(w).outcomes().len()
                        && ends_with(final(w).outcomes().last(), error)
                    ||| final(r).reads().last().1 is Ok && written == u64::MAX && error
                        == SinkError::WriteZero
                }
            },
            PartialResult::Failure(_) => false,
        },
{
    let size: usize = match buffer_len {
        Some(length) => length,
        None => DEFAULT_BUF_SIZE,
    };
    let ghost start = r.delivered().len() as int;
    if size == 0 {
        assert(w.accepted() + r.delivered().subrange(start, start) =~= w.accepted());
        return PartialResult::Complete(0);
    }
    let mut written: u64 = 0;
    let ghost sunk = w.accepted();
    assert(sunk + r.delivered().subrange(start, start) =~= sunk);
    loop
        invariant
            size > 0,
            size == piece_length(buffer_len),
            r.inv(),
            w.inv(),
            start == old(r).delivered().len(),
            sunk == old(w).accepted(),
            old(r).delivered().is_prefix_of(r.delivered()),
            old(r).reads().is_prefix_of(r.reads()),
            forall|i: int|
                old(r).reads().len() <= i < r.reads().len() ==> (#[trigger] r.reads()[i]).0 == size,
            w.flushed() == old(w).flushed(),
            old(w).presented().is_prefix_of(w.presented()),
            old(w).outcomes().is_prefix_of(w.outcomes()),
            w.presented().len() - old(w).presented().len() == w.outcomes().len()
                - old(w).outcomes().len(),
            forall|i: int|
                old(w).presented().len() <= i < w.presented().len() ==> is_piece_of(
                    #[trigger] w.presented()[i],
                    r.delivered(),
                    start,
                    size as nat,
                ),
            start + written == r.delivered().len(),
            w.accepted() == sunk + r.delivered().subrange(start, start + written),
        decreases u64::MAX - written,
    {
        let ghost read_before = r.delivered();
        let piece = match r.read(size) {
            Ok(piece) => piece,
            Err(error) => {
                return PartialResult::Partial(written, error);
            },
        };
        assert(read_before.is_prefix_of(r.delivered()));
        assert(r.delivered().subrange(start, start + written) =~= read_before.subrange(
            start,
            start + written,
        ));
        assert forall|i: int| old(w).presented().len() <= i < w.presented().len() implies is_piece_of(
            #[trigger] w.presented()[i],
            r.delivered(),
            start,
            size as nat,
        ) by {
            lemma_piece_stays(w.presented()[i], read_before, r.delivered(), start, size as nat);
        }
        if piece.len() == 0 {
            return PartialResult::Complete(written);
        }
        let mut done: usize = 0;
        while done < piece.len()
            invariant
                done <= piece.len(),
                0 < piece@.len() <= size,
                size == piece_length(buffer_len),
                w.inv(),
                r.inv(),
                start == old(r).delivered().len(),
                sunk == old(w).accepted(),
                r.delivered() == read_before + piece@,
                start <= read_before.len(),
                old(r).delivered().is_prefix_of(r.delivered()),
                old(r).reads().is_prefix_of(r.reads()),
                r.reads().len() > old(r).reads().len(),
                r.reads().last() == (size as nat, Ok::<nat, SinkError>(piece@.len())),
                forall|i: int|
                    old(r).reads().len() <= i < r.reads().len() ==> (#[trigger] r.reads()[i]).0
                        == size,
                w.flushed() == old(w).flushed(),
                old(w).presented().is_prefix_of(w.presented()),
                old(w).outcomes().is_prefix_of(w.outcomes()),
                w.presented().len() - old(w).presented().len() == w.outcomes().len()
                    - old(w).outcomes().len(),
                forall|i: int|
                    old(w).presented().len() <= i < w.presented().len() ==> is_piece_of(
                        #[trigger] w.presented()[i],
                        r.delivered(),
                        start,
                        size as nat,
                    ),
                start + written == read_before.len() + done,
                w.accepted() == sunk + r.delivered().subrange(start, start + written),
            decreases piece.len() - done,
        {
            let room: u64 = u64::MAX - written;
            if room == 0 {
                return PartialResult::Partial(written, SinkError::WriteZero);
            }
            let end: usize = if (piece.len() - done) as u64 > room {
                done + room as usize
            } else {
                piece.len()
            };
            let rest = vstd::slice::slice_subrange(piece.as_slice(), done, end);
            let ghost taken_before = w.accepted();
            let ghost offered_before = w.presented();
            proof {
                let at = read_before.len() + done;
                assert(rest@ =~= r.delivered().subrange(at, at + rest@.len()));
                assert(is_piece_of(rest@, r.delivered(), start, size as nat));
            }
            match w.write(rest) {
                Ok(count) => {
                    if count == 0 {
                        assert(rest@.subrange(0, 0) =~= Seq::<u8>::empty());
                        assert(taken_before + Seq::<u8>::empty() =~= taken_before);
                        return PartialResult::Partial(written, SinkError::WriteZero);
                    }
                    assert(taken_before + rest@.subrange(0, count as int) =~= sunk
                        + r.delivered().subrange(start, start + written + count));
                    written = written + count as u64;
                    done = done + count;
                },
                Err(error) => {
                    return PartialResult::Partial(written, error);
                },
            }
        }
    }
}

} // verus!
