//! Small tools for byte strings.

use vstd::prelude::*;
use vstd::slice::{slice_subrange, slice_to_vec};

verus! {

/// `count` zero bytes.
pub open spec fn zeros(count: nat) -> Seq<u8> {
    Seq::new(count, |i: int| 0u8)
}

/// `bytes` filled up with zero bytes to a length of `size`. Bytes that are
/// `size` long or longer stay as they are.
pub open spec fn padded(bytes: Seq<u8>, size: nat) -> Seq<u8> {
    if bytes.len() >= size {
        bytes
    } else {
        bytes + zeros((size - bytes.len()) as nat)
    }
}

/// Appends `bytes` to `data`.
pub fn append_bytes(data: &mut Vec<u8>, bytes: &[u8])
    ensures
        final(data)@ == old(data)@ + bytes@,
{
    data.extend_from_slice(bytes);
    assert(data@ =~= old(data)@ + bytes@);
}

/// Fills `data` up with zero bytes to a length of `size`.
pub fn pad_to(data: &mut Vec<u8>, size: usize)
    ensures
        final(data)@ == padded(old(data)@, size as nat),
{
    while data.len() < size
        invariant
            old(data)@.len() <= data@.len(),
            data@.len() <= size || data@.len() == old(data)@.len(),
            data@ == old(data)@ + zeros((data@.len() - old(data)@.len()) as nat),
        decreases size - data.len(),
    {
        let ghost before = data@;
        data.push(0);
        assert(data@ =~= old(data)@ + zeros((before.len() + 1 - old(data)@.len()) as nat));
    }
    assert(old(data)@ + zeros(0) =~= old(data)@);
    assert(data@ =~= padded(old(data)@, size as nat));
}

/// A byte string of `count` zero bytes.
pub fn zero_bytes(count: usize) -> (data: Vec<u8>)
    ensures
        data@ == zeros(count as nat),
{
    let mut data: Vec<u8> = Vec::new();
    pad_to(&mut data, count);
    assert(data@ =~= zeros(count as nat));
    data
}

/// A copy of the bytes of `data` from place `from` up to, not including,
/// place `to`.
pub fn copy_range(data: &[u8], from: usize, to: usize) -> (part: Vec<u8>)
    requires
        from <= to <= data.len(),
    ensures
        part@ == data@.subrange(from as int, to as int),
{
    slice_to_vec(slice_subrange(data, from, to))
}

/// Whether two byte strings are the same.
pub fn bytes_equal(a: &[u8], b: &[u8]) -> (same: bool)
    ensures
        same == (a@ == b@),
{
    if a.len() != b.len() {
        return false;
    }
    let mut i: usize = 0;
    while i < a.len()
        invariant
            a.len() == b.len(),
            i <= a.len(),
            a@.subrange(0, i as int) == b@.subrange(0, i as int),
        decreases a.len() - i,
    {
        if a[i] != b[i] {
            return false;
        }
        assert(a@.subrange(0, i + 1) =~= a@.subrange(0, i as int).push(a@[i as int]));
        assert(b@.subrange(0, i + 1) =~= b@.subrange(0, i as int).push(b@[i as int]));
        i += 1;
    }
    assert(a@ =~= a@.subrange(0, i as int));
    assert(b@ =~= b@.subrange(0, i as int));
    true
}

} // verus!
