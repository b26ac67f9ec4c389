//! The 512-byte record that every tar header is.

use crate::bytes::{append_bytes, pad_to, padded, zeros};
use vstd::prelude::*;

verus! {

/// Eight spaces: what the checksum field holds while the checksum is taken.
pub open spec fn blank_checksum() -> Seq<u8> {
    Seq::new(8, |i: int| 32u8)
}

/// The magic `ustar`, a zero byte, and the version `00`.
pub open spec fn magic() -> Seq<u8> {
    seq![117u8, 115, 116, 97, 114, 0, 48, 48]
}

/// The fields of a header record, each as it is written.
pub ghost struct RecordFields {
    pub name: Seq<u8>,
    pub mode: Seq<u8>,
    pub uid: Seq<u8>,
    pub gid: Seq<u8>,
    pub size: Seq<u8>,
    pub mtime: Seq<u8>,
    pub typeflag: u8,
    pub uname: Seq<u8>,
    pub gname: Seq<u8>,
    pub devmajor: Seq<u8>,
    pub devminor: Seq<u8>,
    pub prefix: Seq<u8>,
}

impl RecordFields {
    /// The record: the fields in the order of the format, with a blank
    /// checksum, an empty link name, the magic, and twelve zero bytes at the
    /// end.
    pub open spec fn record(self) -> Seq<u8> {
        self.name + self.mode + self.uid + self.gid + self.size + self.mtime + blank_checksum()
            + seq![self.typeflag] + zeros(100) + magic() + self.uname + self.gname + self.devmajor
            + self.devminor + self.prefix + zeros(12)
    }
}

/// A text field of `size` bytes: the text with zero bytes after it. A text
/// that leaves no room for a zero byte is cut to make room for one.
pub open spec fn text_field(text: Seq<u8>, size: nat) -> Seq<u8> {
    if text.len() < size {
        padded(text, size)
    } else if size == 0 {
        Seq::empty()
    } else {
        text.subrange(0, size - 1).push(0)
    }
}

/// Appends to `out` the record of the given fields.
pub fn push_record(
    out: &mut Vec<u8>,
    name: &Vec<u8>,
    mode: &Vec<u8>,
    uid: &Vec<u8>,
    gid: &Vec<u8>,
    size: &Vec<u8>,
    mtime: &Vec<u8>,
    typeflag: u8,
    uname: &Vec<u8>,
    gname: &Vec<u8>,
    devmajor: &Vec<u8>,
    devminor: &Vec<u8>,
    prefix: &Vec<u8>,
)
    ensures
        final(out)@ == old(out)@ + (RecordFields {
            name: name@,
            mode: mode@,
            uid: uid@,
            gid: gid@,
            size: size@,
            mtime: mtime@,
            typeflag,
            uname: uname@,
            gname: gname@,
            devmajor: devmajor@,
            devminor: devminor@,
            prefix: prefix@,
        }).record(),
{
    let ghost fields = RecordFields {
        name: name@,
        mode: mode@,
        uid: uid@,
        gid: gid@,
        size: size@,
        mtime: mtime@,
        typeflag,
        uname: uname@,
        gname: gname@,
        devmajor: devmajor@,
        devminor: devminor@,
        prefix: prefix@,
    };
    let ghost start = out@;
    append_bytes(out, name.as_slice());
    append_bytes(out, mode.as_slice());
    append_bytes(out, uid.as_slice());
    append_bytes(out, gid.as_slice());
    append_bytes(out, size.as_slice());
    append_bytes(out, mtime.as_slice());
    let ghost head = out@;
    let mut i: usize = 0;
    while i < 8
        invariant
            i <= 8,
            out@ == head + Seq::new(i as nat, |j: int| 32u8),
        decreases 8 - i,
    {
        out.push(32);
        i += 1;
        assert(out@ =~= head + Seq::new(i as nat, |j: int| 32u8));
    }
    out.push(typeflag);
    let ghost flagged = out@;
    let n: usize = out.len();
    if n <= usize::MAX - 100 {
        pad_to(out, n + 100);
        assert(out@ =~= flagged + zeros(100));
    } else {
        let mut k: usize = 0;
        while k < 100
            invariant
                k <= 100,
                out@ == flagged + zeros(k as nat),
            decreases 100 - k,
        {
            out.push(0);
            k += 1;
            assert(out@ =~= flagged + zeros(k as nat));
        }
    }
    out.push(117);
    out.push(115);
    out.push(116);
    out.push(97);
    out.push(114);
    out.push(0);
    out.push(48);
    out.push(48);
    assert(out@ =~= flagged + zeros(100) + magic());
    append_bytes(out, uname.as_slice());
    append_bytes(out, gname.as_slice());
    append_bytes(out, devmajor.as_slice());
    append_bytes(out, devminor.as_slice());
    append_bytes(out, prefix.as_slice());
    let ghost body = out@;
    let mut k: usize = 0;
    while k < 12
        invariant
            k <= 12,
            out@ == body + zeros(k as nat),
        decreases 12 - k,
    {
        out.push(0);
        k += 1;
        assert(out@ =~= body + zeros(k as nat));
    }
    assert(out@ =~= start + fields.record());
}

/// A text field of `size` bytes for `text`.
pub fn format_text_field(text: &[u8], size: usize) -> (field: Vec<u8>)
    ensures
        field@ == text_field(text@, size as nat),
        field@.len() == size,
{
    if text.len() < size {
        let mut field = crate::bytes::copy_range(text, 0, text.len());
        assert(field@ =~= text@);
        pad_to(&mut field, size);
        field
    } else if size == 0 {
        Vec::new()
    } else {
        let mut field = crate::bytes::copy_range(text, 0, size - 1);
        field.push(0);
        field
    }
}

} // verus!
