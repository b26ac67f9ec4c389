//! Paths as the archiver sees them: a list of components, and the text that
//! stands for it in an archive.

use crate::tar::header::TarFileType;
use crate::text::push_char;
use vstd::prelude::*;
use vstd::std_specs::cmp::{PartialEqSpec, PartialEqSpecImpl};
use vstd::string::StringExecFns;

verus! {

/// What a path begins with on a system that names volumes.
#[derive(Clone, Debug)]
pub enum PathPrefix {
    /// A verbatim prefix with the name that follows it.
    Verbatim(String),
    /// A verbatim prefix that names a server and a share.
    VerbatimUNC(String, String),
    /// A verbatim prefix that names a drive by its letter.
    VerbatimDisk(u8),
    /// The name of a device.
    DeviceNS(String),
    /// A server and a share.
    UNC(String, String),
    /// A drive, by its letter.
    Disk(u8),
}

/// One component of a path.
#[derive(Clone, Debug)]
pub enum PathPart {
    Prefix(PathPrefix),
    /// The root, where the path starts from it.
    RootDir,
    /// The directory itself, `.`.
    CurDir,
    /// The directory above, `..`.
    ParentDir,
    /// A name.
    Normal(String),
}

/// A drive letter as the archive spells it: an ASCII capital becomes a small
/// letter.
pub open spec fn lower_letter(letter: u8) -> char {
    if 65 <= letter <= 90 {
        (letter + 32) as char
    } else {
        letter as char
    }
}

/// The text that stands for a prefix in an archive.
pub open spec fn prefix_text(prefix: PathPrefix) -> Seq<char> {
    match prefix {
        PathPrefix::Verbatim(name) => name@,
        PathPrefix::VerbatimUNC(server, share) => server@ + seq!['/'] + share@,
        PathPrefix::VerbatimDisk(letter) => seq![lower_letter(letter)],
        PathPrefix::DeviceNS(name) => name@,
        PathPrefix::UNC(server, share) => server@ + seq!['/'] + share@,
        PathPrefix::Disk(letter) => seq![lower_letter(letter)],
    }
}

/// The text that stands for a component in an archive. The root has none.
pub open spec fn part_text(part: PathPart) -> Seq<char> {
    match part {
        PathPart::Prefix(prefix) => prefix_text(prefix),
        PathPart::RootDir => Seq::empty(),
        PathPart::CurDir => seq!['.'],
        PathPart::ParentDir => seq!['.', '.'],
        PathPart::Normal(name) => name@,
    }
}

/// The list holds a component other than the root.
pub open spec fn has_named(parts: Seq<PathPart>) -> bool
    decreases parts.len(),
{
    parts.len() > 0 && (has_named(parts.drop_last()) || !(parts.last() is RootDir))
}

/// The texts of all components but the root, with a slash between each two.
pub open spec fn joined(parts: Seq<PathPart>) -> Seq<char>
    decreases parts.len(),
{
    if parts.len() == 0 {
        Seq::empty()
    } else if parts.last() is RootDir {
        joined(parts.drop_last())
    } else if has_named(parts.drop_last()) {
        joined(parts.drop_last()) + seq!['/'] + part_text(parts.last())
    } else {
        part_text(parts.last())
    }
}

/// The name under which a path goes into an archive: its components joined
/// by slashes, without a leading root, and with a slash at the end where the
/// entry is a directory.
pub open spec fn canonical_text(parts: Seq<PathPart>, filetype: TarFileType) -> Seq<char> {
    if filetype is Directory {
        joined(parts) + seq!['/']
    } else {
        joined(parts)
    }
}

/// A path of nothing but roots has no text.
pub proof fn lemma_unnamed_is_empty(parts: Seq<PathPart>)
    requires
        !has_named(parts),
    ensures
        joined(parts) == Seq::<char>::empty(),
    decreases parts.len(),
{
    if parts.len() > 0 {
        lemma_unnamed_is_empty(parts.drop_last());
    }
}

fn push_letter(text: &mut String, letter: u8)
    ensures
        final(text)@ == old(text)@.push(lower_letter(letter)),
{
    if 65 <= letter && letter <= 90 {
        push_char(text, (letter + 32) as char);
    } else {
        push_char(text, letter as char);
    }
}

fn push_prefix(text: &mut String, prefix: &PathPrefix)
    ensures
        final(text)@ == old(text)@ + prefix_text(*prefix),
{
    match prefix {
        PathPrefix::Verbatim(name) => {
            text.append(name.as_str());
        },
        PathPrefix::VerbatimUNC(server, share) => {
            text.append(server.as_str());
            push_char(text, '/');
            text.append(share.as_str());
            assert(text@ =~= old(text)@ + prefix_text(*prefix));
        },
        PathPrefix::VerbatimDisk(letter) => {
            push_letter(text, *letter);
            assert(text@ =~= old(text)@ + prefix_text(*prefix));
        },
        PathPrefix::DeviceNS(name) => {
            text.append(name.as_str());
        },
        PathPrefix::UNC(server, share) => {
            text.append(server.as_str());
            push_char(text, '/');
            text.append(share.as_str());
            assert(text@ =~= old(text)@ + prefix_text(*prefix));
        },
        PathPrefix::Disk(letter) => {
            push_letter(text, *letter);
            assert(text@ =~= old(text)@ + prefix_text(*prefix));
        },
    }
}

fn push_part(text: &mut String, part: &PathPart)
    ensures
        final(text)@ == old(text)@ + part_text(*part),
{
    match part {
        PathPart::Prefix(prefix) => {
            push_prefix(text, prefix);
        },
        PathPart::RootDir => {
            assert(text@ =~= old(text)@ + part_text(*part));
        },
        PathPart::CurDir => {
            push_char(text, '.');
            assert(text@ =~= old(text)@ + part_text(*part));
        },
        PathPart::ParentDir => {
            push_char(text, '.');
            push_char(text, '.');
            assert(text@ =~= old(text)@ + part_text(*part));
        },
        PathPart::Normal(name) => {
            text.append(name.as_str());
        },
    }
}

/// The name under which the path `dirpath` goes into an archive.
///
/// The components are joined by slashes, whatever separates them on this
/// system. A root at the start is left out, a drive is named by its letter in
/// lower case, and a server and its share by their names. A directory gets a
/// slash at the end.
pub fn canonicalized_tar_path(dirpath: &[PathPart], filetype: TarFileType) -> (text: String)
    ensures
        text@ == canonical_text(dirpath@, filetype),
{
    let mut text = String::new();
    let mut first = true;
    let mut i: usize = 0;
    while i < dirpath.len()
        invariant
            i <= dirpath.len(),
            first == !has_named(dirpath@.subrange(0, i as int)),
            text@ == joined(dirpath@.subrange(0, i as int)),
        decreases dirpath.len() - i,
    {
        let part = &dirpath[i];
        let ghost prev = dirpath@.subrange(0, i as int);
        let ghost next = dirpath@.subrange(0, i + 1);
        proof {
            assert(next.drop_last() =~= prev);
            assert(next.last() == *part);
        }
        match part {
            PathPart::RootDir => {
                assert(joined(next) == joined(prev));
            },
            _ => {
                if !first {
                    push_char(&mut text, '/');
                } else {
                    proof {
                        lemma_unnamed_is_empty(prev);
                    }
                    first = false;
                }
                let ghost before = text@;
                push_part(&mut text, part);
                proof {
                    if has_named(prev) {
                        assert(before == joined(prev).push('/'));
                        assert(joined(prev).push('/') =~= joined(prev) + seq!['/']);
                        assert(text@ == joined(next));
                    } else {
                        assert(before =~= Seq::<char>::empty());
                        assert(text@ =~= part_text(*part));
                        assert(text@ == joined(next));
                    }
                }
            },
        }
        i += 1;
    }
    assert(dirpath@.subrange(0, i as int) =~= dirpath@);
    match filetype {
        TarFileType::Directory => {
            push_char(&mut text, '/');
        },
        _ => {},
    }
    text
}

/// Removes the last component of `parts` where that is a name.
pub open spec fn popped(parts: Seq<PathPart>) -> Seq<PathPart> {
    if parts.len() > 0 && parts.last() is Normal {
        parts.drop_last()
    } else {
        parts
    }
}

/// The components of a path once every `.` is dropped and every `..` has
/// taken away the name before it. A `..` that has no name before it is
/// dropped.
pub open spec fn normal_parts(parts: Seq<PathPart>) -> Seq<PathPart>
    decreases parts.len(),
{
    if parts.len() == 0 {
        Seq::empty()
    } else {
        let before = normal_parts(parts.drop_last());
        match parts.last() {
            PathPart::CurDir => before,
            PathPart::ParentDir => popped(before),
            _ => before.push(parts.last()),
        }
    }
}

/// `inpath` without its `.` components and with each `..` resolved against
/// the name before it, as far as there is one.
pub fn normalize(inpath: &[PathPart]) -> (outpath: Vec<PathPart>)
    ensures
        same_path(outpath@, normal_parts(inpath@)),
{
    let mut outpath: Vec<PathPart> = Vec::new();
    let ghost mut model: Seq<PathPart> = Seq::empty();
    let mut i: usize = 0;
    while i < inpath.len()
        invariant
            i <= inpath.len(),
            model == normal_parts(inpath@.subrange(0, i as int)),
            same_path(outpath@, model),
        decreases inpath.len() - i,
    {
        proof {
            assert(inpath@.subrange(0, i + 1).drop_last() =~= inpath@.subrange(0, i as int));
        }
        match &inpath[i] {
            PathPart::CurDir => {},
            PathPart::ParentDir => {
                let n = outpath.len();
                if n > 0 {
                    let is_name = match &outpath[n - 1] {
                        PathPart::Normal(_) => true,
                        _ => false,
                    };
                    assert(is_name == (model.last() is Normal)) by {
                        assert(same_part(outpath@[n - 1], model[n - 1]));
                    }
                    if is_name {
                        outpath.pop();
                        proof {
                            model = model.drop_last();
                        }
                    }
                }
            },
            part => {
                let copy = clone_part(part);
                outpath.push(copy);
                proof {
                    model = model.push(inpath@[i as int]);
                }
            },
        }
        i += 1;
    }
    assert(inpath@.subrange(0, i as int) =~= inpath@);
    outpath
}

/// A copy of a component.
pub fn clone_part(part: &PathPart) -> (copy: PathPart)
    ensures
        same_part(copy, *part),
{
    match part {
        PathPart::Prefix(prefix) => PathPart::Prefix(
            match prefix {
                PathPrefix::Verbatim(name) => PathPrefix::Verbatim(name.clone()),
                PathPrefix::VerbatimUNC(server, share) => PathPrefix::VerbatimUNC(
                    server.clone(),
                    share.clone(),
                ),
                PathPrefix::VerbatimDisk(letter) => PathPrefix::VerbatimDisk(*letter),
                PathPrefix::DeviceNS(name) => PathPrefix::DeviceNS(name.clone()),
                PathPrefix::UNC(server, share) => PathPrefix::UNC(server.clone(), share.clone()),
                PathPrefix::Disk(letter) => PathPrefix::Disk(*letter),
            },
        ),
        PathPart::RootDir => PathPart::RootDir,
        PathPart::CurDir => PathPart::CurDir,
        PathPart::ParentDir => PathPart::ParentDir,
        PathPart::Normal(name) => PathPart::Normal(name.clone()),
    }
}

/// Whether two prefixes are of the same kind and say the same.
pub open spec fn same_prefix(a: PathPrefix, b: PathPrefix) -> bool {
    match (a, b) {
        (PathPrefix::Verbatim(x), PathPrefix::Verbatim(y)) => x@ == y@,
        (PathPrefix::VerbatimUNC(x, v), PathPrefix::VerbatimUNC(y, w)) => x@ == y@ && v@ == w@,
        (PathPrefix::VerbatimDisk(x), PathPrefix::VerbatimDisk(y)) => x == y,
        (PathPrefix::DeviceNS(x), PathPrefix::DeviceNS(y)) => x@ == y@,
        (PathPrefix::UNC(x, v), PathPrefix::UNC(y, w)) => x@ == y@ && v@ == w@,
        (PathPrefix::Disk(x), PathPrefix::Disk(y)) => x == y,
        _ => false,
    }
}

/// Whether two components are of the same kind and say the same.
pub open spec fn same_part(a: PathPart, b: PathPart) -> bool {
    match (a, b) {
        (PathPart::Prefix(x), PathPart::Prefix(y)) => same_prefix(x, y),
        (PathPart::RootDir, PathPart::RootDir) => true,
        (PathPart::CurDir, PathPart::CurDir) => true,
        (PathPart::ParentDir, PathPart::ParentDir) => true,
        (PathPart::Normal(x), PathPart::Normal(y)) => x@ == y@,
        _ => false,
    }
}

impl PartialEq for PathPrefix {
    fn eq(&self, other: &Self) -> (same: bool) {
        match (self, other) {
            (PathPrefix::Verbatim(x), PathPrefix::Verbatim(y)) => *x == *y,
            (PathPrefix::VerbatimUNC(x, v), PathPrefix::VerbatimUNC(y, w)) => *x == *y && *v == *w,
            (PathPrefix::VerbatimDisk(x), PathPrefix::VerbatimDisk(y)) => *x == *y,
            (PathPrefix::DeviceNS(x), PathPrefix::DeviceNS(y)) => *x == *y,
            (PathPrefix::UNC(x, v), PathPrefix::UNC(y, w)) => *x == *y && *v == *w,
            (PathPrefix::Disk(x), PathPrefix::Disk(y)) => *x == *y,
            _ => false,
        }
    }
}

impl PartialEqSpecImpl for PathPrefix {
    open spec fn obeys_eq_spec() -> bool {
        true
    }

    open spec fn eq_spec(&self, other: &Self) -> bool {
        same_prefix(*self, *other)
    }
}

impl PartialEq for PathPart {
    fn eq(&self, other: &Self) -> (same: bool) {
        match (self, other) {
            (PathPart::Prefix(x), PathPart::Prefix(y)) => *x == *y,
            (PathPart::RootDir, PathPart::RootDir) => true,
            (PathPart::CurDir, PathPart::CurDir) => true,
            (PathPart::ParentDir, PathPart::ParentDir) => true,
            (PathPart::Normal(x), PathPart::Normal(y)) => *x == *y,
            _ => false,
        }
    }
}

impl PartialEqSpecImpl for PathPart {
    open spec fn obeys_eq_spec() -> bool {
        true
    }

    open spec fn eq_spec(&self, other: &Self) -> bool {
        same_part(*self, *other)
    }
}

/// Whether two paths have the same components.
pub open spec fn same_path(a: Seq<PathPart>, b: Seq<PathPart>) -> bool {
    &&& a.len() == b.len()
    &&& forall|i: int| 0 <= i < a.len() ==> same_part(#[trigger] a[i], b[i])
}

/// Whether two paths have the same components.
pub fn paths_equal(a: &[PathPart], b: &[PathPart]) -> (same: bool)
    ensures
        same == same_path(a@, b@),
{
    if a.len() != b.len() {
        return false;
    }
    let mut i: usize = 0;
    while i < a.len()
        invariant
            a.len() == b.len(),
            i <= a.len(),
            forall|j: int| 0 <= j < i ==> same_part(#[trigger] a@[j], b@[j]),
        decreases a.len() - i,
    {
        if !(a[i] == b[i]) {
            return false;
        }
        i += 1;
    }
    true
}

/// A copy of a path.
pub fn clone_parts(parts: &[PathPart]) -> (copy: Vec<PathPart>)
    ensures
        same_path(copy@, parts@),
{
    let mut copy: Vec<PathPart> = Vec::new();
    let mut i: usize = 0;
    while i < parts.len()
        invariant
            i <= parts.len(),
            copy@.len() == i,
            forall|j: int| 0 <= j < i ==> same_part(#[trigger] copy@[j], parts@[j]),
        decreases parts.len() - i,
    {
        let part = clone_part(&parts[i]);
        copy.push(part);
        i += 1;
    }
    copy
}

} // verus!
