//! One item produced by a directory walk.

use vstd::prelude::*;

verus! {

/// The kind of a walked entry.
#[derive(Clone, Copy, Debug, PartialEq, Eq, Structural)]
pub enum EntryKind {
    Directory,
    File,
    Other,
}

/// One entry of a directory walk: its full path (as the walk presents it) and
/// its base name, both as raw bytes, and its kind.
#[derive(Debug)]
pub struct DirEntry {
    pub path: Vec<u8>,
    pub name: Vec<u8>,
    pub kind: EntryKind,
}

/// An entry qualifies when it is a directory whose base name equals the target
/// byte for byte. Nothing else about the entry counts: a leading `.` in its
/// name or in any ancestor's name does not exclude it.
pub open spec fn entry_matches(e: DirEntry, target: Seq<u8>) -> bool {
    e.kind == EntryKind::Directory && e.name@ == target
}

impl DirEntry {
    pub fn new(path: Vec<u8>, name: Vec<u8>, kind: EntryKind) -> (r: DirEntry)
        ensures
            r.path@ == path@,
            r.name@ == name@,
            r.kind == kind,
    {
        DirEntry { path, name, kind }
    }

    pub fn is_dir(&self) -> (r: bool)
        ensures
            r == (self.kind == EntryKind::Directory),
    {
        self.kind == EntryKind::Directory
    }
}

/// Byte-exact equality of two byte strings.
pub fn bytes_equal(a: &Vec<u8>, b: &Vec<u8>) -> (r: bool)
    ensures
        r == (a@ == b@),
{
    if a.len() != b.len() {
        return false;
    }
    let mut i: usize = 0;
    while i < a.len()
        invariant
            a@.len() == b@.len(),
            0 <= i <= a@.len(),
            forall|j: int| 0 <= j < i ==> a@[j] == b@[j],
        decreases a@.len() - i,
    {
        if a[i] != b[i] {
            return false;
        }
        i = i + 1;
    }
    assert(a@ =~= b@);
    true
}

/// Whether `e` is a directory named exactly `target`.
pub fn is_match(e: &DirEntry, target: &Vec<u8>) -> (r: bool)
    ensures
        r == entry_matches(*e, target@),
{
    e.is_dir() && bytes_equal(&e.name, target)
}

} // verus!
