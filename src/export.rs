//! The array handed across the boundary: one NUL-terminated string per match,
//! in order, then a null sentinel.

use vstd::prelude::*;
use crate::cstring::{c_string_of, encode_c_string, decode_c_string, until_nul};
use crate::entry::DirEntry;
use crate::matcher::{collect_matches, matched_paths, path_views};

verus! {

/// The slots that `paths` are exported as: `Some` of each encoded path in
/// order, then one `None` sentinel.
pub open spec fn exported_slots(paths: Seq<Seq<u8>>) -> Seq<Option<Seq<u8>>> {
    paths.map_values(|p: Seq<u8>| Some(c_string_of(p))).push(None)
}

/// What a consumer reads from `slots`: the strings before the first sentinel,
/// each read up to its NUL.
pub open spec fn decoded_strings(slots: Seq<Option<Seq<u8>>>) -> Seq<Seq<u8>>
    decreases slots.len(),
{
    if slots.len() == 0 {
        Seq::empty()
    } else {
        match slots[0] {
            None => Seq::empty(),
            Some(b) => seq![until_nul(b)].add(decoded_strings(slots.drop_first())),
        }
    }
}

/// `b` is a NUL-terminated string with no NUL before its end.
pub open spec fn is_c_string(b: Seq<u8>) -> bool {
    b.len() >= 1 && b.last() == 0u8 && !b.drop_last().contains(0u8)
}

/// The view of one slot.
pub open spec fn slot_view(o: Option<Vec<u8>>) -> Option<Seq<u8>> {
    match o {
        Some(b) => Some(b@),
        None => None,
    }
}

/// Why a set of paths could not be exported.
#[derive(Clone, Copy, Debug, PartialEq, Eq, Structural)]
pub enum MarshalError {
    /// The path at `index` holds a NUL byte, which a NUL-terminated string
    /// cannot carry.
    EmbeddedNul { index: usize },
}

/// A sentinel-terminated array of NUL-terminated strings, built in one go
/// once the number of strings is known.
pub struct ExportedStringArray {
    slots: Vec<Option<Vec<u8>>>,
}

impl ExportedStringArray {
    /// The slots, in order, the sentinel included.
    pub closed spec fn view_slots(&self) -> Seq<Option<Seq<u8>>> {
        self.slots@.map_values(|o: Option<Vec<u8>>| slot_view(o))
    }

    /// Every slot but the last holds a string; the last is the sentinel.
    pub open spec fn wf(&self) -> bool {
        let s = self.view_slots();
        &&& s.len() >= 1
        &&& s.last() is None
        &&& forall|i: int| 0 <= i < s.len() - 1 ==> (#[trigger] s[i] matches Some(b) && is_c_string(b))
    }

    /// Exports `paths` in order. Fails exactly when some path holds a NUL
    /// byte, naming the first such path.
    pub fn from_paths(paths: &Vec<Vec<u8>>) -> (r: Result<ExportedStringArray, MarshalError>)
        ensures
            match r {
                Ok(a) => {
                    &&& forall|i: int| 0 <= i < paths@.len() ==> !(#[trigger] paths@[i]@).contains(0u8)
                    &&& a.view_slots() == exported_slots(path_views(paths@))
                    &&& a.wf()
                },
                Err(MarshalError::EmbeddedNul { index }) => {
                    &&& index < paths@.len()
                    &&& paths@[index as int]@.contains(0u8)
                    &&& forall|j: int| 0 <= j < index ==> !(#[trigger] paths@[j]@).contains(0u8)
                },
            },
    {
        let mut slots: Vec<Option<Vec<u8>>> = Vec::new();
        let mut i: usize = 0;
        while i < paths.len()
            invariant
                0 <= i <= paths@.len(),
                slots@.len() == i,
                forall|j: int| 0 <= j < i ==> !(#[trigger] paths@[j]@).contains(0u8),
                forall|j: int| 0 <= j < i ==> #[trigger] slot_view(slots@[j]) == Some(c_string_of(paths@[j]@)),
            decreases paths@.len() - i,
        {
            match encode_c_string(&paths[i]) {
                Some(b) => {
                    slots.push(Some(b));
                },
                None => {
                    return Err(MarshalError::EmbeddedNul { index: i });
                },
            }
            i = i + 1;
        }
        slots.push(None);
        let a = ExportedStringArray { slots };
        assert(a.view_slots() =~= exported_slots(path_views(paths@)));
        proof {
            let s = a.view_slots();
            assert forall|k: int| 0 <= k < s.len() - 1 implies (#[trigger] s[k] matches Some(b) && is_c_string(b)) by {
                let p = paths@[k]@;
                assert(s[k] == Some(c_string_of(p)));
                assert(c_string_of(p).drop_last() =~= p);
            }
        }
        Ok(a)
    }

    /// Number of strings, the sentinel not counted.
    pub fn len(&self) -> (r: usize)
        requires
            self.wf(),
        ensures
            r == self.view_slots().len() - 1,
    {
        self.slots.len() - 1
    }

    /// Reads the array as a consumer does: each string up to its NUL, until
    /// the sentinel.
    pub fn read_until_sentinel(&self) -> (r: Vec<Vec<u8>>)
        ensures
            path_views(r@) == decoded_strings(self.view_slots()),
    {
        let ghost s = self.view_slots();
        let mut out: Vec<Vec<u8>> = Vec::new();
        let mut i: usize = 0;
        assert(s.skip(0) =~= s);
        assert(path_views(out@) + decoded_strings(s) =~= decoded_strings(s));
        while i < self.slots.len() && self.slots[i].is_some()
            invariant
                s == self.view_slots(),
                0 <= i <= s.len(),
                path_views(out@) + decoded_strings(s.skip(i as int)) == decoded_strings(s),
            decreases s.len() - i,
        {
            let b = self.slots[i].as_ref().unwrap();
            let d = decode_c_string(b);
            proof {
                let t = s.skip(i as int);
                assert(t[0] == s[i as int]);
                assert(t.drop_first() =~= s.skip(i + 1));
                assert(path_views(out@.push(d)) =~= path_views(out@).push(d@));
                assert(path_views(out@).push(d@) + decoded_strings(s.skip(i + 1)) =~= path_views(out@) + decoded_strings(t));
            }
            out.push(d);
            i = i + 1;
        }
        assert(decoded_strings(s.skip(i as int)) =~= Seq::<Seq<u8>>::empty());
        assert(path_views(out@) + Seq::<Seq<u8>>::empty() =~= path_views(out@));
        out
    }

    /// Gives up the slots, in order, the sentinel included.
    pub fn into_slots(self) -> (r: Vec<Option<Vec<u8>>>)
        ensures
            r@.map_values(|o: Option<Vec<u8>>| slot_view(o)) == self.view_slots(),
    {
        self.slots
    }
}

/// Searches the entries of a whole walk for directories named exactly
/// `target` and exports their paths, in walk order.
pub fn export_matches(entries: &Vec<DirEntry>, target: &Vec<u8>) -> (r: Result<ExportedStringArray, MarshalError>)
    ensures
        match r {
            Ok(a) => {
                &&& a.view_slots() == exported_slots(matched_paths(entries@, target@))
                &&& a.wf()
            },
            Err(MarshalError::EmbeddedNul { index }) => {
                &&& index < matched_paths(entries@, target@).len()
                &&& matched_paths(entries@, target@)[index as int].contains(0u8)
                &&& forall|j: int| 0 <= j < index ==> !(#[trigger] matched_paths(entries@, target@)[j]).contains(0u8)
            },
        },
{
    let paths = collect_matches(entries, target);
    let r = ExportedStringArray::from_paths(&paths);
    proof {
        match r {
            Ok(_) => {},
            Err(MarshalError::EmbeddedNul { index }) => {
                assert forall|j: int| 0 <= j < index implies !(#[trigger] matched_paths(entries@, target@)[j]).contains(0u8) by {
                    assert(path_views(paths@)[j] == paths@[j]@);
                }
                assert(path_views(paths@)[index as int] == paths@[index as int]@);
            },
        }
    }
    r
}

} // verus!
