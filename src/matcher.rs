//! Filtering a walk down to the directories with the target name.

use vstd::prelude::*;
use crate::entry::{DirEntry, entry_matches, is_match};

verus! {

/// The byte views of a sequence of byte vectors.
pub open spec fn path_views(ps: Seq<Vec<u8>>) -> Seq<Seq<u8>> {
    ps.map_values(|p: Vec<u8>| p@)
}

/// The paths of the entries of `es` that match `target`, in walk order, one
/// for each matching entry.
pub open spec fn matched_paths(es: Seq<DirEntry>, target: Seq<u8>) -> Seq<Seq<u8>>
    decreases es.len(),
{
    if es.len() == 0 {
        Seq::empty()
    } else {
        let prev = matched_paths(es.drop_last(), target);
        if entry_matches(es.last(), target) {
            prev.push(es.last().path@)
        } else {
            prev
        }
    }
}

/// How many of the first `i` entries of `es` match: the position in the result
/// that entry `i` takes if it matches.
pub open spec fn match_rank(es: Seq<DirEntry>, target: Seq<u8>, i: int) -> int {
    matched_paths(es.take(i), target).len() as int
}

/// Why a walk was abandoned: an entry could not be read.
#[derive(Debug)]
pub struct WalkFault {
    pub message: String,
}

/// The matches found so far in a walk, for one target name.
///
/// Entries are observed in the order the walk yields them; the set keeps the
/// path of each one that matches, in that order and with no deduplication.
pub struct MatchSet {
    target: Vec<u8>,
    paths: Vec<Vec<u8>>,
    seen: Ghost<Seq<DirEntry>>,
}

impl MatchSet {
    /// The target name.
    pub closed spec fn target_view(&self) -> Seq<u8> {
        self.target@
    }

    /// The entries observed so far, in order.
    pub closed spec fn seen(&self) -> Seq<DirEntry> {
        self.seen@
    }

    /// The paths kept so far.
    pub closed spec fn paths_view(&self) -> Seq<Seq<u8>> {
        path_views(self.paths@)
    }

    /// The kept paths are exactly the matches among the observed entries.
    pub closed spec fn wf(&self) -> bool {
        self.paths_view() == matched_paths(self.seen(), self.target_view())
    }

    pub fn new(target: Vec<u8>) -> (r: MatchSet)
        ensures
            r.wf(),
            r.target_view() == target@,
            r.seen() == Seq::<DirEntry>::empty(),
            r.paths_view() == Seq::<Seq<u8>>::empty(),
    {
        let r = MatchSet { target, paths: Vec::new(), seen: Ghost(Seq::empty()) };
        assert(r.paths_view() =~= Seq::<Seq<u8>>::empty());
        r
    }

    /// Records one entry of the walk, keeping its path if it matches.
    pub fn observe_entry(&mut self, e: &DirEntry)
        requires
            old(self).wf(),
        ensures
            final(self).wf(),
            final(self).target_view() == old(self).target_view(),
            final(self).seen() == old(self).seen().push(*e),
            final(self).paths_view() == if entry_matches(*e, old(self).target_view()) {
                old(self).paths_view().push(e.path@)
            } else {
                old(self).paths_view()
            },
    {
        let ghost old_seen = self.seen@;
        let ghost new_seen = old_seen.push(*e);
        assert(new_seen.drop_last() =~= old_seen);
        if is_match(e, &self.target) {
            let p = e.path.clone();
            assert(p@ =~= e.path@);
            self.paths.push(p);
            assert(path_views(self.paths@) =~= matched_paths(old_seen, self.target@).push(e.path@));
        }
        self.seen = Ghost(new_seen);
    }

    /// Takes one step of the walk. An entry is recorded and the walk goes on;
    /// a fault stops it (the first unreadable entry abandons the whole search)
    /// and is handed back, with nothing recorded.
    pub fn observe(&mut self, item: Result<DirEntry, WalkFault>) -> (r: Result<(), WalkFault>)
        requires
            old(self).wf(),
        ensures
            final(self).wf(),
            final(self).target_view() == old(self).target_view(),
            match item {
                Ok(e) => r is Ok && final(self).seen() == old(self).seen().push(e),
                Err(f) => r == Err::<(), WalkFault>(f) && final(self).seen() == old(self).seen(),
            },
    {
        match item {
            Ok(e) => {
                self.observe_entry(&e);
                Ok(())
            },
            Err(f) => Err(f),
        }
    }

    /// Number of matches kept so far.
    pub fn count(&self) -> (r: usize)
        ensures
            r == self.paths_view().len(),
    {
        self.paths.len()
    }

    /// The kept paths, in walk order.
    pub fn into_paths(self) -> (r: Vec<Vec<u8>>)
        requires
            self.wf(),
        ensures
            path_views(r@) == matched_paths(self.seen(), self.target_view()),
    {
        self.paths
    }
}

/// The paths of the entries of a whole walk that are directories named
/// exactly `target`, in walk order.
pub fn collect_matches(entries: &Vec<DirEntry>, target: &Vec<u8>) -> (r: Vec<Vec<u8>>)
    ensures
        path_views(r@) == matched_paths(entries@, target@),
{
    let mut set = MatchSet::new(target.clone());
    assert(set.target_view() =~= target@);
    let mut i: usize = 0;
    while i < entries.len()
        invariant
            0 <= i <= entries@.len(),
            set.wf(),
            set.target_view() == target@,
            set.seen() == entries@.take(i as int),
        decreases entries@.len() - i,
    {
        set.observe_entry(&entries[i]);
        assert(entries@.take(i as int).push(entries@[i as int]) =~= entries@.take(i + 1));
        i = i + 1;
    }
    assert(entries@.take(i as int) =~= entries@);
    set.into_paths()
}

} // verus!
