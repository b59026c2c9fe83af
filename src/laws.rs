//! What holds of every search: each matching directory is reported exactly
//! once, in walk order, and the exported array reads back as those paths.

use vstd::prelude::*;
use crate::cstring::{c_string_of, lemma_decode_encode};
use crate::entry::{DirEntry, EntryKind, entry_matches};
use crate::export::{decoded_strings, exported_slots, is_c_string};
use crate::matcher::{match_rank, matched_paths};

verus! {

/// Walking one more entry appends its path exactly when it matches.
proof fn lemma_rank_step(es: Seq<DirEntry>, t: Seq<u8>, i: int)
    requires
        0 <= i < es.len(),
    ensures
        matched_paths(es.take(i + 1), t) == if entry_matches(es[i], t) {
            matched_paths(es.take(i), t).push(es[i].path@)
        } else {
            matched_paths(es.take(i), t)
        },
{
    assert(es.take(i + 1).drop_last() =~= es.take(i));
    assert(es.take(i + 1).last() == es[i]);
}

/// The matches among the first `j` entries are a prefix of all the matches.
proof fn lemma_matched_prefix(es: Seq<DirEntry>, t: Seq<u8>, j: int)
    requires
        0 <= j <= es.len(),
    ensures
        match_rank(es, t, j) <= matched_paths(es, t).len(),
        matched_paths(es, t).take(match_rank(es, t, j)) == matched_paths(es.take(j), t),
    decreases es.len(),
{
    let all = matched_paths(es, t);
    if j == es.len() {
        assert(es.take(j) =~= es);
        assert(all.take(all.len() as int) =~= all);
    } else {
        let front = es.drop_last();
        assert(front.take(j) =~= es.take(j));
        lemma_matched_prefix(front, t, j);
        let before = matched_paths(front, t);
        let r = match_rank(es, t, j);
        assert(all.take(r) =~= before.take(r));
    }
}

/// The rank never decreases along the walk.
proof fn lemma_rank_monotone(es: Seq<DirEntry>, t: Seq<u8>, a: int, b: int)
    requires
        0 <= a <= b <= es.len(),
    ensures
        match_rank(es, t, a) <= match_rank(es, t, b),
{
    let pre = es.take(b);
    assert(pre.take(a) =~= es.take(a));
    lemma_matched_prefix(pre, t, a);
}

/// A matching entry's path stands in the result at the entry's rank.
proof fn lemma_match_at_rank(es: Seq<DirEntry>, t: Seq<u8>, i: int)
    requires
        0 <= i < es.len(),
        entry_matches(es[i], t),
    ensures
        0 <= match_rank(es, t, i) < matched_paths(es, t).len(),
        match_rank(es, t, i + 1) == match_rank(es, t, i) + 1,
        matched_paths(es, t)[match_rank(es, t, i)] == es[i].path@,
{
    lemma_rank_step(es, t, i);
    lemma_matched_prefix(es, t, i + 1);
    let r = match_rank(es, t, i);
    assert(matched_paths(es, t).take(r + 1)[r] == es[i].path@);
}

/// Every position of the result comes from a matching entry of that rank.
proof fn lemma_rank_onto(es: Seq<DirEntry>, t: Seq<u8>, k: int)
    requires
        0 <= k < matched_paths(es, t).len(),
    ensures
        exists|i: int| 0 <= i < es.len() && entry_matches(es[i], t) && #[trigger] match_rank(es, t, i) == k,
    decreases es.len(),
{
    let front = es.drop_last();
    let n = es.len() - 1;
    if k < matched_paths(front, t).len() {
        lemma_rank_onto(front, t, k);
        let i = choose|i: int| 0 <= i < front.len() && entry_matches(front[i], t) && #[trigger] match_rank(front, t, i) == k;
        assert(front.take(i) =~= es.take(i));
        assert(match_rank(es, t, i) == k);
    } else {
        assert(es.take(n) =~= front);
        assert(entry_matches(es[n], t));
        assert(match_rank(es, t, n) == k);
    }
}

/// Completeness: for a walk `es` and a name `t`, the result holds one path for
/// each entry that is a directory named `t`, and nothing else. The entry at
/// walk position `i` stands at result position `match_rank(es, t, i)`; distinct
/// matching entries take distinct positions, and every position is taken.
pub proof fn lemma_each_match_reported_once(es: Seq<DirEntry>, t: Seq<u8>)
    ensures
        forall|i: int| 0 <= i < es.len() && #[trigger] entry_matches(es[i], t) ==> {
            &&& 0 <= match_rank(es, t, i) < matched_paths(es, t).len()
            &&& matched_paths(es, t)[match_rank(es, t, i)] == es[i].path@
        },
        forall|i: int, j: int|
            0 <= i < es.len() && 0 <= j < es.len() && i != j && entry_matches(es[i], t) && entry_matches(es[j], t)
            ==> #[trigger] match_rank(es, t, i) != #[trigger] match_rank(es, t, j),
        forall|k: int| 0 <= k < matched_paths(es, t).len() ==> #[trigger] position_from_match(es, t, k),
{
    assert forall|i: int| 0 <= i < es.len() && #[trigger] entry_matches(es[i], t) implies {
        &&& 0 <= match_rank(es, t, i) < matched_paths(es, t).len()
        &&& matched_paths(es, t)[match_rank(es, t, i)] == es[i].path@
    } by {
        lemma_match_at_rank(es, t, i);
    }
    assert forall|i: int, j: int|
        0 <= i < es.len() && 0 <= j < es.len() && i != j && entry_matches(es[i], t) && entry_matches(es[j], t)
        implies #[trigger] match_rank(es, t, i) != #[trigger] match_rank(es, t, j) by {
        if i < j {
            lemma_walk_order(es, t, i, j);
        } else {
            lemma_walk_order(es, t, j, i);
        }
    }
    lemma_every_position_from_a_match(es, t);
}

/// Position `k` of the result holds the path of a matching entry of rank `k`.
pub open spec fn position_from_match(es: Seq<DirEntry>, t: Seq<u8>, k: int) -> bool {
    exists|i: int| #![trigger es[i]]
        0 <= i < es.len() && entry_matches(es[i], t) && match_rank(es, t, i) == k
        && es[i].path@ == matched_paths(es, t)[k]
}

/// Every position of the result holds the path of a matching entry of that
/// rank.
proof fn lemma_every_position_from_a_match(es: Seq<DirEntry>, t: Seq<u8>)
    ensures
        forall|k: int| 0 <= k < matched_paths(es, t).len() ==> #[trigger] position_from_match(es, t, k),
{
    assert forall|k: int| 0 <= k < matched_paths(es, t).len() implies #[trigger] position_from_match(es, t, k) by {
        lemma_rank_onto(es, t, k);
        let i = choose|i: int| 0 <= i < es.len() && entry_matches(es[i], t) && #[trigger] match_rank(es, t, i) == k;
        lemma_match_at_rank(es, t, i);
    }
}

/// Order: of two matching entries, the one walked first comes first in the
/// result. The result order is thus fixed by the walk order alone.
pub proof fn lemma_walk_order(es: Seq<DirEntry>, t: Seq<u8>, i: int, j: int)
    requires
        0 <= i < j < es.len(),
        entry_matches(es[i], t),
        entry_matches(es[j], t),
    ensures
        match_rank(es, t, i) < match_rank(es, t, j),
        matched_paths(es, t)[match_rank(es, t, i)] == es[i].path@,
        matched_paths(es, t)[match_rank(es, t, j)] == es[j].path@,
{
    lemma_match_at_rank(es, t, i);
    lemma_match_at_rank(es, t, j);
    lemma_rank_monotone(es, t, i + 1, j);
}

/// Hidden entries: a walked directory named `t` is reported whatever its path
/// or name begins with, a leading `.` included.
pub proof fn lemma_hidden_directory_reported(es: Seq<DirEntry>, t: Seq<u8>, i: int)
    requires
        0 <= i < es.len(),
        es[i].kind == EntryKind::Directory,
        es[i].name@ == t,
    ensures
        matched_paths(es, t).contains(es[i].path@),
{
    lemma_match_at_rank(es, t, i);
}

/// No match: when no walked entry is a directory named `t`, the export is the
/// sentinel alone.
pub proof fn lemma_no_match_only_sentinel(es: Seq<DirEntry>, t: Seq<u8>)
    requires
        forall|i: int| 0 <= i < es.len() ==> !entry_matches(#[trigger] es[i], t),
    ensures
        matched_paths(es, t).len() == 0,
        exported_slots(matched_paths(es, t)) == seq![None::<Seq<u8>>],
{
    if matched_paths(es, t).len() > 0 {
        lemma_rank_onto(es, t, 0);
    }
    assert(exported_slots(matched_paths(es, t)) =~= seq![None::<Seq<u8>>]);
}

/// Sentinel: the export of `n` paths has `n + 1` slots; slot `n` is null and
/// no slot before it is.
pub proof fn lemma_sentinel_terminates(paths: Seq<Seq<u8>>)
    ensures
        exported_slots(paths).len() == paths.len() + 1,
        exported_slots(paths)[paths.len() as int] is None,
        forall|k: int| 0 <= k < paths.len() ==> #[trigger] exported_slots(paths)[k] is Some,
{
}

/// Reading the export of `paths` back, up to the sentinel, gives `paths`.
proof fn lemma_decode_exported(paths: Seq<Seq<u8>>)
    requires
        forall|k: int| 0 <= k < paths.len() ==> !(#[trigger] paths[k]).contains(0u8),
    ensures
        decoded_strings(exported_slots(paths)) == paths,
    decreases paths.len(),
{
    let s = exported_slots(paths);
    if paths.len() == 0 {
        assert(s[0] is None);
        assert(decoded_strings(s) =~= paths);
    } else {
        let rest = paths.drop_first();
        assert(s.drop_first() =~= exported_slots(rest));
        assert(!paths[0].contains(0u8));
        assert forall|k: int| 0 <= k < rest.len() implies !(#[trigger] rest[k]).contains(0u8) by {
            assert(rest[k] == paths[k + 1]);
        }
        lemma_decode_exported(rest);
        lemma_decode_encode(paths[0]);
        assert(s[0] == Some(c_string_of(paths[0])));
        assert(decoded_strings(s) =~= paths);
    }
}

/// Round trip: when no matched path holds a NUL byte, every string slot of the
/// export is a NUL-terminated string, and reading the export back gives the
/// matched paths in order, each the path of a walked directory named `t`.
pub proof fn lemma_export_round_trip(es: Seq<DirEntry>, t: Seq<u8>)
    requires
        forall|k: int| 0 <= k < matched_paths(es, t).len() ==> !(#[trigger] matched_paths(es, t)[k]).contains(0u8),
    ensures
        forall|k: int| 0 <= k < matched_paths(es, t).len() ==>
            (#[trigger] exported_slots(matched_paths(es, t))[k] matches Some(b) && is_c_string(b)),
        decoded_strings(exported_slots(matched_paths(es, t))) == matched_paths(es, t),
        forall|k: int| #![trigger matched_paths(es, t)[k]] 0 <= k < matched_paths(es, t).len() ==>
            exists|i: int| #![trigger es[i]] 0 <= i < es.len() && entry_matches(es[i], t) && es[i].path@ == matched_paths(es, t)[k],
{
    let m = matched_paths(es, t);
    lemma_decode_exported(m);
    assert forall|k: int| 0 <= k < m.len() implies
        (#[trigger] exported_slots(m)[k] matches Some(b) && is_c_string(b)) by {
        assert(c_string_of(m[k]).drop_last() =~= m[k]);
    }
    assert forall|k: int| #![trigger m[k]] 0 <= k < m.len() implies
        exists|i: int| #![trigger es[i]] 0 <= i < es.len() && entry_matches(es[i], t) && es[i].path@ == m[k] by {
        lemma_rank_onto(es, t, k);
        let i = choose|i: int| 0 <= i < es.len() && entry_matches(es[i], t) && #[trigger] match_rank(es, t, i) == k;
        lemma_match_at_rank(es, t, i);
    }
}

} // verus!
