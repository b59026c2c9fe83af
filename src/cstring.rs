//! NUL-terminated byte strings, the form in which each path crosses the
//! boundary.

use vstd::prelude::*;

verus! {

/// The NUL-terminated encoding of `p`.
pub open spec fn c_string_of(p: Seq<u8>) -> Seq<u8> {
    p.push(0u8)
}

/// The bytes of `b` before its first NUL (all of `b` if it holds none).
pub open spec fn until_nul(b: Seq<u8>) -> Seq<u8>
    decreases b.len(),
{
    if b.len() == 0 {
        b
    } else if b[0] == 0 {
        Seq::empty()
    } else {
        seq![b[0]].add(until_nul(b.drop_first()))
    }
}

/// Reading up to the first NUL gives the prefix of `b` of length `i` when
/// `i` is the position of that NUL (or the end of `b`).
pub proof fn lemma_until_nul_prefix(b: Seq<u8>, i: int)
    requires
        0 <= i <= b.len(),
        forall|j: int| 0 <= j < i ==> b[j] != 0,
        i == b.len() || b[i] == 0,
    ensures
        until_nul(b) == b.take(i),
    decreases b.len(),
{
    if b.len() == 0 {
        assert(b.take(i) =~= b);
    } else if b[0] == 0 {
        assert(b.take(i) =~= Seq::<u8>::empty());
    } else {
        let rest = b.drop_first();
        assert forall|j: int| 0 <= j < i - 1 implies rest[j] != 0 by {
            assert(rest[j] == b[j + 1]);
        }
        lemma_until_nul_prefix(rest, i - 1);
        assert(seq![b[0]].add(rest.take(i - 1)) =~= b.take(i));
    }
}

/// Decoding an encoded path that holds no NUL gives the path back.
pub proof fn lemma_decode_encode(p: Seq<u8>)
    requires
        !p.contains(0u8),
    ensures
        until_nul(c_string_of(p)) == p,
{
    let b = c_string_of(p);
    assert forall|j: int| 0 <= j < p.len() implies b[j] != 0 by {
        if b[j] == 0 {
            assert(p[j] == 0u8);
        }
    }
    lemma_until_nul_prefix(b, p.len() as int);
    assert(b.take(p.len() as int) =~= p);
}

/// Encodes `p` as a NUL-terminated byte string. Fails (`None`) exactly when
/// `p` itself holds a NUL, which the encoding could not represent.
pub fn encode_c_string(p: &Vec<u8>) -> (r: Option<Vec<u8>>)
    ensures
        r is None <==> p@.contains(0u8),
        r matches Some(b) ==> b@ == c_string_of(p@),
{
    let mut out: Vec<u8> = Vec::new();
    let mut i: usize = 0;
    while i < p.len()
        invariant
            0 <= i <= p@.len(),
            out@ == p@.take(i as int),
            forall|j: int| 0 <= j < i ==> p@[j] != 0,
        decreases p@.len() - i,
    {
        if p[i] == 0 {
            assert(p@.contains(0u8)) by {
                assert(p@[i as int] == 0u8);
            }
            return None;
        }
        out.push(p[i]);
        assert(out@ =~= p@.take(i + 1));
        i = i + 1;
    }
    out.push(0u8);
    assert(out@ =~= c_string_of(p@));
    assert(!p@.contains(0u8)) by {
        if p@.contains(0u8) {
            let k = choose|k: int| 0 <= k < p@.len() && p@[k] == 0u8;
            assert(p@[k] != 0);
        }
    }
    Some(out)
}

/// The bytes of `b` before its first NUL.
pub fn decode_c_string(b: &Vec<u8>) -> (r: Vec<u8>)
    ensures
        r@ == until_nul(b@),
{
    let mut out: Vec<u8> = Vec::new();
    let mut i: usize = 0;
    while i < b.len() && b[i] != 0
        invariant
            0 <= i <= b@.len(),
            out@ == b@.take(i as int),
            forall|j: int| 0 <= j < i ==> b@[j] != 0,
        decreases b@.len() - i,
    {
        out.push(b[i]);
        assert(out@ =~= b@.take(i + 1));
        i = i + 1;
    }
    proof {
        lemma_until_nul_prefix(b@, i as int);
    }
    out
}

} // verus!
