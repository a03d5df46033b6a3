//! Byte-level utilities: concatenation, whitespace scanning over header
//! values, and substring search used to classify upstream error text.

use vstd::prelude::*;

verus! {

/// Appends all of `s` to `out`.
pub fn append_bytes(out: &mut Vec<u8>, s: &Vec<u8>)
    ensures
        final(out)@ == old(out)@ + s@,
{
    let mut i: usize = 0;
    proof {
        assert(out@ + s@.subrange(0, 0) =~= out@);
    }
    while i < s.len()
        invariant
            i <= s@.len(),
            out@ == old(out)@ + s@.subrange(0, i as int),
        decreases s@.len() - i,
    {
        out.push(s[i]);
        i += 1;
        proof {
            assert(old(out)@ + s@.subrange(0, i as int) =~= (old(out)@ + s@.subrange(
                0,
                i - 1,
            )).push(s@[i - 1]));
        }
    }
    proof {
        assert(s@.subrange(0, s@.len() as int) =~= s@);
    }
}

/// Copies `v[from..to]` into a fresh vector.
pub fn copy_range(v: &Vec<u8>, from: usize, to: usize) -> (r: Vec<u8>)
    requires
        from <= to <= v@.len(),
    ensures
        r@ == v@.subrange(from as int, to as int),
{
    let mut out: Vec<u8> = Vec::new();
    let mut i: usize = from;
    proof {
        assert(v@.subrange(from as int, from as int) =~= Seq::<u8>::empty());
    }
    while i < to
        invariant
            from <= i <= to <= v@.len(),
            out@ == v@.subrange(from as int, i as int),
        decreases to - i,
    {
        out.push(v[i]);
        i += 1;
        proof {
            assert(v@.subrange(from as int, i as int) =~= v@.subrange(from as int, i - 1).push(
                v@[i - 1],
            ));
        }
    }
    out
}

/// Compares two byte vectors for equality of contents.
pub fn bytes_eq(a: &Vec<u8>, b: &Vec<u8>) -> (r: bool)
    ensures
        r == (a@ == b@),
{
    if a.len() != b.len() {
        return false;
    }
    let mut i: usize = 0;
    while i < a.len()
        invariant
            i <= a@.len(),
            a@.len() == b@.len(),
            forall|k: int| 0 <= k < i ==> a@[k] == b@[k],
        decreases a@.len() - i,
    {
        if a[i] != b[i] {
            return false;
        }
        i += 1;
    }
    proof {
        assert(a@ =~= b@);
    }
    true
}

/// Header whitespace: the space and horizontal-tab bytes.
pub open spec fn is_ws(b: u8) -> bool {
    b == 32 || b == 9
}

/// The first position at or after `i` whose byte's whitespace status is
/// `want_ws`, or the length of `s` if there is none.
pub open spec fn seek(s: Seq<u8>, i: int, want_ws: bool) -> int
    recommends
        0 <= i <= s.len(),
    decreases s.len() - i,
    when 0 <= i <= s.len()
{
    if i >= s.len() {
        s.len() as int
    } else if is_ws(s[i]) == want_ws {
        i
    } else {
        seek(s, i + 1, want_ws)
    }
}

/// `seek` never runs past the end and skips only bytes of the other status.
pub proof fn lemma_seek_bounds(s: Seq<u8>, i: int, want_ws: bool)
    requires
        0 <= i <= s.len(),
    ensures
        i <= seek(s, i, want_ws) <= s.len(),
        forall|k: int| i <= k < seek(s, i, want_ws) ==> is_ws(s[k]) != want_ws,
        seek(s, i, want_ws) < s.len() ==> is_ws(s[seek(s, i, want_ws)]) == want_ws,
    decreases s.len() - i,
{
    if i < s.len() && is_ws(s[i]) != want_ws {
        lemma_seek_bounds(s, i + 1, want_ws);
    }
}

/// `seek` lands exactly on `j` when everything before `j` has the other
/// whitespace status and `j` itself (if inside the sequence) has the wanted
/// one.
pub proof fn lemma_seek_pins(s: Seq<u8>, i: int, j: int, want_ws: bool)
    requires
        0 <= i <= j <= s.len(),
        forall|k: int| i <= k < j ==> is_ws(#[trigger] s[k]) != want_ws,
        j < s.len() ==> is_ws(s[j]) == want_ws,
    ensures
        seek(s, i, want_ws) == j,
    decreases j - i,
{
    if i < j {
        lemma_seek_pins(s, i + 1, j, want_ws);
    }
}

/// Scans `v` from `i` for the first byte whose whitespace status is `want_ws`.
pub fn seek_from(v: &Vec<u8>, i: usize, want_ws: bool) -> (r: usize)
    requires
        i <= v@.len(),
    ensures
        r == seek(v@, i as int, want_ws),
    decreases v@.len() - i,
{
    if i >= v.len() {
        v.len()
    } else {
        let b = v[i];
        if (b == 32 || b == 9) == want_ws {
            i
        } else {
            seek_from(v, i + 1, want_ws)
        }
    }
}

/// `needle` occurs as a contiguous run inside `hay`.
pub open spec fn contains_seq(hay: Seq<u8>, needle: Seq<u8>) -> bool {
    exists|i: int|
        0 <= i && i + needle.len() <= hay.len() && #[trigger] hay.subrange(i, i + needle.len())
            == needle
}

/// Whether `hay` matches `needle` starting at position `at`.
fn matches_at(hay: &Vec<u8>, needle: &Vec<u8>, at: usize) -> (r: bool)
    requires
        at + needle@.len() <= hay@.len(),
    ensures
        r == (hay@.subrange(at as int, at as int + needle@.len()) == needle@),
{
    let hn = hay.len();
    let mut j: usize = 0;
    while j < needle.len()
        invariant
            j <= needle@.len(),
            hn == hay@.len(),
            at + needle@.len() <= hn,
            forall|k: int| 0 <= k < j ==> hay@[at + k] == needle@[k],
        decreases needle@.len() - j,
    {
        if hay[at + j] != needle[j] {
            proof {
                let sub = hay@.subrange(at as int, at as int + needle@.len());
                assert(sub[j as int] != needle@[j as int]);
            }
            return false;
        }
        j += 1;
    }
    proof {
        assert(hay@.subrange(at as int, at as int + needle@.len()) =~= needle@);
    }
    true
}

/// Reports whether `needle` occurs anywhere inside `hay`.
pub fn contains_bytes(hay: &Vec<u8>, needle: &Vec<u8>) -> (r: bool)
    ensures
        r == contains_seq(hay@, needle@),
{
    if needle.len() > hay.len() {
        return false;
    }
    if needle.len() == 0 {
        proof {
            assert(hay@.subrange(0, 0 + needle@.len() as int) =~= needle@);
        }
        return true;
    }
    let hn = hay.len();
    let last_start = hn - needle.len();
    let mut i: usize = 0;
    while i <= last_start
        invariant
            i <= last_start + 1,
            hn == hay@.len(),
            needle@.len() >= 1,
            last_start == hn - needle@.len(),
            forall|k: int|
                0 <= k < i ==> #[trigger] hay@.subrange(k, k + needle@.len()) != needle@,
        decreases last_start + 1 - i,
    {
        if matches_at(hay, needle, i) {
            return true;
        }
        i += 1;
    }
    false
}

} // verus!
