//! Lowercase hexadecimal encoding of byte strings, with a verified
//! decoder. Serialized tokens travel inside an HTTP header, so their raw
//! bytes are wrapped in hex to stay within visible text and clear of
//! whitespace.

use vstd::prelude::*;
use vstd::arithmetic::div_mod::lemma_fundamental_div_mod;

verus! {

/// The lowercase hex character of a value below sixteen.
pub open spec fn hex_digit(n: u8) -> u8
    recommends
        n < 16,
{
    if n < 10 {
        (48 + n) as u8
    } else {
        (87 + n) as u8
    }
}

/// The hex encoding of a byte string: two characters per byte, high
/// nibble first.
pub open spec fn hex_of(s: Seq<u8>) -> Seq<u8>
    decreases s.len(),
{
    if s.len() == 0 {
        Seq::empty()
    } else {
        hex_of(s.drop_last()) + seq![
            hex_digit((s.last() / 16) as u8),
            hex_digit((s.last() % 16) as u8),
        ]
    }
}

/// A lowercase hex character.
pub open spec fn is_hex_digit(c: u8) -> bool {
    (48 <= c && c <= 57) || (97 <= c && c <= 102)
}

/// The value of a lowercase hex character.
pub open spec fn hex_val(c: u8) -> u8
    recommends
        is_hex_digit(c),
{
    if c < 58 {
        (c - 48) as u8
    } else {
        (c - 87) as u8
    }
}

/// The decoding of a hex string: the byte string it encodes, or nothing
/// if its length is odd or any character is not lowercase hex.
pub open spec fn spec_hex_decode(s: Seq<u8>) -> Option<Seq<u8>>
    decreases s.len(),
{
    if s.len() == 0 {
        Some(Seq::empty())
    } else if s.len() == 1 {
        None
    } else if is_hex_digit(s[0]) && is_hex_digit(s[1]) {
        match spec_hex_decode(s.subrange(2, s.len() as int)) {
            Some(rest) => Some(seq![(16 * hex_val(s[0]) + hex_val(s[1])) as u8] + rest),
            None => None,
        }
    } else {
        None
    }
}

/// Encodes a byte vector as lowercase hex.
pub fn hex_encode(v: &Vec<u8>) -> (r: Vec<u8>)
    ensures
        r@ == hex_of(v@),
{
    let mut out: Vec<u8> = Vec::new();
    let mut i: usize = 0;
    proof {
        assert(hex_of(v@.subrange(0, 0)) =~= Seq::<u8>::empty());
    }
    while i < v.len()
        invariant
            i <= v@.len(),
            out@ == hex_of(v@.subrange(0, i as int)),
        decreases v@.len() - i,
    {
        let b = v[i];
        let hi = b / 16;
        let lo = b % 16;
        let d1: u8 = if hi < 10 {
            48 + hi
        } else {
            87 + hi
        };
        let d2: u8 = if lo < 10 {
            48 + lo
        } else {
            87 + lo
        };
        out.push(d1);
        out.push(d2);
        i += 1;
        proof {
            assert(v@.subrange(0, i as int).drop_last() =~= v@.subrange(0, i - 1));
            assert(v@.subrange(0, i as int).last() == v@[i - 1]);
            assert(out@ =~= hex_of(v@.subrange(0, i - 1)) + seq![d1, d2]);
        }
    }
    proof {
        assert(v@.subrange(0, v@.len() as int) =~= v@);
    }
    out
}

/// Decodes a lowercase hex vector; returns nothing exactly when the input
/// is not well-formed hex.
pub fn hex_decode(v: &Vec<u8>) -> (r: Option<Vec<u8>>)
    ensures
        r is Some <==> spec_hex_decode(v@) is Some,
        r matches Some(b) ==> spec_hex_decode(v@) == Some(b@),
{
    let n = v.len();
    let mut out: Vec<u8> = Vec::new();
    let mut i: usize = 0;
    proof {
        assert(v@.subrange(0, v@.len() as int) =~= v@);
    }
    while i < n
        invariant
            i <= n,
            n == v@.len(),
            i % 2 == 0,
            spec_hex_decode(v@) == (match spec_hex_decode(v@.subrange(i as int, n as int)) {
                Some(rest) => Some(out@ + rest),
                None => None::<Seq<u8>>,
            }),
        decreases n - i,
    {
        let ghost tail = v@.subrange(i as int, n as int);
        if i + 1 >= n {
            proof {
                assert(tail.len() == 1);
            }
            return None;
        }
        let c1 = v[i];
        let c2 = v[i + 1];
        let ok1 = (48 <= c1 && c1 <= 57) || (97 <= c1 && c1 <= 102);
        let ok2 = (48 <= c2 && c2 <= 57) || (97 <= c2 && c2 <= 102);
        proof {
            assert(tail[0] == v@[i as int]);
            assert(tail[1] == v@[i + 1]);
            assert(tail.subrange(2, tail.len() as int) =~= v@.subrange(i + 2, n as int));
        }
        if !(ok1 && ok2) {
            return None;
        }
        let v1: u8 = if c1 < 58 {
            c1 - 48
        } else {
            c1 - 87
        };
        let v2: u8 = if c2 < 58 {
            c2 - 48
        } else {
            c2 - 87
        };
        let b: u8 = 16 * v1 + v2;
        out.push(b);
        proof {
            let rec = spec_hex_decode(v@.subrange(i + 2, n as int));
            if rec is Some {
                let rest = rec->Some_0;
                assert(out@ + rest =~= out@.drop_last() + (seq![b] + rest));
            }
        }
        i += 2;
    }
    proof {
        assert(v@.subrange(i as int, n as int).len() == 0);
        assert(spec_hex_decode(v@.subrange(i as int, n as int)) == Some(Seq::<u8>::empty()));
        assert(out@ + Seq::<u8>::empty() =~= out@);
    }
    Some(out)
}

/// `hex_of` can also be unfolded from the front: the first byte's two
/// characters, then the encoding of the rest.
proof fn lemma_hex_of_front(s: Seq<u8>)
    requires
        s.len() > 0,
    ensures
        hex_of(s) == seq![hex_digit((s[0] / 16) as u8), hex_digit((s[0] % 16) as u8)] + hex_of(
            s.drop_first(),
        ),
    decreases s.len(),
{
    if s.len() == 1 {
        assert(hex_of(s.drop_last()) =~= Seq::<u8>::empty());
        assert(hex_of(s.drop_first()) =~= Seq::<u8>::empty());
        assert(hex_of(s) =~= seq![hex_digit((s[0] / 16) as u8), hex_digit((s[0] % 16) as u8)]
            + hex_of(s.drop_first()));
    } else {
        lemma_hex_of_front(s.drop_last());
        assert(s.drop_last()[0] == s[0]);
        assert(s.drop_last().drop_first() =~= s.drop_first().drop_last());
        assert(s.drop_first().last() == s.last());
        assert(hex_of(s) =~= seq![hex_digit((s[0] / 16) as u8), hex_digit((s[0] % 16) as u8)]
            + hex_of(s.drop_first()));
    }
}

/// Decoding inverts encoding: the hex of any byte string is well-formed
/// and decodes back to it.
pub proof fn lemma_hex_round_trip(s: Seq<u8>)
    ensures
        spec_hex_decode(hex_of(s)) == Some(s),
    decreases s.len(),
{
    if s.len() == 0 {
        assert(hex_of(s).len() == 0);
        assert(spec_hex_decode(hex_of(s)) == Some(Seq::<u8>::empty()));
        assert(s =~= Seq::<u8>::empty());
    } else {
        lemma_hex_of_front(s);
        let h = hex_of(s);
        let hi = (s[0] / 16) as u8;
        let lo = (s[0] % 16) as u8;
        assert(h.len() == 2 + hex_of(s.drop_first()).len()) by {
            lemma_hex_len(s.drop_first());
            lemma_hex_len(s);
        }
        assert(h[0] == hex_digit(hi));
        assert(h[1] == hex_digit(lo));
        assert(is_hex_digit(hex_digit(hi)));
        assert(is_hex_digit(hex_digit(lo)));
        assert(hex_val(hex_digit(hi)) == hi);
        assert(hex_val(hex_digit(lo)) == lo);
        assert(16 * hi + lo == s[0]) by {
            lemma_fundamental_div_mod(s[0] as int, 16);
        }
        assert(h.subrange(2, h.len() as int) =~= hex_of(s.drop_first()));
        lemma_hex_round_trip(s.drop_first());
        assert(seq![s[0]] + s.drop_first() =~= s);
    }
}

/// A hex encoding is twice as long as what it encodes.
pub proof fn lemma_hex_len(s: Seq<u8>)
    ensures
        hex_of(s).len() == 2 * s.len(),
    decreases s.len(),
{
    if s.len() > 0 {
        lemma_hex_len(s.drop_last());
    }
}

/// Every character of a hex encoding is a lowercase hex character, hence
/// visible text with no whitespace.
pub proof fn lemma_hex_chars(s: Seq<u8>)
    ensures
        forall|i: int| 0 <= i < hex_of(s).len() ==> is_hex_digit(#[trigger] hex_of(s)[i]),
    decreases s.len(),
{
    if s.len() > 0 {
        lemma_hex_chars(s.drop_last());
        lemma_hex_len(s.drop_last());
        lemma_hex_len(s);
    }
}

} // verus!
