//! Base64 encoding of bytes, with the standard alphabet and `=` padding.

use vstd::prelude::*;
use vstd::utf8::{is_leading_byte_width_1, partial_valid_utf8, partial_valid_utf8_extend_ascii_block, valid_utf8};

verus! {

/// The character of the standard Base64 alphabet at index `v`.
pub open spec fn b64_char(v: int) -> u8 {
    if 0 <= v && v <= 25 {
        (65 + v) as u8
    } else if 26 <= v && v <= 51 {
        (97 + v - 26) as u8
    } else if 52 <= v && v <= 61 {
        (48 + v - 52) as u8
    } else if v == 62 {
        43
    } else {
        47
    }
}

/// The Base64 encoding of a byte sequence: four characters for each group of
/// three bytes, a short final group padded with `=`.
pub open spec fn spec_base64(s: Seq<u8>) -> Seq<u8>
    decreases s.len()
{
    if s.len() == 0 {
        Seq::empty()
    } else if s.len() == 1 {
        seq![
            b64_char((s[0] >> 2) as int),
            b64_char(((s[0] & 3) << 4) as int),
            61u8,
            61u8,
        ]
    } else if s.len() == 2 {
        seq![
            b64_char((s[0] >> 2) as int),
            b64_char((((s[0] & 3) << 4) | (s[1] >> 4)) as int),
            b64_char(((s[1] & 15) << 2) as int),
            61u8,
        ]
    } else {
        seq![
            b64_char((s[0] >> 2) as int),
            b64_char((((s[0] & 3) << 4) | (s[1] >> 4)) as int),
            b64_char((((s[1] & 15) << 2) | (s[2] >> 6)) as int),
            b64_char((s[2] & 63) as int),
        ] + spec_base64(s.skip(3))
    }
}

/// The alphabet character for a six-bit value.
fn b64_char_of(v: u8) -> (r: u8)
    ensures
        r == b64_char(v as int),
{
    if v <= 25 {
        65 + v
    } else if v <= 51 {
        97 + v - 26
    } else if v <= 61 {
        48 + v - 52
    } else if v == 62 {
        43
    } else {
        47
    }
}

/// Base64-encodes a byte slice.
pub fn base64_encode(input: &[u8]) -> (r: Vec<u8>)
    ensures
        r@ == spec_base64(input@),
{
    let ghost s = input@;
    let n: usize = input.len();
    let mut out: Vec<u8> = Vec::new();
    let mut i: usize = 0;
    proof {
        assert(s.skip(0) =~= s);
        assert(out@ + spec_base64(s) =~= spec_base64(s));
    }
    while n - i >= 3
        invariant
            s == input@,
            n == s.len(),
            0 <= i <= n,
            spec_base64(s) == out@ + spec_base64(s.skip(i as int)),
        decreases n - i,
    {
        let b0: u8 = input[i];
        let b1: u8 = input[i + 1];
        let b2: u8 = input[i + 2];
        let ghost before = out@;
        out.push(b64_char_of(b0 >> 2));
        out.push(b64_char_of(((b0 & 3) << 4) | (b1 >> 4)));
        out.push(b64_char_of(((b1 & 15) << 2) | (b2 >> 6)));
        out.push(b64_char_of(b2 & 63));
        proof {
            let t = s.skip(i as int);
            assert(t[0] == s[i as int] && t[1] == s[i + 1] && t[2] == s[i + 2]);
            assert(t.skip(3) =~= s.skip(i + 3));
            assert(out@ =~= before + seq![
                b64_char((t[0] >> 2) as int),
                b64_char((((t[0] & 3) << 4) | (t[1] >> 4)) as int),
                b64_char((((t[1] & 15) << 2) | (t[2] >> 6)) as int),
                b64_char((t[2] & 63) as int),
            ]);
            assert(spec_base64(s) =~= out@ + spec_base64(s.skip(i + 3)));
        }
        i = i + 3;
    }
    if n - i == 1 {
        let b0: u8 = input[i];
        let ghost before = out@;
        out.push(b64_char_of(b0 >> 2));
        out.push(b64_char_of((b0 & 3) << 4));
        out.push(61);
        out.push(61);
        proof {
            let t = s.skip(i as int);
            assert(t.len() == 1 && t[0] == s[i as int]);
            assert(out@ =~= before + spec_base64(t));
            assert(out@ =~= spec_base64(s));
        }
    } else if n - i == 2 {
        let b0: u8 = input[i];
        let b1: u8 = input[i + 1];
        let ghost before = out@;
        out.push(b64_char_of(b0 >> 2));
        out.push(b64_char_of(((b0 & 3) << 4) | (b1 >> 4)));
        out.push(b64_char_of((b1 & 15) << 2));
        out.push(61);
        proof {
            let t = s.skip(i as int);
            assert(t.len() == 2 && t[0] == s[i as int] && t[1] == s[i + 1]);
            assert(out@ =~= before + spec_base64(t));
            assert(out@ =~= spec_base64(s));
        }
    } else {
        proof {
            assert(s.skip(i as int).len() == 0);
            assert(out@ =~= spec_base64(s));
        }
    }
    out
}

/// A sequence of ASCII bytes is valid UTF-8.
pub proof fn lemma_ascii_valid_utf8(b: Seq<u8>)
    requires
        forall|k: int| 0 <= k < b.len() ==> #[trigger] b[k] < 128,
    ensures
        valid_utf8(b),
{
    assert(b.subrange(0, 0) =~= Seq::<u8>::empty());
    assert(valid_utf8(Seq::<u8>::empty()));
    assert(partial_valid_utf8(b, 0));
    assert forall|i: int| 0 <= 0 <= i < b.len() <= b.len() implies #[trigger] is_leading_byte_width_1(
        b[i],
    ) by {
        let bi = b[i];
        assert((bi >> 7) == 0) by (bit_vector)
            requires bi < 128;
    }
    partial_valid_utf8_extend_ascii_block(b, 0, b.len() as int);
    assert(b.subrange(0, b.len() as int) =~= b);
}

} // verus!
