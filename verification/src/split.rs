//! Byte-slice splitting helpers: by whitespace, and by a multi-byte
//! delimiter.

use vstd::prelude::*;
use vstd::slice::slice_subrange;

use crate::codec::is_ws;

verus! {

/// The split of `s` by whitespace, scanning from `i` with the current part
/// starting at `start`: maximal non-empty runs of non-whitespace bytes.
pub open spec fn split_ws_from(s: Seq<u8>, i: int, start: int) -> Seq<Seq<u8>>
    decreases s.len() - i when 0 <= start <= i <= s.len()
{
    if i >= s.len() {
        if start < s.len() {
            seq![s.subrange(start, s.len() as int)]
        } else {
            Seq::empty()
        }
    } else if is_ws(s[i]) {
        if i > start {
            seq![s.subrange(start, i)] + split_ws_from(s, i + 1, i + 1)
        } else {
            split_ws_from(s, i + 1, i + 1)
        }
    } else {
        split_ws_from(s, i + 1, start)
    }
}

/// What `split_whitespace` returns.
pub open spec fn spec_split_whitespace(s: Seq<u8>) -> Seq<Seq<u8>> {
    split_ws_from(s, 0, 0)
}

/// The delimiter occurs exactly at offset `i` of `d`.
pub open spec fn delim_at(d: Seq<u8>, delim: Seq<u8>, i: int) -> bool {
    &&& 0 <= i
    &&& i + delim.len() <= d.len()
    &&& d.subrange(i, i + delim.len()) == delim
}

/// The split of `d` by a non-empty delimiter, scanning from `i` with the
/// current part starting at `start`; a trailing empty part is dropped.
pub open spec fn split_mb_from(d: Seq<u8>, delim: Seq<u8>, i: int, start: int) -> Seq<Seq<u8>>
    decreases d.len() - i when 0 <= start <= i <= d.len() && delim.len() > 0
{
    if i >= d.len() {
        if start < d.len() {
            seq![d.subrange(start, d.len() as int)]
        } else {
            Seq::empty()
        }
    } else if delim_at(d, delim, i) {
        seq![d.subrange(start, i)] + split_mb_from(d, delim, i + delim.len(), i + delim.len())
    } else {
        split_mb_from(d, delim, i + 1, start)
    }
}

/// What `split_multi_byte` returns: with an empty delimiter, one empty part
/// per scan position; otherwise the parts between delimiter occurrences.
pub open spec fn spec_split_multi_byte(d: Seq<u8>, delim: Seq<u8>) -> Seq<Seq<u8>> {
    if delim.len() == 0 {
        Seq::new(d.len() + 1, |i: int| Seq::<u8>::empty())
    } else {
        split_mb_from(d, delim, 0, 0)
    }
}

/// Splits a byte slice into its maximal runs of non-whitespace bytes
/// (whitespace being space or tab).
pub fn split_whitespace<'a>(input: &'a [u8]) -> (r: Vec<&'a [u8]>)
    ensures
        r.deep_view() == spec_split_whitespace(input@),
{
    let ghost s = input@;
    let n: usize = input.len();
    let mut parts: Vec<&'a [u8]> = Vec::new();
    let mut start: usize = 0;
    let mut i: usize = 0;
    while i < n
        invariant
            s == input@,
            n == s.len(),
            0 <= start <= i <= n,
            spec_split_whitespace(s) == parts.deep_view() + split_ws_from(s, i as int, start as int),
        decreases n - i,
    {
        let byte: u8 = input[i];
        if byte == 32 || byte == 9 {
            if i > start {
                let ghost before = parts.deep_view();
                parts.push(slice_subrange(input, start, i));
                proof {
                    assert(parts.deep_view() =~~= before + seq![s.subrange(start as int, i as int)]);
                    assert(parts.deep_view() + split_ws_from(s, i + 1, i + 1) =~= before + (seq![
                        s.subrange(start as int, i as int),
                    ] + split_ws_from(s, i + 1, i + 1)));
                }
            }
            start = i + 1;
        }
        i = i + 1;
    }
    if start < n {
        let ghost before = parts.deep_view();
        parts.push(slice_subrange(input, start, n));
        proof {
            assert(parts.deep_view() =~~= before + seq![s.subrange(start as int, n as int)]);
        }
    }
    proof {
        assert(spec_split_whitespace(s) =~= parts.deep_view());
    }
    parts
}

/// Splits a byte slice at each occurrence of a delimiter sequence,
/// considering occurrences from left to right without overlap.
pub fn split_multi_byte<'a>(data: &'a [u8], delimiter: &'a [u8]) -> (r: Vec<&'a [u8]>)
    ensures
        r.deep_view() == spec_split_multi_byte(data@, delimiter@),
{
    let ghost d = data@;
    let ghost dl = delimiter@;
    let n: usize = data.len();
    let dn: usize = delimiter.len();
    let mut result: Vec<&'a [u8]> = Vec::new();
    if dn == 0 {
        let mut i: usize = 0;
        while i < n
            invariant
                d == data@,
                n == d.len(),
                0 <= i <= n,
                result@.len() == i,
                forall|k: int| 0 <= k < i ==> (#[trigger] result@[k])@ == Seq::<u8>::empty(),
            decreases n - i,
        {
            let piece: &[u8] = slice_subrange(data, i, i);
            proof {
                assert(piece@ =~= Seq::<u8>::empty());
            }
            result.push(piece);
            i = i + 1;
        }
        let piece: &[u8] = slice_subrange(data, n, n);
        proof {
            assert(piece@ =~= Seq::<u8>::empty());
        }
        result.push(piece);
        proof {
            assert(result.deep_view() =~~= spec_split_multi_byte(d, dl));
        }
        return result;
    }
    let mut start: usize = 0;
    let mut i: usize = 0;
    while i < n
        invariant
            d == data@,
            dl == delimiter@,
            n == d.len(),
            dn == dl.len(),
            dn > 0,
            0 <= start <= i <= n,
            spec_split_multi_byte(d, dl) == result.deep_view() + split_mb_from(
                d,
                dl,
                i as int,
                start as int,
            ),
        decreases n - i,
    {
        let mut here: bool = dn <= n - i;
        if here {
            let window: &[u8] = slice_subrange(data, i, i + dn);
            here = slices_equal(window, delimiter);
        }
        if here {
            proof {
                assert(delim_at(d, dl, i as int));
            }
            let ghost before = result.deep_view();
            result.push(slice_subrange(data, start, i));
            proof {
                assert(result.deep_view() =~~= before + seq![d.subrange(start as int, i as int)]);
                assert(result.deep_view() + split_mb_from(d, dl, i + dn, i + dn) =~= before + (seq![
                    d.subrange(start as int, i as int),
                ] + split_mb_from(d, dl, i + dn, i + dn)));
            }
            start = i + dn;
            i = i + dn;
        } else {
            proof {
                if i + dn <= n {
                    assert(!delim_at(d, dl, i as int));
                } else {
                    assert(!delim_at(d, dl, i as int));
                }
            }
            i = i + 1;
        }
    }
    if start < n {
        let ghost before = result.deep_view();
        result.push(slice_subrange(data, start, n));
        proof {
            assert(result.deep_view() =~~= before + seq![d.subrange(start as int, n as int)]);
        }
    }
    proof {
        assert(spec_split_multi_byte(d, dl) =~= result.deep_view());
    }
    result
}

/// Element-wise equality of two byte slices.
pub fn slices_equal(a: &[u8], b: &[u8]) -> (r: bool)
    ensures
        r == (a@ == b@),
{
    if a.len() != b.len() {
        proof {
            assert(a@.len() != b@.len());
        }
        return false;
    }
    let n: usize = a.len();
    let mut i: usize = 0;
    while i < n
        invariant
            n == a@.len(),
            n == b@.len(),
            0 <= i <= n,
            forall|k: int| 0 <= k < i ==> a@[k] == b@[k],
        decreases n - i,
    {
        if a[i] != b[i] {
            return false;
        }
        i = i + 1;
    }
    proof {
        assert(a@ =~= b@);
    }
    true
}

} // verus!
