//! Chunked transfer decoding: self-delimiting chunks, each a hex size line
//! followed by that many bytes and a CRLF, ended by a zero-size chunk.

use vstd::prelude::*;

use crate::codec::{crlf_at, find_crlf_from, sat_usize, SharedResponseHandler, CR, LF};

verus! {

/// ASCII hexadecimal digit.
pub open spec fn is_hex(b: u8) -> bool {
    (48 <= b && b <= 57) || (97 <= b && b <= 102) || (65 <= b && b <= 70)
}

/// The value of a hexadecimal digit.
pub open spec fn hex_val(b: u8) -> int {
    if 48 <= b && b <= 57 {
        b - 48
    } else if 97 <= b && b <= 102 {
        b - 87
    } else if 65 <= b && b <= 70 {
        b - 55
    } else {
        0
    }
}

/// Length of the run of hex digits starting at `i`.
pub open spec fn hex_run(s: Seq<u8>, i: int) -> int
    decreases s.len() - i when 0 <= i <= s.len()
{
    if i == s.len() || !is_hex(s[i]) {
        0
    } else {
        1 + hex_run(s, i + 1)
    }
}

/// The number denoted by a sequence of hex digit bytes, most significant
/// first.
pub open spec fn hex_value(s: Seq<u8>) -> int
    decreases s.len()
{
    if s.len() == 0 {
        0
    } else {
        hex_value(s.drop_last()) * 16 + hex_val(s.last())
    }
}

/// What decoding a chunked stream yields.
pub enum ChunkSpec {
    /// The stream is complete; these are the payload bytes.
    Done(Seq<u8>),
    /// The stream is cut short; more bytes are needed.
    More,
    /// The framing is broken.
    Bad,
}

/// Decodes the chunked stream in `d` starting at `i`: a hex size line ending
/// in CRLF (anything between the digits and the CRLF is ignored), that many
/// payload bytes, a CRLF, and so on until a zero size followed by CRLF.
pub open spec fn dechunk_from(d: Seq<u8>, i: int) -> ChunkSpec
    decreases d.len() - i when 0 <= i <= d.len() via dechunk_from_decreases
{
    let run = hex_run(d, i);
    if run == 0 {
        if i == d.len() {
            ChunkSpec::More
        } else {
            ChunkSpec::Bad
        }
    } else {
        let sz = hex_value(d.subrange(i, i + run));
        match find_crlf_from(d, i + run) {
            None => ChunkSpec::More,
            Some(e) => {
                let data_start = e + 2;
                if sz == 0 {
                    if data_start + 2 <= d.len() {
                        if crlf_at(d, data_start) {
                            ChunkSpec::Done(Seq::empty())
                        } else {
                            ChunkSpec::Bad
                        }
                    } else {
                        ChunkSpec::More
                    }
                } else if data_start + sz + 2 <= d.len() {
                    if crlf_at(d, data_start + sz) {
                        match dechunk_from(d, data_start + sz + 2) {
                            ChunkSpec::Done(rest) => ChunkSpec::Done(
                                d.subrange(data_start, data_start + sz) + rest,
                            ),
                            ChunkSpec::More => ChunkSpec::More,
                            ChunkSpec::Bad => ChunkSpec::Bad,
                        }
                    } else {
                        ChunkSpec::Bad
                    }
                } else {
                    ChunkSpec::More
                }
            },
        }
    }
}

/// The scan position advances and stays in bounds at every recursive step
/// of `dechunk_from`.
#[via_fn]
proof fn dechunk_from_decreases(d: Seq<u8>, i: int) {
    if 0 <= i <= d.len() {
        let run = hex_run(d, i);
        lemma_hex_run_char(d, i);
        if run > 0 {
            lemma_hex_value_nonneg(d.subrange(i, i + run));
            crate::codec::lemma_find_crlf_from_char(d, i + run);
        }
    }
}

/// What decoding a chunked body produced.
pub enum DechunkOutcome {
    /// The terminal chunk was seen; this is the reassembled payload.
    Complete(Vec<u8>),
    /// The stream ends before the terminal chunk; more bytes are needed.
    Incomplete,
    /// The framing is broken.
    Malformed,
}

/// The length and saturated value of the hex digit run starting at `i`.
fn parse_hex_run(data: &[u8], i: usize) -> (r: (usize, usize))
    requires
        i <= data@.len(),
    ensures
        r.0 == hex_run(data@, i as int),
        i + r.0 <= data@.len(),
        r.1 == sat_usize(hex_value(data@.subrange(i as int, i + r.0))),
{
    let ghost d = data@;
    let n: usize = data.len();
    let mut j: usize = i;
    let mut value: usize = 0;
    proof {
        lemma_hex_run_char(d, i as int);
        assert(d.subrange(i as int, i as int) =~= Seq::<u8>::empty());
    }
    while j < n
        invariant
            d == data@,
            n == d.len(),
            i <= j <= n,
            j - i <= hex_run(d, i as int),
            i + hex_run(d, i as int) <= n,
            forall|k: int| i <= k < i + hex_run(d, i as int) ==> is_hex(#[trigger] d[k]),
            i + hex_run(d, i as int) == n || !is_hex(d[i + hex_run(d, i as int)]),
            value == sat_usize(hex_value(d.subrange(i as int, j as int))),
        decreases n - j,
    {
        let b: u8 = data[j];
        let hex_here: bool = (48 <= b && b <= 57) || (97 <= b && b <= 102) || (65 <= b && b <= 70);
        if !hex_here {
            proof {
                assert(j - i == hex_run(d, i as int));
            }
            return (j - i, value);
        }
        let digit: u8 = if 48 <= b && b <= 57 {
            b - 48
        } else if 97 <= b && b <= 102 {
            b - 87
        } else {
            b - 55
        };
        proof {
            let pre = d.subrange(i as int, j as int);
            let post = d.subrange(i as int, j + 1);
            assert(post.drop_last() =~= pre);
            lemma_hex_value_nonneg(pre);
            lemma_hex_sat_step(hex_value(pre), digit as int);
            assert(j - i < hex_run(d, i as int));
        }
        value = sat_mul16_add(value, digit);
        j = j + 1;
    }
    proof {
        assert(j - i == hex_run(d, i as int));
    }
    (j - i, value)
}

/// Multiplication by 16 and addition of a digit, saturating at `usize::MAX`.
fn sat_mul16_add(acc: usize, d: u8) -> (r: usize)
    requires
        d <= 15,
    ensures
        r == sat_usize(sat_usize(acc * 16) + d),
{
    let m: usize = match acc.checked_mul(16) {
        Some(v) => v,
        None => usize::MAX,
    };
    m.saturating_add(d as usize)
}

/// Saturated hex accumulation computes the saturated value of the whole
/// number.
proof fn lemma_hex_sat_step(v: int, d: int)
    requires
        v >= 0,
        0 <= d <= 15,
    ensures
        sat_usize(sat_usize(sat_usize(v) * 16) + d) == sat_usize(v * 16 + d),
{
    if v > usize::MAX {
        assert(v * 16 + d > usize::MAX) by (nonlinear_arith)
            requires v > usize::MAX && d >= 0;
        assert(usize::MAX * 16 > usize::MAX) by (nonlinear_arith);
    } else {
        if v * 16 > usize::MAX {
            assert(v * 16 + d > usize::MAX);
        }
    }
}

/// The value of a string of hex digits is never negative.
proof fn lemma_hex_value_nonneg(s: Seq<u8>)
    ensures
        hex_value(s) >= 0,
    decreases s.len(),
{
    if s.len() > 0 {
        lemma_hex_value_nonneg(s.drop_last());
        assert(hex_value(s.drop_last()) * 16 >= 0) by (nonlinear_arith)
            requires hex_value(s.drop_last()) >= 0;
        assert(hex_val(s.last()) >= 0);
    }
}

/// The hex run from `i`: every byte inside it is a hex digit, and the byte
/// just past it (if any) is not.
proof fn lemma_hex_run_char(s: Seq<u8>, i: int)
    requires
        0 <= i <= s.len(),
    ensures
        0 <= hex_run(s, i),
        i + hex_run(s, i) <= s.len(),
        forall|l: int| i <= l < i + hex_run(s, i) ==> is_hex(#[trigger] s[l]),
        i + hex_run(s, i) == s.len() || !is_hex(s[i + hex_run(s, i)]),
    decreases s.len() - i,
{
    if i < s.len() && is_hex(s[i]) {
        lemma_hex_run_char(s, i + 1);
    }
}

/// Reassembles a chunked body: the payload when the terminal chunk has
/// arrived, a report that more bytes are needed, or a report that the
/// framing is broken.
pub fn dechunk(data: &[u8], start: usize) -> (r: DechunkOutcome)
    requires
        start <= data@.len(),
    ensures
        match r {
            DechunkOutcome::Complete(v) => dechunk_from(data@, start as int) == ChunkSpec::Done(
                v@,
            ),
            DechunkOutcome::Incomplete => dechunk_from(data@, start as int) is More,
            DechunkOutcome::Malformed => dechunk_from(data@, start as int) is Bad,
        },
{
    let ghost d = data@;
    let n: usize = data.len();
    let mut acc: Vec<u8> = Vec::new();
    let mut i: usize = start;
    loop
        invariant
            d == data@,
            n == d.len(),
            start <= i <= n,
            dechunk_from(d, start as int) == (match dechunk_from(d, i as int) {
                ChunkSpec::Done(rest) => ChunkSpec::Done(acc@ + rest),
                ChunkSpec::More => ChunkSpec::More,
                ChunkSpec::Bad => ChunkSpec::Bad,
            }),
        decreases n - i,
    {
        let (run, size): (usize, usize) = parse_hex_run(data, i);
        let ghost sz = hex_value(d.subrange(i as int, i + run as int));
        proof {
            lemma_hex_value_nonneg(d.subrange(i as int, i + run as int));
        }
        if run == 0 {
            if i == n {
                return DechunkOutcome::Incomplete;
            }
            return DechunkOutcome::Malformed;
        }
        match SharedResponseHandler::find_crlf(data, i + run) {
            None => {
                return DechunkOutcome::Incomplete;
            },
            Some(e) => {
                proof {
                    crate::codec::lemma_find_crlf_from_char(d, i + run);
                }
                let data_start: usize = e + 2;
                if size == 0 {
                    proof {
                        assert(sz == 0);
                    }
                    if n - data_start >= 2 {
                        if data[data_start] == CR && data[data_start + 1] == LF {
                            return DechunkOutcome::Complete(acc);
                        }
                        return DechunkOutcome::Malformed;
                    }
                    return DechunkOutcome::Incomplete;
                }
                if n - data_start >= 2 && size <= n - data_start - 2 {
                    proof {
                        assert(sz == size);
                    }
                    if data[data_start + size] == CR && data[data_start + size + 1] == LF {
                        let ghost acc0 = acc@;
                        let mut k: usize = data_start;
                        proof {
                            assert(acc@ =~= acc0 + d.subrange(
                                data_start as int,
                                data_start as int,
                            ));
                        }
                        while k < data_start + size
                            invariant
                                d == data@,
                                n == d.len(),
                                data_start + size <= n,
                                data_start <= k <= data_start + size,
                                acc@ == acc0 + d.subrange(data_start as int, k as int),
                            decreases data_start + size - k,
                        {
                            acc.push(data[k]);
                            proof {
                                assert(acc@ =~= acc0 + d.subrange(data_start as int, k + 1));
                            }
                            k = k + 1;
                        }
                        proof {
                            let inext = data_start + size + 2;
                            assert(crlf_at(d, data_start + sz));
                            match dechunk_from(d, inext as int) {
                                ChunkSpec::Done(rest) => {
                                    assert(acc0 + (d.subrange(
                                        data_start as int,
                                        data_start + sz,
                                    ) + rest) =~= acc@ + rest);
                                },
                                ChunkSpec::More => {},
                                ChunkSpec::Bad => {},
                            }
                        }
                        i = data_start + size + 2;
                    } else {
                        return DechunkOutcome::Malformed;
                    }
                } else {
                    proof {
                        if size <= n {
                            assert(sz == size || sz > usize::MAX);
                        }
                        assert(data_start + sz + 2 > n);
                    }
                    return DechunkOutcome::Incomplete;
                }
            },
        }
    }
}

} // verus!
