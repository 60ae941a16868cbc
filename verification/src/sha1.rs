//! The SHA-1 digest, written out in full: padding, message schedule, the
//! eighty rounds, and the block fold, each mirrored by the specification
//! functions that define the digest.

use vstd::prelude::*;
use vstd::slice::slice_to_vec;

verus! {

/// Addition modulo 2^32.
pub open spec fn wadd(x: u32, y: u32) -> u32 {
    if x + y > u32::MAX {
        (x + y - 0x1_0000_0000) as u32
    } else {
        (x + y) as u32
    }
}

/// Rotation left by one bit.
pub open spec fn rotl1(x: u32) -> u32 {
    (x << 1u32) | (x >> 31u32)
}

/// Rotation left by five bits.
pub open spec fn rotl5(x: u32) -> u32 {
    (x << 5u32) | (x >> 27u32)
}

/// Rotation left by thirty bits.
pub open spec fn rotl30(x: u32) -> u32 {
    (x << 30u32) | (x >> 2u32)
}

/// The big-endian 32-bit word at offset `i` of a block.
pub open spec fn word_be(blk: Seq<u8>, i: int) -> u32 {
    ((blk[i] as u32) << 24u32) | ((blk[i + 1] as u32) << 16u32) | ((blk[i + 2] as u32) << 8u32) | (
    blk[i + 3] as u32)
}

/// The message schedule: the block's own words, then rotated XORs of
/// earlier entries.
pub open spec fn sched(blk: Seq<u8>, t: int) -> u32
    decreases t when 0 <= t
{
    if t < 16 {
        word_be(blk, 4 * t)
    } else {
        rotl1(sched(blk, t - 3) ^ sched(blk, t - 8) ^ sched(blk, t - 14) ^ sched(blk, t - 16))
    }
}

/// The round's mixing function: choice, parity, majority, parity.
pub open spec fn f_choice(t: int, b: u32, c: u32, d: u32) -> u32 {
    if t < 20 {
        (b & c) | ((!b) & d)
    } else if t < 40 {
        b ^ c ^ d
    } else if t < 60 {
        (b & c) | (b & d) | (c & d)
    } else {
        b ^ c ^ d
    }
}

/// The round constant.
pub open spec fn k_const(t: int) -> u32 {
    if t < 20 {
        0x5A827999
    } else if t < 40 {
        0x6ED9EBA1
    } else if t < 60 {
        0x8F1BBCDC
    } else {
        0xCA62C1D6
    }
}

/// The working state after `t` rounds over one block.
pub open spec fn rounds(blk: Seq<u8>, t: int, h: (u32, u32, u32, u32, u32)) -> (
    u32,
    u32,
    u32,
    u32,
    u32,
)
    decreases t when 0 <= t
{
    if t <= 0 {
        h
    } else {
        let p = rounds(blk, t - 1, h);
        let tmp = wadd(
            wadd(wadd(wadd(rotl5(p.0), f_choice(t - 1, p.1, p.2, p.3)), p.4), k_const(t - 1)),
            sched(blk, t - 1),
        );
        (tmp, p.0, rotl30(p.1), p.2, p.3)
    }
}

/// One block folded into the running digest state.
pub open spec fn compress(h: (u32, u32, u32, u32, u32), blk: Seq<u8>) -> (u32, u32, u32, u32, u32) {
    let r = rounds(blk, 80, h);
    (wadd(h.0, r.0), wadd(h.1, r.1), wadd(h.2, r.2), wadd(h.3, r.3), wadd(h.4, r.4))
}

/// Every full 64-byte block from `i` on folded into the state.
pub open spec fn fold_blocks(pm: Seq<u8>, i: int, h: (u32, u32, u32, u32, u32)) -> (
    u32,
    u32,
    u32,
    u32,
    u32,
)
    decreases pm.len() - i when 0 <= i
{
    if i + 64 <= pm.len() {
        fold_blocks(pm, i + 64, compress(h, pm.subrange(i, i + 64)))
    } else {
        h
    }
}

/// How many zero bytes the padding inserts for a message of length `l`.
pub open spec fn zero_pad_len(l: int) -> int {
    let r = l % 64;
    if r <= 55 {
        55 - r
    } else {
        119 - r
    }
}

/// A 64-bit value as eight big-endian bytes.
pub open spec fn len_be(v: u64) -> Seq<u8> {
    seq![
        (v >> 56u64) as u8,
        ((v >> 48u64) & 0xff) as u8,
        ((v >> 40u64) & 0xff) as u8,
        ((v >> 32u64) & 0xff) as u8,
        ((v >> 24u64) & 0xff) as u8,
        ((v >> 16u64) & 0xff) as u8,
        ((v >> 8u64) & 0xff) as u8,
        (v & 0xff) as u8,
    ]
}

/// The message's length in bits, modulo 2^64.
pub open spec fn spec_bitlen(l: int) -> u64 {
    ((l * 8) % 0x1_0000_0000_0000_0000) as u64
}

/// The padded message: the message, one 0x80 byte, zeros up to 56 modulo 64,
/// and the bit length in eight big-endian bytes.
pub open spec fn sha1_pad(m: Seq<u8>) -> Seq<u8> {
    m + seq![128u8] + Seq::new(zero_pad_len(m.len() as int) as nat, |i: int| 0u8) + len_be(
        spec_bitlen(m.len() as int),
    )
}

/// The initial digest state.
pub open spec fn h_init() -> (u32, u32, u32, u32, u32) {
    (0x67452301, 0xEFCDAB89, 0x98BADCFE, 0x10325476, 0xC3D2E1F0)
}

/// A digest word as four big-endian bytes.
pub open spec fn word_bytes(h: u32) -> Seq<u8> {
    seq![
        (h >> 24u32) as u8,
        ((h >> 16u32) & 0xff) as u8,
        ((h >> 8u32) & 0xff) as u8,
        (h & 0xff) as u8,
    ]
}

/// The SHA-1 digest of a message: pad, fold every block, write the five
/// state words out big-endian.
pub open spec fn spec_sha1(m: Seq<u8>) -> Seq<u8> {
    let h = fold_blocks(sha1_pad(m), 0, h_init());
    word_bytes(h.0) + word_bytes(h.1) + word_bytes(h.2) + word_bytes(h.3) + word_bytes(h.4)
}

/// Addition modulo 2^32, executably.
fn wadd_exec(x: u32, y: u32) -> (r: u32)
    ensures
        r == wadd(x, y),
{
    x.wrapping_add(y)
}

/// The SHA-1 digest of `msg`, as twenty bytes.
pub fn sha1(msg: &[u8]) -> (r: Vec<u8>)
    ensures
        r@ == spec_sha1(msg@),
        r@.len() == 20,
{
    let ghost s = msg@;
    let n: usize = msg.len();

    // Padding.
    let mut pm: Vec<u8> = slice_to_vec(msg);
    pm.push(128);
    let rem: usize = n % 64;
    let z: usize = if rem <= 55 {
        55 - rem
    } else {
        119 - rem
    };
    let mut zi: usize = 0;
    while zi < z
        invariant
            0 <= zi <= z,
            pm@ == s + seq![128u8] + Seq::new(zi as nat, |i: int| 0u8),
        decreases z - zi,
    {
        pm.push(0);
        proof {
            assert(pm@ =~= s + seq![128u8] + Seq::new((zi + 1) as nat, |i: int| 0u8));
        }
        zi = zi + 1;
    }
    let bitlen: u64 = (n as u64).wrapping_mul(8);
    proof {
        assert(bitlen == spec_bitlen(n as int));
    }
    pm.push((bitlen >> 56) as u8);
    pm.push(((bitlen >> 48) & 0xff) as u8);
    pm.push(((bitlen >> 40) & 0xff) as u8);
    pm.push(((bitlen >> 32) & 0xff) as u8);
    pm.push(((bitlen >> 24) & 0xff) as u8);
    pm.push(((bitlen >> 16) & 0xff) as u8);
    pm.push(((bitlen >> 8) & 0xff) as u8);
    pm.push((bitlen & 0xff) as u8);
    proof {
        assert(pm@ =~= sha1_pad(s));
    }

    // Block fold.
    let pn: usize = pm.len();
    let mut h0: u32 = 0x67452301;
    let mut h1: u32 = 0xEFCDAB89;
    let mut h2: u32 = 0x98BADCFE;
    let mut h3: u32 = 0x10325476;
    let mut h4: u32 = 0xC3D2E1F0;
    let mut base: usize = 0;
    while pn >= 64 && base <= pn - 64
        invariant
            pm@ == sha1_pad(s),
            pn == pm@.len(),
            0 <= base <= pn,
            fold_blocks(pm@, 0, h_init()) == fold_blocks(pm@, base as int, (h0, h1, h2, h3, h4)),
        decreases pn - base,
    {
        let ghost blk = pm@.subrange(base as int, base + 64);
        let ghost hcur = (h0, h1, h2, h3, h4);

        // Message schedule.
        let mut w: Vec<u32> = Vec::new();
        let mut t: usize = 0;
        while t < 16
            invariant
                pm@ == sha1_pad(s),
                pn == pm@.len(),
                base + 64 <= pn,
                blk == pm@.subrange(base as int, base + 64),
                0 <= t <= 16,
                w@.len() == t,
                forall|j: int| 0 <= j < t ==> w@[j] == sched(blk, j),
            decreases 16 - t,
        {
            let b0: u8 = pm[base + 4 * t];
            let b1: u8 = pm[base + 4 * t + 1];
            let b2: u8 = pm[base + 4 * t + 2];
            let b3: u8 = pm[base + 4 * t + 3];
            let word: u32 = ((b0 as u32) << 24) | ((b1 as u32) << 16) | ((b2 as u32) << 8) | (
            b3 as u32);
            proof {
                assert(blk[4 * t] == pm@[base + 4 * t]);
                assert(blk[4 * t + 1] == pm@[base + 4 * t + 1]);
                assert(blk[4 * t + 2] == pm@[base + 4 * t + 2]);
                assert(blk[4 * t + 3] == pm@[base + 4 * t + 3]);
                assert(word == word_be(blk, 4 * t));
            }
            w.push(word);
            t = t + 1;
        }
        while t < 80
            invariant
                16 <= t <= 80,
                w@.len() == t,
                base + 64 <= pn,
                pn == pm@.len(),
                blk == pm@.subrange(base as int, base + 64),
                forall|j: int| 0 <= j < t ==> w@[j] == sched(blk, j),
            decreases 80 - t,
        {
            let x: u32 = w[t - 3] ^ w[t - 8] ^ w[t - 14] ^ w[t - 16];
            let word: u32 = (x << 1) | (x >> 31);
            proof {
                assert(w@[t - 3] == sched(blk, t - 3));
                assert(w@[t - 8] == sched(blk, t - 8));
                assert(w@[t - 14] == sched(blk, t - 14));
                assert(w@[t - 16] == sched(blk, t - 16));
                assert(x == (sched(blk, t - 3) ^ sched(blk, t - 8) ^ sched(blk, t - 14) ^ sched(
                    blk,
                    t - 16,
                )));
                assert(sched(blk, t as int) == rotl1(
                    sched(blk, t - 3) ^ sched(blk, t - 8) ^ sched(blk, t - 14) ^ sched(blk, t - 16),
                ));
                assert(word == sched(blk, t as int));
            }
            w.push(word);
            t = t + 1;
        }

        // Eighty rounds.
        let mut a: u32 = h0;
        let mut b: u32 = h1;
        let mut c: u32 = h2;
        let mut d: u32 = h3;
        let mut e: u32 = h4;
        let mut rt: usize = 0;
        while rt < 80
            invariant
                0 <= rt <= 80,
                w@.len() == 80,
                base + 64 <= pn,
                pn == pm@.len(),
                blk == pm@.subrange(base as int, base + 64),
                forall|j: int| 0 <= j < 80 ==> w@[j] == sched(blk, j),
                hcur == (h0, h1, h2, h3, h4),
                (a, b, c, d, e) == rounds(blk, rt as int, hcur),
            decreases 80 - rt,
        {
            let f: u32 = if rt < 20 {
                (b & c) | ((!b) & d)
            } else if rt < 40 {
                b ^ c ^ d
            } else if rt < 60 {
                (b & c) | (b & d) | (c & d)
            } else {
                b ^ c ^ d
            };
            let k: u32 = if rt < 20 {
                0x5A827999
            } else if rt < 40 {
                0x6ED9EBA1
            } else if rt < 60 {
                0x8F1BBCDC
            } else {
                0xCA62C1D6
            };
            let rot_a: u32 = (a << 5) | (a >> 27);
            let tmp: u32 = wadd_exec(wadd_exec(wadd_exec(wadd_exec(rot_a, f), e), k), w[rt]);
            proof {
                assert(f == f_choice(rt as int, b, c, d));
                assert(k == k_const(rt as int));
                assert((tmp, a, rotl30(b), c, d) == rounds(blk, rt + 1, hcur));
            }
            e = d;
            d = c;
            c = (b << 30) | (b >> 2);
            b = a;
            a = tmp;
            rt = rt + 1;
        }
        h0 = wadd_exec(h0, a);
        h1 = wadd_exec(h1, b);
        h2 = wadd_exec(h2, c);
        h3 = wadd_exec(h3, d);
        h4 = wadd_exec(h4, e);
        proof {
            assert((h0, h1, h2, h3, h4) == compress(hcur, blk));
            assert(fold_blocks(pm@, base as int, hcur) == fold_blocks(
                pm@,
                base + 64,
                (h0, h1, h2, h3, h4),
            ));
        }
        base = base + 64;
    }

    // Output.
    let mut out: Vec<u8> = Vec::new();
    out.push((h0 >> 24) as u8);
    out.push(((h0 >> 16) & 0xff) as u8);
    out.push(((h0 >> 8) & 0xff) as u8);
    out.push((h0 & 0xff) as u8);
    out.push((h1 >> 24) as u8);
    out.push(((h1 >> 16) & 0xff) as u8);
    out.push(((h1 >> 8) & 0xff) as u8);
    out.push((h1 & 0xff) as u8);
    out.push((h2 >> 24) as u8);
    out.push(((h2 >> 16) & 0xff) as u8);
    out.push(((h2 >> 8) & 0xff) as u8);
    out.push((h2 & 0xff) as u8);
    out.push((h3 >> 24) as u8);
    out.push(((h3 >> 16) & 0xff) as u8);
    out.push(((h3 >> 8) & 0xff) as u8);
    out.push((h3 & 0xff) as u8);
    out.push((h4 >> 24) as u8);
    out.push(((h4 >> 16) & 0xff) as u8);
    out.push(((h4 >> 8) & 0xff) as u8);
    out.push((h4 & 0xff) as u8);
    proof {
        assert(out@ =~= spec_sha1(s));
    }
    out
}

} // verus!
