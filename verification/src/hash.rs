//! The 64-bit payload hash used by the journal format: a paired Jenkins
//! lookup3 hash with two 32-bit outputs `(c, b)` combined as
//! `(c << 32) | b`. Every function is specified against a pure model of
//! the algorithm, so the result depends on the input bytes alone.

use vstd::prelude::*;
use crate::primitives::{le16_at, le32_at};

verus! {

/// 32-bit wrapping addition.
pub open spec fn w_add(x: u32, y: u32) -> u32 {
    ((x + y) % 0x1_0000_0000) as u32
}

/// 32-bit wrapping subtraction.
pub open spec fn w_sub(x: u32, y: u32) -> u32 {
    ((x + 0x1_0000_0000 - y) % 0x1_0000_0000) as u32
}

/// Left rotation of a 32-bit word.
pub open spec fn spec_rot(x: u32, k: u32) -> u32
    recommends
        0 < k < 32,
{
    (x << k) | (x >> ((32 - k) as u32))
}

/// One mixing round over the three state words.
pub open spec fn spec_mix(a: u32, b: u32, c: u32) -> (u32, u32, u32) {
    let a1 = w_sub(a, c);
    let a2 = a1 ^ spec_rot(c, 4);
    let c1 = w_add(c, b);
    let b1 = w_sub(b, a2);
    let b2 = b1 ^ spec_rot(a2, 6);
    let a3 = w_add(a2, c1);
    let c2 = w_sub(c1, b2);
    let c3 = c2 ^ spec_rot(b2, 8);
    let b3 = w_add(b2, a3);
    let a4 = w_sub(a3, c3);
    let a5 = a4 ^ spec_rot(c3, 16);
    let c4 = w_add(c3, b3);
    let b4 = w_sub(b3, a5);
    let b5 = b4 ^ spec_rot(a5, 19);
    let a6 = w_add(a5, c4);
    let c5 = w_sub(c4, b5);
    let c6 = c5 ^ spec_rot(b5, 4);
    let b6 = w_add(b5, a6);
    (a6, b6, c6)
}

/// The closing scramble applied after the last block.
pub open spec fn spec_mix_final(a: u32, b: u32, c: u32) -> (u32, u32, u32) {
    let c1 = c ^ b;
    let c2 = w_sub(c1, spec_rot(b, 14));
    let a1 = a ^ c2;
    let a2 = w_sub(a1, spec_rot(c2, 11));
    let b1 = b ^ a2;
    let b2 = w_sub(b1, spec_rot(a2, 25));
    let c3 = c2 ^ b2;
    let c4 = w_sub(c3, spec_rot(b2, 16));
    let a3 = a2 ^ c4;
    let a4 = w_sub(a3, spec_rot(c4, 4));
    let b3 = b2 ^ a4;
    let b4 = w_sub(b3, spec_rot(a4, 14));
    let c5 = c4 ^ b4;
    let c6 = w_sub(c5, spec_rot(b4, 24));
    (a4, b4, c6)
}

/// A full little-endian 32-bit word read from four bytes.
pub open spec fn word32(s: Seq<u8>, i: int) -> u32 {
    le32_at(s, i) as u32
}

/// A partial word from three bytes.
pub open spec fn word24(s: Seq<u8>, i: int) -> u32 {
    (s[i] + 0x100 * s[i + 1] + 0x1_0000 * s[i + 2]) as u32
}

/// A partial word from two bytes.
pub open spec fn word16(s: Seq<u8>, i: int) -> u32 {
    le16_at(s, i) as u32
}

/// A partial word from one byte.
pub open spec fn word8(s: Seq<u8>, i: int) -> u32 {
    s[i] as u32
}

/// Folds all full 12-byte blocks (all but the last block) into the state.
pub open spec fn jenkins_blocks(k: Seq<u8>, st: (u32, u32, u32)) -> (u32, u32, u32)
    decreases k.len(),
{
    if k.len() > 12 {
        let st1 = spec_mix(
            w_add(st.0, word32(k, 0)),
            w_add(st.1, word32(k, 4)),
            w_add(st.2, word32(k, 8)),
        );
        jenkins_blocks(k.skip(12), st1)
    } else {
        st
    }
}

/// The trailing block (at most 12 bytes) left over after `jenkins_blocks`.
pub open spec fn jenkins_rest(k: Seq<u8>) -> Seq<u8>
    decreases k.len(),
{
    if k.len() > 12 {
        jenkins_rest(k.skip(12))
    } else {
        k
    }
}

/// Folds the trailing 1-12 bytes into the state, by length.
pub open spec fn jenkins_tail(k: Seq<u8>, st: (u32, u32, u32)) -> (u32, u32, u32)
    recommends
        1 <= k.len() <= 12,
{
    let a = st.0;
    let b = st.1;
    let c = st.2;
    let n = k.len() as int;
    if n == 12 {
        (w_add(a, word32(k, 0)), w_add(b, word32(k, 4)), w_add(c, word32(k, 8)))
    } else if n == 11 {
        (w_add(a, word32(k, 0)), w_add(b, word32(k, 4)), w_add(c, word24(k, 8)))
    } else if n == 10 {
        (w_add(a, word32(k, 0)), w_add(b, word32(k, 4)), w_add(c, word16(k, 8)))
    } else if n == 9 {
        (w_add(a, word32(k, 0)), w_add(b, word32(k, 4)), w_add(c, word8(k, 8)))
    } else if n == 8 {
        (w_add(a, word32(k, 0)), w_add(b, word32(k, 4)), c)
    } else if n == 7 {
        (w_add(a, word32(k, 0)), w_add(b, word24(k, 4)), c)
    } else if n == 6 {
        (w_add(a, word32(k, 0)), w_add(b, word16(k, 4)), c)
    } else if n == 5 {
        (w_add(a, word32(k, 0)), w_add(b, word8(k, 4)), c)
    } else if n == 4 {
        (w_add(a, word32(k, 0)), b, c)
    } else if n == 3 {
        (w_add(a, word24(k, 0)), b, c)
    } else if n == 2 {
        (w_add(a, word16(k, 0)), b, c)
    } else {
        (w_add(a, word8(k, 0)), b, c)
    }
}

/// The paired hash over a byte string. Only the first `len % 2^32` bytes
/// take part, mirroring the 32-bit length register of the algorithm.
#[verifier::opaque]
pub open spec fn spec_hashlittle2(key: Seq<u8>, pc: u32, pb: u32) -> (u32, u32) {
    let m = key.len() % 0x1_0000_0000;
    let kk = key.take(m as int);
    let a0 = w_add(w_add(0xdeadbeefu32, m as u32), pc);
    let st0 = (a0, a0, w_add(a0, pb));
    let st1 = jenkins_blocks(kk, st0);
    let rest = jenkins_rest(kk);
    if rest.len() == 0 {
        (st1.2, st1.1)
    } else {
        let st2 = jenkins_tail(rest, st1);
        let f = spec_mix_final(st2.0, st2.1, st2.2);
        (f.2, f.1)
    }
}

/// The single-output hash: the better-mixed word of the pair, second seed zero.
pub open spec fn spec_hashlittle(key: Seq<u8>, init_val: u32) -> u32 {
    spec_hashlittle2(key, init_val, 0).0
}

/// The 64-bit hash stored by the journal format: both seeds zero,
/// outputs combined as `(c << 32) | b`.
pub open spec fn spec_rhash64(key: Seq<u8>) -> u64 {
    let p = spec_hashlittle2(key, 0, 0);
    ((p.0 as u64) << 32) | (p.1 as u64)
}

fn wadd(x: u32, y: u32) -> (r: u32)
    ensures
        r == w_add(x, y),
{
    (((x as u64) + (y as u64)) % 0x1_0000_0000) as u32
}

fn wsub(x: u32, y: u32) -> (r: u32)
    ensures
        r == w_sub(x, y),
{
    (((x as u64) + 0x1_0000_0000 - (y as u64)) % 0x1_0000_0000) as u32
}

fn rot(x: u32, k: u32) -> (r: u32)
    requires
        0 < k < 32,
    ensures
        r == spec_rot(x, k),
{
    (x << k) | (x >> (32 - k))
}

fn mix(a: &mut u32, b: &mut u32, c: &mut u32)
    ensures
        (*final(a), *final(b), *final(c)) == spec_mix(*old(a), *old(b), *old(c)),
{
    *a = wsub(*a, *c);
    *a = *a ^ rot(*c, 4);
    *c = wadd(*c, *b);
    *b = wsub(*b, *a);
    *b = *b ^ rot(*a, 6);
    *a = wadd(*a, *c);
    *c = wsub(*c, *b);
    *c = *c ^ rot(*b, 8);
    *b = wadd(*b, *a);
    *a = wsub(*a, *c);
    *a = *a ^ rot(*c, 16);
    *c = wadd(*c, *b);
    *b = wsub(*b, *a);
    *b = *b ^ rot(*a, 19);
    *a = wadd(*a, *c);
    *c = wsub(*c, *b);
    *c = *c ^ rot(*b, 4);
    *b = wadd(*b, *a);
}

fn mix_final(a: &mut u32, b: &mut u32, c: &mut u32)
    ensures
        (*final(a), *final(b), *final(c)) == spec_mix_final(*old(a), *old(b), *old(c)),
{
    *c = *c ^ *b;
    *c = wsub(*c, rot(*b, 14));
    *a = *a ^ *c;
    *a = wsub(*a, rot(*c, 11));
    *b = *b ^ *a;
    *b = wsub(*b, rot(*a, 25));
    *c = *c ^ *b;
    *c = wsub(*c, rot(*b, 16));
    *a = *a ^ *c;
    *a = wsub(*a, rot(*c, 4));
    *b = *b ^ *a;
    *b = wsub(*b, rot(*a, 14));
    *c = *c ^ *b;
    *c = wsub(*c, rot(*b, 24));
}

proof fn lemma_le32_suffix(s: Seq<u8>, m: int, i: int)
    requires
        0 <= i,
        i + 4 <= m <= s.len(),
    ensures
        word32(s.take(m).skip(i), 0) == word32(s, i),
{
    let t = s.take(m).skip(i);
    assert(t[0] == s[i]);
    assert(t[1] == s[i + 1]);
    assert(t[2] == s[i + 2]);
    assert(t[3] == s[i + 3]);
}

/// Paired Jenkins lookup3 hash of a byte string with two seeds; returns
/// `(c, b)` where `c` is the better-mixed output.
pub fn hashlittle2(key: &[u8], pc: u32, pb: u32) -> (r: (u32, u32))
    ensures
        r == spec_hashlittle2(key@, pc, pb),
{
    let ghost m: int = (key@.len() % 0x1_0000_0000) as int;
    let ghost kk: Seq<u8> = key@.take(m);
    proof {
        vstd::arithmetic::div_mod::lemma_mod_decreases(key@.len(), 0x1_0000_0000);
    }
    let length0: u64 = (key.len() as u64) % 0x1_0000_0000;
    let mut rem: u32 = length0 as u32;

    let mut a: u32 = wadd(wadd(0xdeadbeefu32, rem), pc);
    let mut b: u32 = a;
    let mut c: u32 = wadd(a, pb);
    let ghost st0: (u32, u32, u32) = (a, b, c);
    proof {
        assert(kk.skip(0) =~= kk);
    }

    let mut i: usize = 0;
    while rem > 12
        invariant
            m == key@.len() % 0x1_0000_0000,
            m <= key@.len(),
            kk == key@.take(m),
            i + rem == m,
            jenkins_blocks(kk, st0) == jenkins_blocks(kk.skip(i as int), (a, b, c)),
            jenkins_rest(kk) == jenkins_rest(kk.skip(i as int)),
        decreases rem,
    {
        let w0 = crate::primitives::read_u32_le(key, i);
        let w1 = crate::primitives::read_u32_le(key, i + 4);
        let w2 = crate::primitives::read_u32_le(key, i + 8);
        a = wadd(a, w0);
        b = wadd(b, w1);
        c = wadd(c, w2);
        mix(&mut a, &mut b, &mut c);
        proof {
            lemma_le32_suffix(key@, m, i as int);
            lemma_le32_suffix(key@, m, i + 4);
            lemma_le32_suffix(key@, m, i + 8);
            assert(kk.skip(i as int).skip(12) =~= kk.skip(i + 12));
            assert(word32(kk.skip(i as int), 4) == word32(kk.skip(i + 4), 0));
            assert(word32(kk.skip(i as int), 8) == word32(kk.skip(i + 8), 0));
        }
        i = i + 12;
        rem = rem - 12;
    }

    let ghost rest: Seq<u8> = kk.skip(i as int);
    proof {
        reveal(spec_hashlittle2);
        assert(rest.len() == rem);
        assert(jenkins_rest(kk) == rest);
        assert(jenkins_blocks(kk, st0) == (a, b, c));
    }

    if rem == 0 {
        return (c, b);
    }

    proof {
        assert forall|j: int| 0 <= j < rem implies rest[j] == key@[i + j] by {}
    }

    if rem == 12 {
        a = wadd(a, crate::primitives::read_u32_le(key, i));
        b = wadd(b, crate::primitives::read_u32_le(key, i + 4));
        c = wadd(c, crate::primitives::read_u32_le(key, i + 8));
    } else if rem == 11 {
        let w = key[i + 8] as u32 + 0x100 * (key[i + 9] as u32) + 0x1_0000 * (key[i + 10] as u32);
        a = wadd(a, crate::primitives::read_u32_le(key, i));
        b = wadd(b, crate::primitives::read_u32_le(key, i + 4));
        c = wadd(c, w);
    } else if rem == 10 {
        let w = key[i + 8] as u32 + 0x100 * (key[i + 9] as u32);
        a = wadd(a, crate::primitives::read_u32_le(key, i));
        b = wadd(b, crate::primitives::read_u32_le(key, i + 4));
        c = wadd(c, w);
    } else if rem == 9 {
        let w = key[i + 8] as u32;
        a = wadd(a, crate::primitives::read_u32_le(key, i));
        b = wadd(b, crate::primitives::read_u32_le(key, i + 4));
        c = wadd(c, w);
    } else if rem == 8 {
        a = wadd(a, crate::primitives::read_u32_le(key, i));
        b = wadd(b, crate::primitives::read_u32_le(key, i + 4));
    } else if rem == 7 {
        let w = key[i + 4] as u32 + 0x100 * (key[i + 5] as u32) + 0x1_0000 * (key[i + 6] as u32);
        a = wadd(a, crate::primitives::read_u32_le(key, i));
        b = wadd(b, w);
    } else if rem == 6 {
        let w = key[i + 4] as u32 + 0x100 * (key[i + 5] as u32);
        a = wadd(a, crate::primitives::read_u32_le(key, i));
        b = wadd(b, w);
    } else if rem == 5 {
        let w = key[i + 4] as u32;
        a = wadd(a, crate::primitives::read_u32_le(key, i));
        b = wadd(b, w);
    } else if rem == 4 {
        a = wadd(a, crate::primitives::read_u32_le(key, i));
    } else if rem == 3 {
        let w = key[i] as u32 + 0x100 * (key[i + 1] as u32) + 0x1_0000 * (key[i + 2] as u32);
        a = wadd(a, w);
    } else if rem == 2 {
        let w = key[i] as u32 + 0x100 * (key[i + 1] as u32);
        a = wadd(a, w);
    } else {
        let w = key[i] as u32;
        a = wadd(a, w);
    }

    proof {
        assert((a, b, c) == jenkins_tail(rest, jenkins_blocks(kk, st0)));
    }

    mix_final(&mut a, &mut b, &mut c);
    (c, b)
}

/// Single-output Jenkins lookup3 hash of a byte string.
pub fn hashlittle(key: &[u8], init_val: u32) -> (r: u32)
    ensures
        r == spec_hashlittle(key@, init_val),
{
    let p = hashlittle2(key, init_val, 0);
    p.0
}

/// The combined 64-bit hash the journal format stores next to each payload.
pub fn rhash64(data: &[u8]) -> (r: u64)
    ensures
        r == spec_rhash64(data@),
{
    let p = hashlittle2(data, 0, 0);
    ((p.0 as u64) << 32u64) | (p.1 as u64)
}

/// The payload hash depends on the bytes alone: equal byte runs at any two
/// positions of any two buffers hash identically, so the result is
/// deterministic and independent of input-buffer alignment.
pub proof fn lemma_rhash64_alignment_independent(
    b1: Seq<u8>,
    i1: int,
    b2: Seq<u8>,
    i2: int,
    n: int,
)
    requires
        0 <= i1 && i1 + n <= b1.len(),
        0 <= i2 && i2 + n <= b2.len(),
        0 <= n,
        b1.subrange(i1, i1 + n) == b2.subrange(i2, i2 + n),
    ensures
        spec_rhash64(b1.subrange(i1, i1 + n)) == spec_rhash64(b2.subrange(i2, i2 + n)),
{
}

/// Folds all full 3-word blocks (all but the last block) into the state.
pub open spec fn jenkins_word_blocks(k: Seq<u32>, st: (u32, u32, u32)) -> (u32, u32, u32)
    decreases k.len(),
{
    if k.len() > 3 {
        let st1 = spec_mix(w_add(st.0, k[0]), w_add(st.1, k[1]), w_add(st.2, k[2]));
        jenkins_word_blocks(k.skip(3), st1)
    } else {
        st
    }
}

/// The trailing words (at most 3) left over after `jenkins_word_blocks`.
pub open spec fn jenkins_word_rest(k: Seq<u32>) -> Seq<u32>
    decreases k.len(),
{
    if k.len() > 3 {
        jenkins_word_rest(k.skip(3))
    } else {
        k
    }
}

/// Folds the trailing 0-3 words into the state, by length.
pub open spec fn jenkins_word_tail(k: Seq<u32>, st: (u32, u32, u32)) -> (u32, u32, u32)
    recommends
        k.len() <= 3,
{
    let n = k.len() as int;
    if n == 3 {
        (w_add(st.0, k[0]), w_add(st.1, k[1]), w_add(st.2, k[2]))
    } else if n == 2 {
        (w_add(st.0, k[0]), w_add(st.1, k[1]), st.2)
    } else if n == 1 {
        (w_add(st.0, k[0]), st.1, st.2)
    } else {
        st
    }
}

/// The paired hash over 32-bit words with two seeds. Unlike the byte
/// hash, the closing scramble runs even for an empty input.
#[verifier::opaque]
pub open spec fn spec_hashword2(k: Seq<u32>, pc: u32, pb: u32) -> (u32, u32) {
    let m = (k.len() % 0x1_0000_0000) as int;
    let kk = k.take(m);
    let lw = (k.len() % 0x1_0000_0000) as u32;
    let a0 = w_add(w_add(0xdeadbeefu32, (lw << 2u32)), pc);
    let st0 = (a0, a0, w_add(a0, pb));
    let st1 = jenkins_word_blocks(kk, st0);
    let st2 = jenkins_word_tail(jenkins_word_rest(kk), st1);
    let f = spec_mix_final(st2.0, st2.1, st2.2);
    (f.2, f.1)
}

/// The single-output hash over 32-bit words.
pub open spec fn spec_hashword(k: Seq<u32>, init_val: u32) -> u32 {
    spec_hashword2(k, init_val, 0).0
}

/// Hashword2 hashes a slice of u32 values taking as input 2 seeds
/// and outputs 2 independent hashes.
pub fn hashword2(k: &[u32], pc: u32, pb: u32) -> (r: (u32, u32))
    ensures
        r == spec_hashword2(k@, pc, pb),
{
    let ghost m: int = (k@.len() % 0x1_0000_0000) as int;
    let ghost kk: Seq<u32> = k@.take(m);
    proof {
        vstd::arithmetic::div_mod::lemma_mod_decreases(k@.len(), 0x1_0000_0000);
    }
    let length0: u64 = (k.len() as u64) % 0x1_0000_0000;
    let mut rem: u32 = length0 as u32;

    let mut a: u32 = wadd(wadd(0xdeadbeefu32, rem << 2u32), pc);
    let mut b: u32 = a;
    let mut c: u32 = wadd(a, pb);
    let ghost st0: (u32, u32, u32) = (a, b, c);
    proof {
        assert(kk.skip(0) =~= kk);
    }

    let mut i: usize = 0;
    while rem > 3
        invariant
            m == k@.len() % 0x1_0000_0000,
            m <= k@.len(),
            kk == k@.take(m),
            i + rem == m,
            jenkins_word_blocks(kk, st0) == jenkins_word_blocks(kk.skip(i as int), (a, b, c)),
            jenkins_word_rest(kk) == jenkins_word_rest(kk.skip(i as int)),
        decreases rem,
    {
        a = wadd(a, k[i]);
        b = wadd(b, k[i + 1]);
        c = wadd(c, k[i + 2]);
        mix(&mut a, &mut b, &mut c);
        proof {
            assert(kk.skip(i as int)[0] == k@[i as int]);
            assert(kk.skip(i as int)[1] == k@[i + 1]);
            assert(kk.skip(i as int)[2] == k@[i + 2]);
            assert(kk.skip(i as int).skip(3) =~= kk.skip(i + 3));
        }
        i = i + 3;
        rem = rem - 3;
    }

    let ghost rest: Seq<u32> = kk.skip(i as int);
    proof {
        reveal(spec_hashword2);
        assert(rest.len() == rem);
        assert(jenkins_word_rest(kk) == rest);
        assert(jenkins_word_blocks(kk, st0) == (a, b, c));
        assert forall|j: int| 0 <= j < rem implies rest[j] == k@[i + j] by {}
    }

    if rem == 3 {
        c = wadd(c, k[i + 2]);
        b = wadd(b, k[i + 1]);
        a = wadd(a, k[i]);
    } else if rem == 2 {
        b = wadd(b, k[i + 1]);
        a = wadd(a, k[i]);
    } else if rem == 1 {
        a = wadd(a, k[i]);
    }

    proof {
        assert((a, b, c) == jenkins_word_tail(rest, jenkins_word_blocks(kk, st0)));
    }

    mix_final(&mut a, &mut b, &mut c);
    (c, b)
}

/// Hashes a slice of u32 values with one seed, returning the
/// better-mixed output word.
pub fn hashword(k: &[u32], init_val: u32) -> (r: u32)
    ensures
        r == spec_hashword(k@, init_val),
{
    let p = hashword2(k, init_val, 0);
    p.0
}

/// hash_size returns the number of elements that n bits addressing can cover
pub fn hash_size(n: u8) -> (r: u32)
    requires
        n < 32,
    ensures
        r == (1u32 << n),
{
    1u32 << n
}

/// hash_mask generates a binary mask for a hash of size n
pub fn hash_mask(n: u8) -> (r: u32)
    requires
        n < 32,
    ensures
        r == (1u32 << n) - 1,
{
    proof {
        let k = n;
        assert(k < 32 ==> 1u32 << k >= 1) by (bit_vector);
    }
    hash_size(n) - 1
}

} // verus!
