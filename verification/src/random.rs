//! The pseudo-random sequences that the workloads draw from.
use vstd::prelude::*;

verus! {

/// One step of the xorshift generator with the shifts 13, 7 and 17.
pub open spec fn xorshift(v: u64) -> u64 {
    let a = v ^ (v << 13u64);
    let b = a ^ (a >> 7u64);
    b ^ (b << 17u64)
}

/// The value after `value` in the xorshift sequence.
pub fn xorshift64(value: u64) -> (next: u64)
    ensures
        next == xorshift(value),
{
    let a: u64 = value ^ (value << 13u64);
    let b: u64 = a ^ (a >> 7u64);
    b ^ (b << 17u64)
}

/// One step of the xorshift generator with the shifts 7, 9 and 8.
pub open spec fn shifted(v: u64) -> u64 {
    let a = v ^ (v << 7u64);
    let b = a ^ (a >> 9u64);
    b ^ (b << 8u64)
}

/// The value after `value` in the sequence of [`shifted`].
pub fn next_shifted(value: u64) -> (next: u64)
    ensures
        next == shifted(value),
{
    let a: u64 = value ^ (value << 7u64);
    let b: u64 = a ^ (a >> 9u64);
    b ^ (b << 8u64)
}

/// The product of two words, reduced to a word.
pub open spec fn word_mul(a: u64, b: u64) -> u64 {
    ((a as nat * b as nat) % 0x1_0000_0000_0000_0000) as u64
}

/// The sum of two words, reduced to a word.
pub open spec fn word_add(a: u64, b: u64) -> u64 {
    ((a as nat + b as nat) % 0x1_0000_0000_0000_0000) as u64
}

/// The finaliser that spreads the bits of `v` over the whole word.
pub open spec fn mixed(v: u64) -> u64 {
    let a = word_mul(v ^ (v >> 30u64), 0xbf58_476d_1ce4_e5b9);
    let b = word_mul(a ^ (a >> 27u64), 0x94d0_49bb_1331_11eb);
    b ^ (b >> 31u64)
}

/// Spreads the bits of `value` over the whole word.
pub fn mix64(value: u64) -> (r: u64)
    ensures
        r == mixed(value),
{
    let a: u64 = (value ^ (value >> 30u64)).wrapping_mul(0xbf58_476d_1ce4_e5b9);
    let b: u64 = (a ^ (a >> 27u64)).wrapping_mul(0x94d0_49bb_1331_11eb);
    b ^ (b >> 31u64)
}

/// `v` with its bits turned left by `n` places.
pub open spec fn rotated(v: u64, n: u64) -> u64 {
    if n % 64 == 0 {
        v
    } else {
        (v << (n % 64)) | (v >> ((64 - n % 64) as u64))
    }
}

/// `v` with its bits turned left by `n` places.
pub fn rotate_left(v: u64, n: u64) -> (r: u64)
    ensures
        r == rotated(v, n),
{
    let k: u64 = n % 64;
    if k == 0 {
        v
    } else {
        (v << k) | (v >> (64 - k))
    }
}

/// No step of the xorshift sequence leads from a non-zero value to zero.
pub proof fn law_xorshift_stays_nonzero(v: u64)
    requires
        v != 0,
    ensures
        xorshift(v) != 0,
{
    assert({
        let a = v ^ (v << 13u64);
        let b = a ^ (a >> 7u64);
        v != 0 ==> b ^ (b << 17u64) != 0
    }) by (bit_vector);
}

/// A rotation moves each bit by the given number of places, those that leave at the top come back below.
pub proof fn law_a_rotation_moves_each_bit(v: u64, n: u64, i: u64)
    requires
        n < 64,
        i < 64,
    ensures
        (rotated(v, n) >> (((i + n) % 64) as u64)) & 1 == (v >> i) & 1,
{
    if n == 0 {
        assert(i % 64 == i);
    } else {
        let m = (64 - n) as u64;
        let k = ((i + n) % 64) as u64;
        assert(n % 64 == n);
        assert((((v << n) | (v >> m)) >> k) & 1 == (v >> i) & 1) by (bit_vector)
            requires
                0 < n < 64,
                i < 64,
                m == 64 - n,
                k == (i + n) % 64,
        ;
    }
}

/// No two values are followed by the same one.
pub proof fn law_steps_keep_values_apart(a: u64, b: u64)
    ensures
        xorshift(a) == xorshift(b) ==> a == b,
        shifted(a) == shifted(b) ==> a == b,
{
    lemma_left_apart(a, b);
    let (x, y) = (a ^ (a << 13u64), b ^ (b << 13u64));
    lemma_left_apart(x, y);
    lemma_right_apart(x, y);
    let (x2, y2) = (x ^ (x >> 7u64), y ^ (y >> 7u64));
    lemma_left_apart(x2, y2);
    let (s, t) = (a ^ (a << 7u64), b ^ (b << 7u64));
    lemma_right_apart(s, t);
    let (s2, t2) = (s ^ (s >> 9u64), t ^ (t >> 9u64));
    lemma_left_apart(s2, t2);
}

proof fn lemma_left_apart(a: u64, b: u64)
    ensures
        a ^ (a << 13u64) == b ^ (b << 13u64) ==> a == b,
        a ^ (a << 17u64) == b ^ (b << 17u64) ==> a == b,
        a ^ (a << 7u64) == b ^ (b << 7u64) ==> a == b,
        a ^ (a << 8u64) == b ^ (b << 8u64) ==> a == b,
{
    assert(a ^ (a << 13u64) == b ^ (b << 13u64) ==> a == b) by (bit_vector);
    assert(a ^ (a << 17u64) == b ^ (b << 17u64) ==> a == b) by (bit_vector);
    assert(a ^ (a << 7u64) == b ^ (b << 7u64) ==> a == b) by (bit_vector);
    assert(a ^ (a << 8u64) == b ^ (b << 8u64) ==> a == b) by (bit_vector);
}

proof fn lemma_right_apart(a: u64, b: u64)
    ensures
        a ^ (a >> 7u64) == b ^ (b >> 7u64) ==> a == b,
        a ^ (a >> 9u64) == b ^ (b >> 9u64) ==> a == b,
{
    assert(a ^ (a >> 7u64) == b ^ (b >> 7u64) ==> a == b) by (bit_vector);
    assert(a ^ (a >> 9u64) == b ^ (b >> 9u64) ==> a == b) by (bit_vector);
}

} // verus!
