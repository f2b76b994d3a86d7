//! Series fingerprinting and jump consistent bucketing.
//!
//! A series is assigned to a shard by hashing its metric name, a NUL byte,
//! and its canonical label key with XXH3, then mapping the 64-bit digest to a
//! bucket in `[0, num_shards)` with the Lamping–Veach jump consistent hash.
//!
//! The reference form of the jump hash computes each candidate bucket as
//! `((b + 1) as f64 * 2^31 / ((key >> 33) as f64 + 1.0)) as i64`, with IEEE
//! double-precision arithmetic. Both operands of the division are exact
//! doubles — `(b + 1) * 2^31` needs at most 32 significant bits and the
//! denominator is an integer at most `2^31` — so the only rounding happens in
//! the correctly rounded division itself, and the whole expression equals the
//! round-to-nearest-even of the rational `(b+1)*2^31 / ((key>>33)+1)` at the
//! quotient's binade, truncated toward zero. This module computes exactly
//! that in integer arithmetic, which keeps bucket assignments bit-identical
//! to the double-precision form on every platform.

use vstd::prelude::*;
use vstd::arithmetic::div_mod::{
    lemma_div_is_ordered, lemma_div_nonincreasing, lemma_fundamental_div_mod,
    lemma_mod_division_less_than_divisor, lemma_multiply_divide_lt,
};
use vstd::arithmetic::mul::{lemma_mul_inequality, lemma_mul_upper_bound};
use vstd::arithmetic::power2::{
    lemma2_to64, lemma2_to64_rest, lemma_pow2_adds, lemma_pow2_pos,
    lemma_pow2_strictly_increases, pow2,
};
use vstd::bits::lemma_u64_shr_is_div;
use vstd::string::StrSliceExecFns;
use vstd::string::StringSliceAdditionalSpecFns;
use vstd::utf8::encode_utf8;
use vstd::wrapping::u64_specs;

verus! {

/// Multiplier of the jump hash's linear congruential key update.
pub const JUMP_MULTIPLIER: u64 = 2862933555777941757;

/// 64-bit digest that XXH3 computes for a byte sequence; a function of those
/// bytes alone.
pub uninterp spec fn xxh3_of(bytes: Seq<u8>) -> u64;

/// Relies on `xxhash_rust::xxh3::xxh3_64`: the seedless XXH3 digest of the
/// input bytes, a deterministic function of those bytes alone.
#[verifier::external_body]
fn xxh3_digest(bytes: &[u8]) -> (r: u64)
    ensures
        r == xxh3_of(bytes@),
{
    xxhash_rust::xxh3::xxh3_64(bytes)
}

/// Number of binary digits of `q` (0 for 0).
pub open spec fn bitlen(q: nat) -> nat
    decreases q,
{
    if q == 0 {
        0
    } else {
        1 + bitlen(q / 2)
    }
}

/// For positive `q`, `bitlen` brackets `q` between two powers of two.
pub proof fn lemma_bitlen_bounds(q: nat)
    requires
        q >= 1,
    ensures
        bitlen(q) >= 1,
        pow2((bitlen(q) - 1) as nat) <= q < pow2(bitlen(q)),
    decreases q,
{
    lemma2_to64();
    assert(bitlen(0) == 0);
    if q / 2 == 0 {
        assert(q == 1);
        assert(bitlen(1) == 1 + bitlen(0));
    } else {
        lemma_bitlen_bounds(q / 2);
        let bl = bitlen(q / 2);
        assert(pow2(bl + 1) == 2 * pow2(bl)) by {
            lemma_pow2_adds(1, bl);
        }
        assert(pow2(bl) == 2 * pow2((bl - 1) as nat)) by {
            lemma_pow2_adds(1, (bl - 1) as nat);
        }
    }
}

/// A value below `pow2(k)` has at most `k` binary digits.
pub proof fn lemma_bitlen_le(q: nat, k: nat)
    requires
        q < pow2(k),
    ensures
        bitlen(q) <= k,
{
    if q >= 1 {
        lemma_bitlen_bounds(q);
        if bitlen(q) > k {
            lemma_pow2_strictly_increases(k, (bitlen(q) - 1) as nat);
            assert(false);
        }
    }
}

/// Number of binary digits, executable form.
fn bit_len(q: u64) -> (r: u32)
    ensures
        r == bitlen(q as nat),
{
    let mut n: u64 = q;
    let mut r: u32 = 0;
    proof {
        lemma2_to64();
        lemma2_to64_rest();
        lemma_bitlen_le(q as nat, 64);
        lemma_bitlen_le(n as nat, 64);
    }
    while n > 0
        invariant
            bitlen(q as nat) == r + bitlen(n as nat),
            bitlen(q as nat) <= 64,
            r <= 64,
        decreases n,
    {
        proof {
            lemma_bitlen_bounds(n as nat);
        }
        n = n / 2;
        r = r + 1;
    }
    r
}

/// `pow2`, executable form, for exponents up to 64.
fn pow2_u128(e: u32) -> (r: u128)
    requires
        e <= 64,
    ensures
        r == pow2(e as nat),
{
    let mut r: u128 = 1;
    let mut i: u32 = 0;
    proof {
        lemma2_to64();
    }
    while i < e
        invariant
            i <= e <= 64,
            r == pow2(i as nat),
        decreases e - i,
    {
        proof {
            lemma_pow2_adds(i as nat, 1);
            lemma2_to64();
            if ((i + 1) as nat) < 64 {
                lemma_pow2_strictly_increases((i + 1) as nat, 64);
            }
            lemma2_to64_rest();
        }
        r = r * 2;
        i = i + 1;
    }
    r
}

/// Round `num / den` to the nearest integer, ties to even.
pub open spec fn rn_round(num: int, den: int) -> int
    recommends
        den >= 1,
{
    let m = num / den;
    let r = num % den;
    if 2 * r > den || (2 * r == den && m % 2 == 1) {
        m + 1
    } else {
        m
    }
}

/// Truncation toward zero of the correctly rounded IEEE double quotient
/// `a / d`, for positive integers `a` and `d` that are exact doubles. The
/// quotient lies in the binade `[2^e, 2^(e+1))`, where rounding to the
/// nearest double happens at granularity `2^(e-52)`.
#[verifier::opaque]
pub open spec fn rn_div_trunc(a: int, d: int) -> int
    recommends
        1 <= d <= a,
{
    let q = a / d;
    let e = bitlen(q as nat) - 1;
    if e <= 52 {
        let s = pow2((52 - e) as nat) as int;
        rn_round(a * s, d) / s
    } else {
        let s = pow2((e - 52) as nat) as int;
        rn_round(a, d * s) * s
    }
}

/// `y * d <= a` implies `y <= a / d`.
proof fn lemma_div_ge(a: int, d: int, y: int)
    requires
        1 <= d,
        y * d <= a,
    ensures
        y <= a / d,
{
    lemma_fundamental_div_mod(a, d);
    lemma_mod_division_less_than_divisor(a, d);
    assert(y <= a / d) by (nonlinear_arith)
        requires
            y * d <= a,
            a == d * (a / d) + a % d,
            0 <= a % d < d,
            1 <= d,
    ;
}

/// The bounds on `rn_div_trunc` that the jump hash needs: with `y * d <= a`
/// and `a` below `2^63`, the truncated rounded quotient is at least `y` and
/// at most `2^63`.
proof fn lemma_rn_div_trunc_props(a: int, d: int, y: int)
    requires
        1 <= d,
        1 <= y <= 0xFFFF_FFFF,
        y * d <= a,
        a < pow2(63),
    ensures
        y <= rn_div_trunc(a, d) <= pow2(63),
{
    reveal(rn_div_trunc);
    lemma2_to64();
    lemma2_to64_rest();
    let q = a / d;
    lemma_div_ge(a, d, y);
    lemma_bitlen_bounds(q as nat);
    let e = bitlen(q as nat) - 1;
    lemma_div_nonincreasing(a, d);
    lemma_bitlen_le(q as nat, 63);
    assert(0 <= e <= 62);
    if e <= 52 {
        let s = pow2((52 - e) as nat) as int;
        lemma_pow2_pos((52 - e) as nat);
        let num = a * s;
        let m = num / d;
        let mr = rn_round(num, d);
        lemma_mod_division_less_than_divisor(num, d);
        assert(m <= mr <= m + 1);
        // Lower bound: y * s <= m, hence y <= mr / s.
        assert(y * s * d <= a * s) by (nonlinear_arith)
            requires
                y * d <= a,
                s >= 1,
        ;
        lemma_div_ge(num, d, y * s);
        lemma_div_ge(mr, s, y);
        // Upper bound: mr <= a * s + 1 <= (a + 1) * s, hence mr / s <= a + 1.
        lemma_div_nonincreasing(num, d);
        assert(mr <= (a + 1) * s) by (nonlinear_arith)
            requires
                mr <= m + 1,
                m <= num,
                num == a * s,
                s >= 1,
                a >= 0,
        ;
        assert(((a + 1) * s) / s == a + 1) by {
            vstd::arithmetic::div_mod::lemma_div_multiples_vanish(a + 1, s);
            assert((a + 1) * s == s * (a + 1)) by (nonlinear_arith);
        }
        lemma_div_is_ordered(mr, (a + 1) * s, s);
        assert(rn_div_trunc(a, d) <= a + 1);
    } else {
        let s = pow2((e - 52) as nat) as int;
        lemma_pow2_pos((e - 52) as nat);
        let d2 = d * s;
        assert(1 <= d2 && d2 == d * s) by (nonlinear_arith)
            requires
                d >= 1,
                s >= 1,
                d2 == d * s,
        ;
        let m = a / d2;
        let mr = rn_round(a, d2);
        lemma_mod_division_less_than_divisor(a, d2);
        assert(m <= mr <= m + 1);
        // pow2(52) <= m, because a >= q * d >= pow2(e) * d = pow2(52) * d2.
        assert(pow2(e as nat) <= q);
        assert(pow2(e as nat) == pow2(52) * s) by {
            lemma_pow2_adds(52, (e - 52) as nat);
        }
        lemma_fundamental_div_mod(a, d);
        lemma_mod_division_less_than_divisor(a, d);
        assert(pow2(52) * d2 <= a) by (nonlinear_arith)
            requires
                pow2(52) * s <= q,
                a == d * q + a % d,
                0 <= a % d,
                d >= 1,
                d2 == d * s,
        ;
        lemma_div_ge(a, d2, pow2(52) as int);
        assert(pow2(52) <= m);
        // m < pow2(53), because a < (q + 1) * d <= pow2(e + 1) * d = pow2(53) * d2.
        assert(q + 1 <= pow2((e + 1) as nat));
        assert(pow2((e + 1) as nat) == pow2(53) * s) by {
            lemma_pow2_adds(53, (e - 52) as nat);
        }
        assert(a < pow2(53) * d2) by (nonlinear_arith)
            requires
                a == d * q + a % d,
                0 <= a % d < d,
                q + 1 <= pow2((e + 1) as nat),
                pow2((e + 1) as nat) == pow2(53) * s,
                d >= 1,
                d2 == d * s,
        ;
        lemma_multiply_divide_lt(a, d2, pow2(53) as int);
        assert(m < pow2(53));
        // Lower bound: y < pow2(52) <= m <= m * s <= mr * s.
        assert(y < pow2(52));
        assert(m <= m * s && m * s <= mr * s) by (nonlinear_arith)
            requires
                s >= 1,
                0 <= m <= mr,
        ;
        // Upper bound: mr * s <= pow2(53) * s = pow2(e + 1) <= pow2(63).
        assert(mr * s <= pow2(53) * s) by (nonlinear_arith)
            requires
                mr <= pow2(53),
                0 <= mr,
                s >= 1,
        ;
        if ((e + 1) as nat) < 63 {
            lemma_pow2_strictly_increases((e + 1) as nat, 63);
        }
        assert(rn_div_trunc(a, d) == mr * s);
        assert(mr * s <= pow2(63));
    }
}

/// The wrapped linear congruential key update of the jump hash.
pub open spec fn next_key(k: u64) -> u64 {
    u64_specs::wrapping_add(u64_specs::wrapping_mul(k, JUMP_MULTIPLIER), 1)
}

/// One probe of the jump hash: the truncated double quotient
/// `(b + 1) * 2^31 / ((key >> 33) + 1)`.
#[verifier::opaque]
pub open spec fn spec_jump_step(key: u64, b: u64) -> int {
    rn_div_trunc((b + 1) * 0x8000_0000, (key >> 33) + 1)
}

/// Each probe strictly advances past `b`, and stays below `2^63`.
pub proof fn lemma_jump_step_bounds(key: u64, b: u64)
    requires
        b < 0xFFFF_FFFFu64,
    ensures
        b + 1 <= spec_jump_step(key, b) <= pow2(63),
{
    reveal(spec_jump_step);
    let d = (key >> 33) as int + 1;
    let a = (b + 1) * 0x8000_0000;
    lemma_u64_shr_is_div(key, 33);
    lemma2_to64();
    lemma2_to64_rest();
    assert((key >> 33) < 0x8000_0000) by {
        lemma_multiply_divide_lt(key as int, pow2(33) as int, 0x8000_0000);
    }
    assert((b + 1) * d <= a) by (nonlinear_arith)
        requires
            1 <= d <= 0x8000_0000,
            a == (b + 1) * 0x8000_0000,
            b >= 0,
    ;
    assert(a < pow2(63)) by {
        lemma_mul_upper_bound((b + 1) as int, 0xFFFF_FFFF, 0x8000_0000, 0x8000_0000);
    }
    lemma_rn_div_trunc_props(a, d, (b + 1) as int);
}

/// Executable probe: computes `spec_jump_step(key, b)` exactly.
fn jump_step(key: u64, b: u64) -> (r: u64)
    requires
        b < 0xFFFF_FFFFu64,
    ensures
        r as int == spec_jump_step(key, b),
        b + 1 <= r,
{
    proof {
        reveal(rn_div_trunc);
        lemma2_to64();
        lemma2_to64_rest();
        lemma_u64_shr_is_div(key, 33);
        lemma_multiply_divide_lt(key as int, pow2(33) as int, 0x8000_0000);
        lemma_jump_step_bounds(key, b);
    }
    let d64: u64 = (key >> 33) + 1;
    let a64: u64 = (b + 1) * 0x8000_0000;
    let ghost ai: int = a64 as int;
    let ghost di: int = d64 as int;
    proof {
        assert(ai < pow2(63)) by {
            lemma_mul_upper_bound((b + 1) as int, 0xFFFF_FFFF, 0x8000_0000, 0x8000_0000);
        }
    }
    let q64: u64 = a64 / d64;
    proof {
        lemma_div_nonincreasing(ai, di);
        lemma_bitlen_le(q64 as nat, 63);
        assert(1 * di <= ai) by (nonlinear_arith)
            requires
                1 <= di <= 0x8000_0000,
                ai >= 0x8000_0000,
        ;
        lemma_div_ge(ai, di, 1);
        lemma_bitlen_bounds(q64 as nat);
    }
    let e: u32 = bit_len(q64) - 1;
    let ghost qi: int = q64 as int;
    if e <= 52 {
        let s: u128 = pow2_u128(52 - e);
        proof {
            lemma_pow2_pos((52 - e) as nat);
            assert(s <= pow2(52)) by {
                if ((52 - e) as nat) < 52 {
                    lemma_pow2_strictly_increases((52 - e) as nat, 52);
                }
            }
            assert(ai * s <= pow2(63) * pow2(52)) by {
                lemma_mul_upper_bound(ai, pow2(63) as int, s as int, pow2(52) as int);
            }
            assert(pow2(63) * pow2(52) == pow2(115)) by {
                lemma_pow2_adds(63, 52);
            }
            assert(pow2(115) < pow2(127)) by {
                lemma_pow2_strictly_increases(115, 127);
            }
            assert(pow2(127) == pow2(63) * pow2(64)) by {
                lemma_pow2_adds(63, 64);
            }
        }
        let num: u128 = (a64 as u128) * s;
        let m: u128 = num / (d64 as u128);
        let rem: u128 = num % (d64 as u128);
        proof {
            lemma_mod_division_less_than_divisor(num as int, di);
            lemma_div_nonincreasing(num as int, di);
        }
        let mr: u128 = if 2 * rem > (d64 as u128) || (2 * rem == (d64 as u128) && m % 2 == 1) {
            m + 1
        } else {
            m
        };
        proof {
            assert(mr as int == rn_round(ai * (s as int), di));
        }
        let res: u128 = mr / s;
        proof {
            reveal(rn_div_trunc);
            assert(res as int == rn_div_trunc(ai, di));
            assert(res as int == spec_jump_step(key, b)) by {
                reveal(spec_jump_step);
            }
        }
        res as u64
    } else {
        let s: u128 = pow2_u128(e - 52);
        proof {
            lemma_pow2_pos((e - 52) as nat);
            assert(s <= pow2(10)) by {
                if ((e - 52) as nat) < 10 {
                    lemma_pow2_strictly_increases((e - 52) as nat, 10);
                }
            }
            assert((d64 as int) * (s as int) <= 0x8000_0000 * pow2(10)) by {
                lemma_mul_upper_bound(di, 0x8000_0000, s as int, pow2(10) as int);
            }
        }
        let d2: u128 = (d64 as u128) * s;
        proof {
            assert(1 <= d2) by (nonlinear_arith)
                requires
                    d2 == (d64 as int) * (s as int),
                    d64 >= 1,
                    s >= 1,
            ;
        }
        let m: u128 = (a64 as u128) / d2;
        let rem: u128 = (a64 as u128) % d2;
        proof {
            lemma_mod_division_less_than_divisor(ai, d2 as int);
            lemma_div_nonincreasing(ai, d2 as int);
        }
        let mr: u128 = if 2 * rem > d2 || (2 * rem == d2 && m % 2 == 1) {
            m + 1
        } else {
            m
        };
        proof {
            assert(mr as int == rn_round(ai, (d2 as int)));
            // Bound the final product: mr <= pow2(53).
            assert(qi + 1 <= pow2((e + 1) as nat));
            assert(pow2((e + 1) as nat) == pow2(53) * (s as int)) by {
                lemma_pow2_adds(53, (e - 52) as nat);
            }
            lemma_fundamental_div_mod(ai, di);
            lemma_mod_division_less_than_divisor(ai, di);
            assert(ai < pow2(53) * (d2 as int)) by (nonlinear_arith)
                requires
                    ai == di * qi + ai % di,
                    0 <= ai % di < di,
                    qi + 1 <= pow2((e + 1) as nat),
                    pow2((e + 1) as nat) == pow2(53) * (s as int),
                    di >= 1,
                    d2 == di * (s as int),
            ;
            lemma_multiply_divide_lt(ai, d2 as int, pow2(53) as int);
            assert(m < pow2(53));
            assert(mr * s <= pow2(53) * pow2(10)) by {
                lemma_mul_upper_bound(mr as int, pow2(53) as int, s as int, pow2(10) as int);
            }
            assert(pow2(53) * pow2(10) == pow2(63)) by {
                lemma_pow2_adds(53, 10);
            }
        }
        let res: u128 = mr * s;
        proof {
            reveal(rn_div_trunc);
            assert(res as int == rn_div_trunc(ai, di));
            assert(res as int == spec_jump_step(key, b)) by {
                reveal(spec_jump_step);
            }
        }
        res as u64
    }
}

/// The jump consistent hash of Lamping and Veach: maps `key` to a bucket in
/// `[0, num_buckets)`, deterministically, with minimal movement when the
/// bucket count grows.
#[verifier::opaque]
pub open spec fn spec_jump_from(key: u64, j: u64, n: u32) -> u64
    recommends
        j < n,
    decreases n - j,
        via spec_jump_from_dec
{
    if j < n {
        let k2 = next_key(key);
        let j2 = spec_jump_step(k2, j);
        if j2 < n {
            spec_jump_from(k2, j2 as u64, n)
        } else {
            j
        }
    } else {
        j
    }
}

#[via_fn]
proof fn spec_jump_from_dec(key: u64, j: u64, n: u32) {
    if j < n {
        let k2 = next_key(key);
        lemma_jump_step_bounds(k2, j);
        lemma2_to64();
        lemma2_to64_rest();
    }
}

/// The bucket the jump hash assigns to `key` among `n` buckets.
pub open spec fn spec_jump(key: u64, n: u32) -> u64 {
    if n == 0 {
        0
    } else {
        spec_jump_from(key, 0, n)
    }
}

/// The result of `spec_jump_from` stays below `n`.
pub proof fn lemma_jump_from_range(key: u64, j: u64, n: u32)
    requires
        j < n,
    ensures
        spec_jump_from(key, j, n) < n,
    decreases n - j,
{
    reveal(spec_jump_from);
    let k2 = next_key(key);
    let j2 = spec_jump_step(k2, j);
    lemma_jump_step_bounds(k2, j);
    if j2 < n {
        lemma_jump_from_range(k2, j2 as u64, n);
    }
}

/// Growing the bucket count by one moves a key only to the new bucket:
/// the bucket for `n + 1` buckets is either the bucket for `n` buckets, or
/// the fresh bucket `n`. This is the minimal-movement property of the jump
/// consistent hash.
pub proof fn lemma_jump_minimal_movement(key: u64, n: u32)
    requires
        1 <= n < 0xFFFF_FFFFu32,
    ensures
        spec_jump(key, (n + 1) as u32) == spec_jump(key, n)
            || spec_jump(key, (n + 1) as u32) == n as u64,
{
    lemma_jump_movement_from(key, 0, n);
}

#[verifier::rlimit(50)]
proof fn lemma_jump_movement_from(key: u64, j: u64, n: u32)
    requires
        j < n,
        n < 0xFFFF_FFFFu32,
    ensures
        spec_jump_from(key, j, (n + 1) as u32) == spec_jump_from(key, j, n)
            || spec_jump_from(key, j, (n + 1) as u32) == n as u64,
    decreases n - j,
{
    reveal(spec_jump_from);
    let n1 = (n + 1) as u32;
    let k2 = next_key(key);
    let j2 = spec_jump_step(k2, j);
    lemma_jump_step_bounds(k2, j);
    if j2 < n {
        assert(spec_jump_from(key, j, n) == spec_jump_from(k2, j2 as u64, n));
        assert(spec_jump_from(key, j, n1) == spec_jump_from(k2, j2 as u64, n1));
        lemma_jump_movement_from(k2, j2 as u64, n);
    } else if j2 == n {
        // With n buckets the walk stops at j; with n + 1 it takes one more
        // probe from bucket n, which lands at or beyond n + 1, so it stops
        // at n.
        assert(spec_jump_from(key, j, n) == j);
        assert(spec_jump_from(key, j, n1) == spec_jump_from(k2, n as u64, n1));
        let k3 = next_key(k2);
        lemma_jump_step_bounds(k3, n as u64);
        assert(spec_jump_from(k2, n as u64, n1) == n as u64);
    } else {
        assert(spec_jump_from(key, j, n) == j);
        assert(spec_jump_from(key, j, n1) == j);
    }
}

/// Executable walk of the jump hash, mirroring `spec_jump_from`.
#[verifier::rlimit(100)]
fn jump_from(key: u64, j: u64, n: u32) -> (r: u64)
    requires
        j < n,
    ensures
        r == spec_jump_from(key, j, n),
        r < n,
    decreases n as u64 - j,
{
    proof {
        reveal(spec_jump_from);
    }
    let k2: u64 = key.wrapping_mul(JUMP_MULTIPLIER).wrapping_add(1);
    let j2: u64 = jump_step(k2, j);
    if j2 < n as u64 {
        jump_from(k2, j2, n)
    } else {
        j
    }
}

/// Executable jump consistent hash.
pub fn jump_consistent_hash(key: u64, num_buckets: u32) -> (r: u32)
    requires
        num_buckets >= 1,
    ensures
        r as u64 == spec_jump(key, num_buckets),
        r < num_buckets,
{
    jump_from(key, 0, num_buckets) as u32
}

/// Minimal movement at the series level: raising the shard count from `n`
/// to `n + 1` either leaves a series where it was or moves it to the new
/// shard `n`; no series moves between existing shards.
pub proof fn lemma_assign_shard_minimal_movement(
    name: Seq<char>,
    label_key: Seq<char>,
    n: u32,
)
    requires
        1 <= n < 0xFFFF_FFFFu32,
    ensures
        spec_assign_shard(name, label_key, (n + 1) as u32) == spec_assign_shard(
            name,
            label_key,
            n,
        ) || spec_assign_shard(name, label_key, (n + 1) as u32) == n as u64,
{
    lemma_jump_minimal_movement(xxh3_of(fingerprint_bytes(name, label_key)), n);
}

/// The bytes hashed for a series: the metric name, a NUL separator, and the
/// canonical label key, all UTF-8 encoded.
pub open spec fn fingerprint_bytes(name: Seq<char>, label_key: Seq<char>) -> Seq<u8> {
    encode_utf8(name) + seq![0u8] + encode_utf8(label_key)
}

/// The shard a series belongs to, as a function of its name, its canonical
/// label key, and the shard count.
pub open spec fn spec_assign_shard(name: Seq<char>, label_key: Seq<char>, n: u32) -> u64 {
    spec_jump(xxh3_of(fingerprint_bytes(name, label_key)), n)
}

/// Assigns a metric series to a shard by hashing `name`, NUL, `label_key`.
/// The result is a deterministic function of the two strings and the shard
/// count, and always lies in `[0, num_shards)`.
pub fn assign_shard_from_parts(name: &str, label_key: &str, num_shards: u32) -> (r: u32)
    requires
        num_shards >= 1,
    ensures
        r as u64 == spec_assign_shard(name@, label_key@, num_shards),
        r < num_shards,
{
    let mut buf = name.as_bytes_vec();
    buf.push(0u8);
    let mut tail = label_key.as_bytes_vec();
    buf.append(&mut tail);
    proof {
        assert(buf@ =~= fingerprint_bytes(name@, label_key@));
    }
    let digest = xxh3_digest(buf.as_slice());
    jump_consistent_hash(digest, num_shards)
}

/// The shard for a bare metric name (no label key in the hash input).
pub open spec fn spec_assign_name_shard(name: Seq<char>, n: u32) -> u64 {
    spec_jump(xxh3_of(encode_utf8(name)), n)
}

/// Assigns a shard from the metric name alone.
pub fn assign_shard(metric_name: &str, num_shards: u32) -> (r: u32)
    requires
        num_shards >= 1,
    ensures
        r as u64 == spec_assign_name_shard(metric_name@, num_shards),
        r < num_shards,
{
    let buf = metric_name.as_bytes_vec();
    let digest = xxh3_digest(buf.as_slice());
    jump_consistent_hash(digest, num_shards)
}

} // verus!
