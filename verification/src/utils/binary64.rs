//! IEEE 754 binary64 ("f64") round-to-nearest arithmetic, modelled on
//! integers.
//!
//! The sizes and image dimensions this tool prints or computes go through
//! `f64` conversions, divisions and multiplications. Every value involved is a
//! positive rational far from the subnormal and overflow ranges, so the only
//! effect of binary64 arithmetic is rounding to a 53-bit significand, ties to
//! even. This module states that rounding exactly and computes it on `u128`.
use vstd::prelude::*;
use vstd::arithmetic::div_mod::*;
use vstd::arithmetic::mul::*;

verus! {

/// 2 to the power `k`.
pub open spec fn two_pow(k: nat) -> nat
    decreases k,
{
    if k == 0 {
        1
    } else {
        2 * two_pow((k - 1) as nat)
    }
}

/// The smallest binary64 significand bound: 2^52.
pub open spec fn sig_low() -> nat {
    0x10000000000000
}

/// One past the largest binary64 significand: 2^53.
pub open spec fn sig_high() -> nat {
    0x20000000000000
}

/// `n / d` rounded to the nearest integer, ties to the even one.
pub open spec fn round_half_even(n: nat, d: nat) -> nat
    recommends
        d > 0,
{
    let q = n / d;
    let r = n % d;
    if 2 * r < d {
        q
    } else if 2 * r > d {
        q + 1
    } else if q % 2 == 0 {
        q
    } else {
        q + 1
    }
}

/// How many low bits of `p` fall below a 53-bit significand.
pub open spec fn excess_bits(p: nat) -> nat
    decreases p,
{
    if p < sig_high() {
        0
    } else {
        1 + excess_bits(p / 2)
    }
}

/// The binary64 value nearest to the integer `p` (ties to even), which is an
/// integer: `p` itself below 2^53, else `p` rounded to a multiple of the
/// weight of its 53rd significant bit.
pub open spec fn nearest_f64_int(p: nat) -> nat {
    let s = excess_bits(p);
    round_half_even(p, two_pow(s)) * two_pow(s)
}

/// `k` brings the rational `n / d` into the binade `[2^52, 2^53)`.
pub open spec fn is_normalizing_shift(n: nat, d: nat, k: nat) -> bool {
    &&& sig_low() * d <= n * two_pow(k)
    &&& n * two_pow(k) < sig_high() * d
}

/// The shift that brings `n / d` into `[2^52, 2^53)` (unique where it exists).
pub open spec fn normalizing_shift(n: nat, d: nat) -> nat {
    choose|k: nat| is_normalizing_shift(n, d, k)
}

/// The binary64 value nearest to `n / d` for `0 < n < d`, as a significand
/// over a power of two: `(m, 2^k)` with value `m / 2^k`.
pub open spec fn nearest_f64_ratio(n: nat, d: nat) -> (nat, nat) {
    let k = normalizing_shift(n, d);
    (round_half_even(n * two_pow(k), d), two_pow(k))
}

/// `(side as f64 * (limit as f64 / longest as f64))` truncated to an integer,
/// for `0 < limit < longest`: the quotient is rounded to binary64 as
/// `m / 2^k`; the product `side * m / 2^k` is rounded by rounding its
/// numerator (scaling by a power of two is exact), then truncated.
pub open spec fn scaled_dimension(side: nat, limit: nat, longest: nat) -> nat {
    let (m, pw) = nearest_f64_ratio(limit, longest);
    nearest_f64_int(side * m) / pw
}

proof fn lemma_two_pow_pos(k: nat)
    ensures
        two_pow(k) >= 1,
    decreases k,
{
    if k > 0 {
        lemma_two_pow_pos((k - 1) as nat);
    }
}

proof fn lemma_two_pow_monotone(a: nat, b: nat)
    requires
        a <= b,
    ensures
        two_pow(a) <= two_pow(b),
    decreases b,
{
    if a < b {
        lemma_two_pow_monotone(a, (b - 1) as nat);
        lemma_two_pow_pos((b - 1) as nat);
    }
}

/// At most one shift normalizes a given ratio.
proof fn lemma_shift_unique(n: nat, d: nat, k1: nat, k2: nat)
    requires
        is_normalizing_shift(n, d, k1),
        is_normalizing_shift(n, d, k2),
    ensures
        k1 == k2,
{
    if k1 != k2 {
        let lo = if k1 < k2 { k1 } else { k2 };
        let hi = if k1 < k2 { k2 } else { k1 };
        lemma_two_pow_monotone(lo + 1, hi);
        assert(two_pow(lo + 1) == 2 * two_pow(lo));
        let a = two_pow(lo);
        let b = two_pow(hi);
        assert(n * b >= 2 * (n * a)) by (nonlinear_arith)
            requires
                b >= 2 * a,
                n >= 0,
        ;
    }
}

/// A ratio `n / d` with `0 < n < d` has a normalizing shift.
proof fn lemma_shift_exists(n: nat, d: nat, k: nat)
    requires
        0 < n,
        n * two_pow(k) < sig_high() * d,
    ensures
        is_normalizing_shift(n, d, normalizing_shift(n, d)),
    decreases sig_high() * d - n * two_pow(k),
{
    if sig_low() * d <= n * two_pow(k) {
        assert(is_normalizing_shift(n, d, k));
    } else {
        lemma_two_pow_pos(k);
        assert(two_pow(k + 1) == 2 * two_pow(k));
        assert(n * two_pow(k + 1) == 2 * (n * two_pow(k))) by (nonlinear_arith)
            requires
                two_pow(k + 1) == 2 * two_pow(k),
        ;
        assert(n * two_pow(k) > 0) by (nonlinear_arith)
            requires
                n > 0,
                two_pow(k) >= 1,
        ;
        lemma_shift_exists(n, d, k + 1);
    }
}

/// A number with excess bits keeps at least 2^52 above them.
proof fn lemma_excess_floor(p: nat)
    ensures
        excess_bits(p) > 0 ==> p / two_pow(excess_bits(p)) >= sig_low(),
    decreases p,
{
    if p >= sig_high() {
        let h = p / 2;
        lemma_excess_floor(h);
        let s = excess_bits(p);
        assert(s == 1 + excess_bits(h));
        if excess_bits(h) == 0 {
            assert(two_pow(0) == 1);
            assert(two_pow(1) == 2 * two_pow(0));
        } else {
            lemma_two_pow_pos((s - 1) as nat);
            lemma_div_denominator(p as int, 2, two_pow((s - 1) as nat) as int);
        }
    }
}

/// Rounding an integer to binary64 adds at most a 2^-52 fraction of it.
proof fn lemma_nearest_int_bound(p: nat)
    ensures
        nearest_f64_int(p) * sig_low() <= p * (sig_low() + 1),
{
    let s = excess_bits(p);
    let pw = two_pow(s);
    lemma_two_pow_pos(s);
    let q = p / pw;
    let r = p % pw;
    lemma_fundamental_div_mod(p as int, pw as int);
    lemma_mod_pos_bound(p as int, pw as int);
    let m = round_half_even(p, pw);
    assert(m <= q + 1);
    assert(nearest_f64_int(p) == m * pw);
    if s == 0 {
        assert(pw == 1);
        assert(q == p && r == 0) by {
            lemma_div_by_self(1);
            lemma_div_basics(p as int);
        }
        assert(m == p);
        assert(m * pw * sig_low() <= p * (sig_low() + 1)) by (nonlinear_arith)
            requires
                m == p,
                pw == 1,
        ;
    } else {
        lemma_excess_floor(p);
        assert(m * pw * sig_low() <= p * (sig_low() + 1)) by (nonlinear_arith)
            requires
                m <= q + 1,
                p == pw * q + r,
                r >= 0,
                q >= sig_low(),
                pw >= 1,
        ;
    }
}

/// A dimension scaled to a limit below the longest side stays within the
/// limit: `side * (limit / longest)` in binary64, truncated, is at most
/// `limit` for any `side` up to the longest.
pub proof fn lemma_scaled_within_limit(side: nat, limit: nat, longest: nat)
    requires
        0 < limit < longest <= u32::MAX,
        side <= longest,
    ensures
        scaled_dimension(side, limit, longest) <= limit,
{
    let big_m = limit;
    let big_l = longest;
    lemma_two_pow_pos(0);
    assert(big_m * two_pow(0) < sig_high() * big_l) by (nonlinear_arith)
        requires
            two_pow(0) == 1,
            big_m < big_l,
    ;
    lemma_shift_exists(big_m, big_l, 0);
    let k = normalizing_shift(big_m, big_l);
    let pw = two_pow(k);
    lemma_two_pow_pos(k);
    let num = big_m * pw;
    let q = num / big_l;
    let r = num % big_l;
    lemma_fundamental_div_mod(num as int, big_l as int);
    lemma_mod_pos_bound(num as int, big_l as int);
    let m = round_half_even(num, big_l);
    assert(m <= q + 1);
    let prod = side * m;
    let rounded = nearest_f64_int(prod);
    lemma_nearest_int_bound(prod);
    // 2^k exceeds 2^52, since limit * 2^k reaches 2^52 * longest.
    assert(pw > sig_low()) by (nonlinear_arith)
        requires
            sig_low() * big_l <= big_m * pw,
            big_m < big_l,
            big_m > 0,
    ;
    assert(prod <= num + big_l) by (nonlinear_arith)
        requires
            prod == side * m,
            side <= big_l,
            m <= q + 1,
            num == big_l * q + r,
            r >= 0,
    ;
    assert(rounded < (big_m + 1) * pw) by (nonlinear_arith)
        requires
            rounded * sig_low() <= prod * (sig_low() + 1),
            prod <= num + big_l,
            num == big_m * pw,
            num < sig_high() * big_l,
            sig_high() == 2 * sig_low(),
            sig_low() == 0x10000000000000,
            big_l <= 0xffffffff,
            pw > sig_low(),
    ;
    lemma_div_is_ordered(rounded as int, ((big_m + 1) * pw - 1) as int, pw as int);
    lemma_fundamental_div_mod(((big_m + 1) * pw - 1) as int, pw as int);
    lemma_mod_pos_bound(((big_m + 1) * pw - 1) as int, pw as int);
    assert(((big_m + 1) * pw - 1) / (pw as int) <= big_m) by (nonlinear_arith)
        requires
            ((big_m + 1) * pw - 1) == pw * (((big_m + 1) * pw - 1) / (pw as int)) + ((big_m + 1) * pw - 1) % (pw as int),
            ((big_m + 1) * pw - 1) % (pw as int) >= 0,
            pw > 0,
    ;
}

/// `n / d` rounded to the nearest integer, ties to even.
pub fn round_half_even_u128(n: u128, d: u128) -> (r: u128)
    requires
        d > 0,
        n < u128::MAX,
    ensures
        r == round_half_even(n as nat, d as nat),
{
    let q = n / d;
    let rem = n % d;
    proof {
        lemma_fundamental_div_mod(n as int, d as int);
        lemma_div_pos_is_pos(n as int, d as int);
        lemma_mul_inequality(1, d as int, q as int);
    }
    if rem < d - rem {
        q
    } else if rem > d - rem {
        q + 1
    } else if q % 2 == 0 {
        q
    } else {
        q + 1
    }
}

/// The binary64 value nearest to the integer `p`.
pub fn nearest_f64_u128(p: u128) -> (r: u128)
    requires
        p < 0x1000000000000000000000000,
    ensures
        r == nearest_f64_int(p as nat),
        r <= 2 * p,
{
    let mut q = p;
    let mut pw: u128 = 1;
    let ghost mut s: nat = 0;
    proof {
        lemma_div_by_self(1);
        assert(p / 1 == p) by {
            lemma_div_basics(p as int);
        }
    }
    while q >= 0x20000000000000
        invariant
            q == p / pw,
            pw == two_pow(s),
            pw >= 1,
            pw * q <= p,
            p < 0x1000000000000000000000000,
            excess_bits(p as nat) == s + excess_bits(q as nat),
            p == 0 || q >= 1,
        decreases q,
    {
        proof {
            lemma_div_denominator(p as int, pw as int, 2);
            lemma_mul_inequality(0x20000000000000, q as int, pw as int);
            lemma_mul_is_commutative(pw as int, q as int);
        }
        q = q / 2;
        pw = pw * 2;
        proof {
            s = s + 1;
            lemma_fundamental_div_mod(p as int, pw as int);
            lemma_mod_pos_bound(p as int, pw as int);
        }
    }
    proof {
        lemma_fundamental_div_mod(p as int, pw as int);
        lemma_mod_pos_bound(p as int, pw as int);
    }
    let rem = p - pw * q;
    assert(rem == p % pw);
    let rounded: u128 = if rem < pw - rem {
        q
    } else if rem > pw - rem {
        q + 1
    } else if q % 2 == 0 {
        q
    } else {
        q + 1
    };
    proof {
        lemma_mul_is_distributive_add(pw as int, q as int, 1);
        lemma_mul_inequality(rounded as int, q as int + 1, pw as int);
        lemma_mul_is_commutative(pw as int, q as int + 1);
        if q >= 1 {
            lemma_mul_inequality(1, q as int, pw as int);
        }
    }
    rounded * pw
}

/// The binary64 value nearest to `n / d`, for `0 < n < d`, as a significand
/// and the power of two it stands over.
pub fn nearest_f64_ratio_u64(n: u64, d: u64) -> (res: (u128, u128))
    requires
        0 < n < d,
    ensures
        res.0 == nearest_f64_ratio(n as nat, d as nat).0,
        res.1 == nearest_f64_ratio(n as nat, d as nat).1,
        res.0 <= sig_high(),
        res.1 >= 1,
{
    let n128 = n as u128;
    let d128 = d as u128;
    let mut num: u128 = n128;
    let mut pw: u128 = 1;
    let ghost mut k: nat = 0;
    while num < 0x10000000000000 * d128
        invariant
            num == n * pw,
            pw == two_pow(k),
            pw >= 1,
            pw <= num,
            num < 0x20000000000000 * d,
            d128 == d,
            0 < n < d,
        decreases 0x20000000000000 * d - num,
    {
        num = num * 2;
        pw = pw * 2;
        proof {
            k = k + 1;
            lemma_mul_is_associative(n as int, pw as int / 2, 2);
        }
    }
    proof {
        assert(is_normalizing_shift(n as nat, d as nat, k));
        let kk = normalizing_shift(n as nat, d as nat);
        assert(is_normalizing_shift(n as nat, d as nat, kk));
        lemma_shift_unique(n as nat, d as nat, k, kk);
        lemma_div_is_ordered(num as int, (0x20000000000000 * d) as int, d as int);
        lemma_div_multiples_vanish(0x20000000000000, d as int);
        lemma_mul_is_commutative(0x20000000000000, d as int);
        lemma_fundamental_div_mod(num as int, d as int);
        lemma_mod_pos_bound(num as int, d as int);
        if num / d128 >= 0x20000000000000 {
            lemma_mul_inequality(0x20000000000000, (num / d128) as int, d as int);
        }
    }
    let m = round_half_even_u128(num, d128);
    (m, pw)
}

/// `v` converted with a saturating cast to `u32`, as `as u32` does on a
/// non-negative `f64`.
pub open spec fn saturate_u32(v: nat) -> u32 {
    if v > u32::MAX as nat {
        u32::MAX
    } else {
        v as u32
    }
}

/// `(side as f64 * (limit as f64 / longest as f64)) as u32`, for
/// `0 < limit < longest`.
pub fn scaled_dimension_u32(side: u32, limit: u32, longest: u32) -> (r: u32)
    requires
        0 < limit < longest,
    ensures
        r == saturate_u32(scaled_dimension(side as nat, limit as nat, longest as nat)),
{
    let (m, pw) = nearest_f64_ratio_u64(limit as u64, longest as u64);
    proof {
        lemma_mul_inequality(m as int, sig_high() as int, side as int);
        lemma_mul_is_commutative(m as int, side as int);
    }
    let prod = (side as u128) * m;
    let rounded = nearest_f64_u128(prod);
    let v = rounded / pw;
    if v > u32::MAX as u128 {
        u32::MAX
    } else {
        v as u32
    }
}

} // verus!
