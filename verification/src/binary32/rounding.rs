//! Rounding to binary32: the value `num / den × 2^exp`, given exactly, is
//! brought to the nearest value that 24 significant bits can hold.

use vstd::arithmetic::div_mod::{
    lemma_div_denominator,
    lemma_fundamental_div_mod,
    lemma_fundamental_div_mod_converse,
    lemma_mod_breakdown,
};
use vstd::arithmetic::power2::{
    lemma2_to64,
    lemma2_to64_rest,
    lemma_pow2_adds,
    lemma_pow2_pos,
    lemma_pow2_strictly_increases,
    lemma_pow2_unfold,
    pow2,
};
use vstd::bits::{lemma_u64_shl_is_mul, lemma_u64_shr_is_div};
use vstd::prelude::*;

verus! {

/// `2^k` for positive `k`, and 1 otherwise.
pub open spec fn two_to(k: int) -> nat {
    if k > 0 {
        pow2(k as nat)
    } else {
        1
    }
}

/// `n / d` rounded to the nearest integer, a tie going to the even one.
pub open spec fn round_half_even(n: nat, d: nat) -> nat
    recommends
        d > 0,
{
    let q = n / d;
    let r = n % d;
    if 2 * r > d || (2 * r == d && q % 2 == 1) {
        q + 1
    } else {
        q
    }
}

/// Whether `2^e <= num / den < 2^(e + 1)`.
pub open spec fn in_binade(num: nat, den: nat, e: int) -> bool {
    &&& den * two_to(e) <= num * two_to(-e)
    &&& num * two_to(-e) < 2 * den * two_to(e)
}

/// The exponent of the power of two at or just below `num / den`.
pub open spec fn binade(num: nat, den: nat) -> int
    recommends
        num > 0,
        den > 0,
{
    choose|e: int| in_binade(num, den, e)
}

/// The magnitude bits of the binary32 value nearest to
/// `num / den × 2^exp`: the value is rounded to a multiple of the spacing
/// that binary32 has at its size (24 significant bits, and no finer than
/// `2^-149`), a tie going to the even multiple; what exceeds the finite
/// range becomes infinity. The result is the pattern itself: the exponent
/// field counted from the smallest spacing, and the significand added to
/// it, so that a significand of `2^24` carries into the exponent.
#[verifier::opaque]
pub open spec fn round_magnitude(num: nat, den: nat, exp: int) -> u32
    recommends
        den > 0,
{
    if num == 0 || den == 0 {
        0
    } else {
        let e = binade(num, den) + exp;
        let q = if e - 23 > -149 {
            e - 23
        } else {
            -149
        };
        let m = round_half_even(num * two_to(exp - q), den * two_to(q - exp));
        let code = (q + 149) * 0x80_0000 + m;
        if code >= 0x7f80_0000 {
            0x7f80_0000u32
        } else {
            code as u32
        }
    }
}

pub(crate) proof fn lemma_two_to_positive(k: int)
    ensures
        two_to(k) > 0,
{
    if k > 0 {
        lemma_pow2_pos(k as nat);
    }
}

/// A quotient lies in exactly one binade.
pub(crate) proof fn lemma_binade_unique(num: nat, den: nat, e1: int, e2: int)
    requires
        den > 0,
        in_binade(num, den, e1),
        in_binade(num, den, e2),
    ensures
        e1 == e2,
{
    lemma_binade_ordered(num, den, e1, e2);
    lemma_binade_ordered(num, den, e2, e1);
}

proof fn lemma_binade_ordered(num: nat, den: nat, lo: int, hi: int)
    requires
        den > 0,
        in_binade(num, den, lo),
        in_binade(num, den, hi),
    ensures
        hi <= lo,
{
    if lo < hi {
        lemma_binade_disjoint(num, den, lo, hi);
    }
}

/// Two different binades share no quotient: with `lo < hi`, a quotient below
/// `2^(lo + 1)` is below `2^hi`.
proof fn lemma_binade_disjoint(num: nat, den: nat, lo: int, hi: int)
    requires
        den > 0,
        lo < hi,
        in_binade(num, den, lo),
    ensures
        !in_binade(num, den, hi),
{
    let a = two_to(lo);
    let b = two_to(-lo);
    let c = two_to(hi);
    let d = two_to(-hi);
    lemma_two_to_positive(lo);
    lemma_two_to_positive(-lo);
    lemma_two_to_positive(hi);
    lemma_two_to_positive(-hi);
    // 2 * a * d <= c * b, because 2^(lo + 1 - hi) <= 1
    if lo >= 0 {
        assert(b == 1 && d == 1);
        if lo > 0 {
            lemma_pow2_unfold((lo + 1) as nat);
        } else {
            lemma2_to64();
        }
        assert(2 * a == pow2((lo + 1) as nat));
        if lo + 1 < hi {
            lemma_pow2_strictly_increases((lo + 1) as nat, hi as nat);
        }
        assert(2 * a <= c);
        assert(2 * a * d <= c * b) by (nonlinear_arith)
            requires
                b == 1,
                d == 1,
                2 * a <= c,
        ;
    } else if hi <= 0 {
        assert(a == 1 && c == 1);
        lemma_pow2_unfold((-lo) as nat);
        assert(b == 2 * pow2((-lo - 1) as nat));
        if hi < 0 {
            if -hi < -lo - 1 {
                lemma_pow2_strictly_increases((-hi) as nat, (-lo - 1) as nat);
            }
            assert(d <= pow2((-lo - 1) as nat));
        } else {
            lemma_pow2_pos((-lo - 1) as nat);
            assert(d == 1);
        }
        assert(2 * d <= b);
        assert(2 * a * d <= c * b) by (nonlinear_arith)
            requires
                a == 1,
                c == 1,
                2 * d <= b,
        ;
    } else {
        assert(a == 1 && d == 1);
        lemma_pow2_unfold((-lo) as nat);
        lemma_pow2_pos((-lo - 1) as nat);
        lemma_pow2_unfold(hi as nat);
        lemma_pow2_pos((hi - 1) as nat);
        assert(b >= 2 && c >= 2);
        assert(2 * a * d <= c * b) by (nonlinear_arith)
            requires
                a == 1,
                d == 1,
                b >= 2,
                c >= 2,
        ;
    }
    let x = num * b;
    let y = num * d;
    assert(x < 2 * den * a);
    // (num * b) * d < 2 * den * a * d <= den * c * b, so num * d < den * c
    assert(y < den * c) by (nonlinear_arith)
        requires
            x == num * b,
            y == num * d,
            x < 2 * den * a,
            2 * a * d <= c * b,
            a > 0,
            b > 0,
            c > 0,
            d > 0,
            den > 0,
    ;
}

/// Doubles the denominator until twice it exceeds the numerator.
proof fn lemma_find_binade_up(num: nat, den: nat, e: nat) -> (found: nat)
    requires
        den > 0,
        den * pow2(e) <= num,
    ensures
        den * pow2(found) <= num,
        num < 2 * (den * pow2(found)),
    decreases num - den * pow2(e),
{
    let step = den * pow2(e);
    lemma_pow2_pos(e);
    assert(step > 0) by (nonlinear_arith)
        requires
            step == den * pow2(e),
            den > 0,
            pow2(e) > 0,
    ;
    if num < 2 * step {
        e
    } else {
        lemma_pow2_unfold(e + 1);
        assert(den * pow2(e + 1) == 2 * step) by (nonlinear_arith)
            requires
                step == den * pow2(e),
                pow2(e + 1) == 2 * pow2(e),
        ;
        lemma_find_binade_up(num, den, e + 1)
    }
}

/// Doubles the numerator until it reaches the denominator.
proof fn lemma_find_binade_down(num: nat, den: nat, k: nat) -> (found: nat)
    requires
        num > 0,
        num * pow2(k) < den,
    ensures
        found >= 1,
        den <= num * pow2(found),
        num * pow2(found) < 2 * den,
    decreases den - num * pow2(k),
{
    let step = num * pow2(k);
    lemma_pow2_pos(k);
    assert(step > 0) by (nonlinear_arith)
        requires
            step == num * pow2(k),
            num > 0,
            pow2(k) > 0,
    ;
    lemma_pow2_unfold(k + 1);
    assert(num * pow2(k + 1) == 2 * step) by (nonlinear_arith)
        requires
            step == num * pow2(k),
            pow2(k + 1) == 2 * pow2(k),
    ;
    if num * pow2(k + 1) >= den {
        k + 1
    } else {
        lemma_find_binade_down(num, den, k + 1)
    }
}

/// Every positive quotient lies in a binade, and `binade` names it.
pub proof fn lemma_binade_exists(num: nat, den: nat)
    requires
        num > 0,
        den > 0,
    ensures
        in_binade(num, den, binade(num, den)),
{
    lemma2_to64();
    if num >= den {
        assert(den * pow2(0) <= num);
        let e = lemma_find_binade_up(num, den, 0);
        let p = pow2(e);
        assert(two_to(e as int) == p);
        assert(two_to(-(e as int)) == 1);
        assert(num * 1 == num);
        assert(2 * den * p == 2 * (den * p)) by (nonlinear_arith);
        assert(in_binade(num, den, e as int));
    } else {
        assert(num * pow2(0) < den);
        let k = lemma_find_binade_down(num, den, 0);
        let p = pow2(k);
        assert(two_to(k as int) == p);
        assert(two_to(-(k as int)) == 1);
        assert(den * 1 == den);
        assert(2 * den * 1 == 2 * den);
        assert(in_binade(num, den, -(k as int)));
    }
}

/// The binade of a quotient whose integer part has `len` bits is `len - 1`.
proof fn lemma_binade_of_bit_length(num: nat, den: nat, len: nat)
    requires
        den > 0,
        len >= 1,
        pow2((len - 1) as nat) <= num / den,
        num / den < pow2(len),
    ensures
        in_binade(num, den, len - 1),
        binade(num, den) == len - 1,
{
    let e = len - 1;
    let sig = num / den;
    lemma_fundamental_div_mod(num as int, den as int);
    lemma_pow2_unfold(len);
    lemma_pow2_pos(e as nat);
    let p = pow2(e as nat);
    assert(two_to(e) == p) by {
        if e == 0 {
            lemma2_to64();
        }
    }
    assert(two_to(-e) == 1);
    assert(den * p <= num) by (nonlinear_arith)
        requires
            p <= sig,
            num == den * sig + num % den,
            num % den >= 0,
            den > 0,
    ;
    assert(num < 2 * den * p) by (nonlinear_arith)
        requires
            sig < 2 * p,
            num == den * sig + num % den,
            num % den < den,
            den > 0,
    ;
    assert(in_binade(num, den, e));
    lemma_binade_unique(num, den, e, binade(num, den));
}

/// The exponent that `two_to` raises two to.
spec fn raised(k: int) -> nat {
    if k > 0 {
        k as nat
    } else {
        0
    }
}

proof fn lemma_two_to_is_pow2(k: int)
    ensures
        two_to(k) == pow2(raised(k)),
{
    lemma2_to64();
}

/// `2^-b × 2^(b+d) × 2^-d` and `2^(-b-d) × 2^b × 2^d`, each factor taken as
/// 1 where its exponent is negative, are the same number.
proof fn lemma_two_to_balance(b: int, d: int)
    ensures
        two_to(-b) * two_to(b + d) * two_to(-d) == two_to(-b - d) * two_to(b) * two_to(d),
{
    lemma_two_to_is_pow2(-b);
    lemma_two_to_is_pow2(b + d);
    lemma_two_to_is_pow2(-d);
    lemma_two_to_is_pow2(-b - d);
    lemma_two_to_is_pow2(b);
    lemma_two_to_is_pow2(d);
    lemma_pow2_adds(raised(-b), raised(b + d));
    lemma_pow2_adds(raised(-b) + raised(b + d), raised(-d));
    lemma_pow2_adds(raised(-b - d), raised(b));
    lemma_pow2_adds(raised(-b - d) + raised(b), raised(d));
    assert(raised(-b) + raised(b + d) + raised(-d) == raised(-b - d) + raised(b) + raised(d));
}

/// Two quotients in the same proportion round to the same integer.
proof fn lemma_round_same_ratio(n1: nat, d1: nat, n2: nat, d2: nat)
    requires
        d1 > 0,
        d2 > 0,
        n1 * d2 == n2 * d1,
    ensures
        round_half_even(n1, d1) == round_half_even(n2, d2),
{
    let q = n1 / d1;
    let r1 = n1 % d1;
    lemma_fundamental_div_mod(n1 as int, d1 as int);
    let r2 = n2 - q * d2;
    assert(r2 * d1 == r1 * d2) by (nonlinear_arith)
        requires
            n1 == d1 * q + r1,
            r2 == n2 - q * d2,
            n1 * d2 == n2 * d1,
    ;
    assert(0 <= r2 < d2) by (nonlinear_arith)
        requires
            r2 * d1 == r1 * d2,
            0 <= r1 < d1,
            d2 > 0,
    ;
    lemma_fundamental_div_mod_converse(n2 as int, d2 as int, q as int, r2);
    assert((2 * r2 > d2) == (2 * r1 > d1)) by (nonlinear_arith)
        requires
            r2 * d1 == r1 * d2,
            d1 > 0,
            d2 > 0,
    ;
    assert((2 * r2 == d2) == (2 * r1 == d1)) by (nonlinear_arith)
        requires
            r2 * d1 == r1 * d2,
            d1 > 0,
            d2 > 0,
    ;
}

/// Cross-multiplication under a change of scale: if the scale factors are
/// in proportion `up : down` one way and the quotients `n1 / d1`, `n2 / d2`
/// the other way, the scaled quotients are equal.
proof fn lemma_cross_scale(
    n1: nat,
    d1: nat,
    n2: nat,
    d2: nat,
    p1: nat,
    q1: nat,
    p2: nat,
    q2: nat,
    up: nat,
    down: nat,
)
    requires
        (p1 * q2) * down == (p2 * q1) * up,
        (n1 * d2) * up == (n2 * d1) * down,
        up == 1 || down == 1,
        up > 0,
        down > 0,
    ensures
        (n1 * p1) * (d2 * q2) == (n2 * p2) * (d1 * q1),
{
    let u = n1 * d2;
    let v = p1 * q2;
    let w = p2 * q1;
    let z = n2 * d1;
    assert((n1 * p1) * (d2 * q2) == u * v) by (nonlinear_arith)
        requires
            u == n1 * d2,
            v == p1 * q2,
    ;
    assert((n2 * p2) * (d1 * q1) == z * w) by (nonlinear_arith)
        requires
            z == n2 * d1,
            w == p2 * q1,
    ;
    if down == 1 {
        assert(v == w * up);
        assert(u * up == z);
        assert(u * v == z * w) by (nonlinear_arith)
            requires
                v == w * up,
                u * up == z,
        ;
    } else {
        assert(v * down == w);
        assert(u == z * down);
        assert(u * v == z * w) by (nonlinear_arith)
            requires
                v * down == w,
                u == z * down,
        ;
    }
}

/// A quotient in proportion to one that lies between 1 and 2 lies there
/// too.
proof fn lemma_same_proportion_bounds(x1: nat, y1: nat, x2: nat, y2: nat)
    requires
        x1 * y2 == x2 * y1,
        y1 <= x1,
        x1 < 2 * y1,
        y1 > 0,
        y2 > 0,
    ensures
        y2 <= x2,
        x2 < 2 * y2,
{
    assert(y2 <= x2) by (nonlinear_arith)
        requires
            x1 * y2 == x2 * y1,
            y1 <= x1,
            y1 > 0,
            y2 > 0,
    ;
    assert(x2 < 2 * y2) by (nonlinear_arith)
        requires
            x1 * y2 == x2 * y1,
            x1 < 2 * y1,
            y1 > 0,
            y2 > 0,
    ;
}

/// Two ways of writing one value, `n1 / d1 × 2^e1` and `n2 / d2 × 2^e2`,
/// round to the same magnitude bits.
pub(crate) proof fn lemma_round_same_value(n1: nat, d1: nat, e1: int, n2: nat, d2: nat, e2: int)
    requires
        n1 > 0,
        d1 > 0,
        n2 > 0,
        d2 > 0,
        (n1 * d2) * two_to(e1 - e2) == (n2 * d1) * two_to(e2 - e1),
    ensures
        round_magnitude(n1, d1, e1) == round_magnitude(n2, d2, e2),
{
    reveal(round_magnitude);
    lemma_binade_exists(n1, d1);
    let delta = e1 - e2;
    let b1 = binade(n1, d1);
    let b2 = b1 + delta;
    let up = two_to(delta);
    let down = two_to(-delta);
    lemma_two_to_positive(delta);
    lemma_two_to_positive(-delta);
    // the binade moves with the exponent
    assert(in_binade(n2, d2, b2)) by {
        let f1 = two_to(-b1);
        let g1 = two_to(b1);
        let f2 = two_to(-b2);
        let g2 = two_to(b2);
        lemma_two_to_balance(b1, delta);
        lemma_two_to_positive(b1);
        lemma_two_to_positive(-b1);
        lemma_two_to_positive(b2);
        lemma_two_to_positive(-b2);
        assert((f1 * g2) * down == (f2 * g1) * up) by (nonlinear_arith)
            requires
                f1 * g2 * down == f2 * g1 * up,
        ;
        lemma_cross_scale(n1, d1, n2, d2, f1, g1, f2, g2, up, down);
        let x1 = n1 * f1;
        let y1 = d1 * g1;
        let x2 = n2 * f2;
        let y2 = d2 * g2;
        assert(y1 > 0) by (nonlinear_arith)
            requires
                y1 == d1 * g1,
                d1 > 0,
                g1 > 0,
        ;
        assert(y2 > 0) by (nonlinear_arith)
            requires
                y2 == d2 * g2,
                d2 > 0,
                g2 > 0,
        ;
        assert(2 * d1 * g1 == 2 * y1) by (nonlinear_arith)
            requires
                y1 == d1 * g1,
        ;
        lemma_same_proportion_bounds(x1, y1, x2, y2);
        assert(2 * d2 * g2 == 2 * y2) by (nonlinear_arith)
            requires
                y2 == d2 * g2,
        ;
    }
    lemma_binade_unique(n2, d2, b2, binade(n2, d2));
    let e = b1 + e1;
    assert(binade(n2, d2) + e2 == e);
    let q = if e - 23 > -149 {
        e - 23
    } else {
        -149
    };
    let t1 = e1 - q;
    let t2 = e2 - q;
    let a1 = two_to(t1);
    let c1 = two_to(-t1);
    let a2 = two_to(t2);
    let c2 = two_to(-t2);
    lemma_two_to_positive(t1);
    lemma_two_to_positive(-t1);
    lemma_two_to_positive(t2);
    lemma_two_to_positive(-t2);
    // t1 == t2 + delta
    lemma_two_to_balance(t2, delta);
    assert((a1 * c2) * down == (a2 * c1) * up) by (nonlinear_arith)
        requires
            c2 * a1 * down == c1 * a2 * up,
    ;
    lemma_cross_scale(n1, d1, n2, d2, a1, c1, a2, c2, up, down);
    assert(d1 * c1 > 0) by (nonlinear_arith)
        requires
            d1 > 0,
            c1 > 0,
    ;
    assert(d2 * c2 > 0) by (nonlinear_arith)
        requires
            d2 > 0,
            c2 > 0,
    ;
    lemma_round_same_ratio(n1 * a1, d1 * c1, n2 * a2, d2 * c2);
}

/// Rounding a multiple of the denominator is exact.
pub(crate) proof fn lemma_round_exact(k: nat, d: nat)
    requires
        d > 0,
    ensures
        round_half_even(k * d, d) == k,
{
    lemma_fundamental_div_mod_converse((k * d) as int, d as int, k as int, 0);
}

/// Rounding `num / (den × p)` from the integer part `sig` of `num / den`,
/// for an even `p`: what decides is how the low part of `sig` compares with
/// half of `p`, and beyond that whether anything is left of `num / den`.
proof fn lemma_round_from_parts(num: nat, den: nat, p: nat, half: nat)
    requires
        den > 0,
        half > 0,
        p == 2 * half,
    ensures
        round_half_even(num, den * p) == ({
            let sig = num / den;
            let kept = sig / p;
            let low = sig % p;
            if low > half || (low == half && (num % den != 0 || kept % 2 == 1)) {
                kept + 1
            } else {
                kept
            }
        }),
{
    let sig = num / den;
    let kept = sig / p;
    let low = sig % p;
    let rest = num % den;
    lemma_div_denominator(num as int, den as int, p as int);
    lemma_mod_breakdown(num as int, den as int, p as int);
    lemma_fundamental_div_mod(num as int, den as int);
    lemma_fundamental_div_mod(sig as int, p as int);
    let r = num % (den * p);
    assert(num / (den * p) == kept);
    assert(r == den * low + rest);
    assert(0 <= rest < den);
    assert(0 <= low < p);
    assert((2 * r > den * p) <==> (low > half || (low == half && rest != 0))) by (nonlinear_arith)
        requires
            r == den * low + rest,
            0 <= rest < den,
            p == 2 * half,
            0 <= low,
            half > 0,
    ;
    assert((2 * r == den * p) <==> (low == half && rest == 0)) by (nonlinear_arith)
        requires
            r == den * low + rest,
            0 <= rest < den,
            p == 2 * half,
            0 <= low,
            half > 0,
    ;
}

/// The number of bits of `x`: 0 for 0, and else the `n` with
/// `2^(n - 1) <= x < 2^n`.
pub(crate) fn bit_length(x: u64) -> (n: u64)
    ensures
        n <= 64,
        n == 0 <==> x == 0,
        n >= 1 ==> pow2((n - 1) as nat) <= x,
        x < pow2(n as nat),
{
    let mut n: u64 = 0;
    let mut rest: u64 = x;
    proof {
        lemma2_to64();
    }
    while rest > 0
        invariant
            n <= 64,
            rest == x as nat / pow2(n as nat),
            n >= 1 ==> pow2((n - 1) as nat) <= x,
            n == 0 ==> rest == x,
            x == 0 ==> n == 0,
        decreases rest,
    {
        proof {
            lemma2_to64();
            let p = pow2(n as nat);
            lemma_pow2_pos(n as nat);
            lemma_fundamental_div_mod(x as int, p as int);
            assert(p <= x) by (nonlinear_arith)
                requires
                    x == p * (x as int / p as int) + (x as int % p as int),
                    (x as int / p as int) >= 1,
                    (x as int % p as int) >= 0,
                    p > 0,
            ;
            if n >= 64 {
                if n > 64 {
                    lemma_pow2_strictly_increases(64, n as nat);
                }
                assert(false);
            }
            lemma_pow2_unfold((n + 1) as nat);
            lemma_div_denominator(x as int, p as int, 2);
            assert(p * 2 == pow2((n + 1) as nat));
        }
        rest = rest / 2;
        n = n + 1;
    }
    proof {
        let p = pow2(n as nat);
        lemma_pow2_pos(n as nat);
        lemma_fundamental_div_mod(x as int, p as int);
        assert(x < p) by (nonlinear_arith)
            requires
                x == p * (x as int / p as int) + (x as int % p as int),
                (x as int / p as int) == 0,
                (x as int % p as int) < p,
                p > 0,
        ;
    }
    n
}

/// Rounds `num / den × 2^exp`, given the integer part `sig` of `num / den`
/// and whether a fraction is left (`sticky`), to binary32 magnitude bits.
pub(crate) fn round_pack(sig: u64, exp: i32, sticky: bool, Ghost(num): Ghost<nat>, Ghost(den): Ghost<nat>) -> (r:
    u32)
    requires
        den > 0,
        sig == num / den,
        sticky == (num % den != 0),
        sticky ==> sig >= 0x100_0000,
        sig < 0x4000_0000_0000_0000,
        -1000 <= exp <= 1000,
    ensures
        r == round_magnitude(num, den, exp as int),
        r <= 0x7f80_0000,
{
    proof {
        reveal(round_magnitude);
        lemma_fundamental_div_mod(num as int, den as int);
        lemma2_to64();
        lemma2_to64_rest();
    }
    if sig == 0 {
        assert(num == 0) by (nonlinear_arith)
            requires
                num == den * (num as int / den as int) + (num as int % den as int),
                (num as int / den as int) == 0,
                (num as int % den as int) == 0,
        ;
        return 0;
    }
    let len: u64 = bit_length(sig);
    proof {
        lemma_binade_of_bit_length(num, den, len as nat);
        assert(num != 0) by (nonlinear_arith)
            requires
                num == den * (num as int / den as int) + (num as int % den as int),
                (num as int / den as int) >= 1,
                (num as int % den as int) >= 0,
                den > 0,
        ;
        if len > 62 {
            lemma_pow2_strictly_increases(62, (len - 1) as nat);
        }
    }
    assert(len <= 62);
    let e: i32 = len as i32 - 1 + exp;
    let q: i32 = if e - 23 > -149 {
        e - 23
    } else {
        -149
    };
    let s: i32 = q - exp;
    let m: u64;
    if s <= 0 {
        let up: u64 = (0 - s) as u64;
        proof {
            // len - 24 <= s, so sig < 2^len <= 2^(24 - up)
            assert(len + up <= 24);
            lemma_pow2_adds(len as nat, up as nat);
            if len + up < 24 {
                lemma_pow2_strictly_increases((len + up) as nat, 24);
            }
            let pl = pow2(len as nat);
            let pu = pow2(up as nat);
            lemma_pow2_pos(up as nat);
            assert(sig * pu < 0x100_0000) by (nonlinear_arith)
                requires
                    sig < pl,
                    pl * pu <= 0x100_0000,
                    pu > 0,
            ;
            lemma_u64_shl_is_mul(sig, up);
            assert(!sticky);
            assert(two_to(exp - q) == pu);
            assert(two_to(q - exp) == 1);
            assert(num == sig * den);
            assert(num * pu == (sig * pu) * den) by (nonlinear_arith)
                requires
                    num == sig * den,
            ;
            lemma_round_exact((sig * pu) as nat, den);
            assert(den * 1 == den);
        }
        m = sig << up;
    } else if s >= 64 {
        proof {
            let p = pow2(s as nat);
            if s > 64 {
                lemma_pow2_strictly_increases(64, s as nat);
            }
            lemma_pow2_pos(s as nat);
            assert(two_to(exp - q) == 1);
            assert(two_to(q - exp) == p);
            assert(num * 1 == num);
            // num < (sig + 1) * den <= 2^62 * den, and 4 * 2^62 <= p
            assert(4 * num < den * p) by (nonlinear_arith)
                requires
                    num == den * (sig as int) + (num as int % den as int),
                    (num as int % den as int) < den,
                    sig < 0x4000_0000_0000_0000,
                    p >= 0x1_0000_0000_0000_0000,
                    den > 0,
            ;
            lemma_fundamental_div_mod_converse(num as int, (den * p) as int, 0, num as int);
        }
        m = 0;
    } else {
        let down: u64 = s as u64;
        let kept: u64 = sig >> down;
        proof {
            let p = pow2(down as nat);
            lemma_pow2_pos(down as nat);
            lemma_u64_shr_is_div(sig, down);
            lemma_fundamental_div_mod(sig as int, p as int);
            assert(kept * p <= sig) by (nonlinear_arith)
                requires
                    sig == p * (sig as int / p as int) + (sig as int % p as int),
                    kept == (sig as int / p as int),
                    (sig as int % p as int) >= 0,
            ;
            lemma_u64_shl_is_mul(kept, down);
            lemma_pow2_unfold(down as nat);
            lemma_pow2_pos((down - 1) as nat);
            if down - 1 < 62 {
                lemma_pow2_strictly_increases((down - 1) as nat, 62);
            }
            assert(1 * pow2((down - 1) as nat) <= u64::MAX);
            lemma_u64_shl_is_mul(1, (down - 1) as u64);
        }
        let low: u64 = sig - (kept << down);
        let half: u64 = 1u64 << (down - 1);
        let round_up: bool = low > half || (low == half && (sticky || kept % 2 == 1));
        proof {
            let p = pow2(down as nat);
            assert(low == sig as nat % p) by (nonlinear_arith)
                requires
                    sig == p * (sig as int / p as int) + (sig as int % p as int),
                    kept == (sig as int / p as int),
                    low == sig - kept * p,
            ;
            assert(two_to(exp - q) == 1);
            assert(two_to(q - exp) == p);
            assert(num * 1 == num);
            lemma_round_from_parts(num, den, p, half as nat);
        }
        m = if round_up {
            kept + 1
        } else {
            kept
        };
    }
    assert(m == round_half_even(num * two_to(exp - q), den * two_to(q - exp)));
    assert(m <= 0x4000_0000_0000_0000);
    let code: u64 = ((q + 149) as u64) * 0x80_0000 + m;
    if code >= 0x7f80_0000 {
        0x7f80_0000
    } else {
        code as u32
    }
}

/// Zero rounds to zero, and no value rounds beyond infinity.
pub proof fn lemma_round_bounds(num: nat, den: nat, exp: int)
    ensures
        round_magnitude(0, den, exp) == 0,
        round_magnitude(num, den, exp) <= 0x7f80_0000,
{
    reveal(round_magnitude);
}

/// A quotient at most `limit` rounds to at most `limit`.
pub proof fn lemma_round_below(n: nat, d: nat, limit: nat)
    requires
        d > 0,
        n <= limit * d,
    ensures
        round_half_even(n, d) <= limit,
{
    let q = n / d;
    let r = n % d;
    lemma_fundamental_div_mod(n as int, d as int);
    assert(q <= limit && (q == limit ==> r == 0)) by (nonlinear_arith)
        requires
            n == d * q + r,
            0 <= r < d,
            n <= limit * d,
            q >= 0,
    ;
}

/// The significand of a rounded value has at most 24 bits, the carry
/// included: `num / den × 2^exp`, divided by the spacing `2^q` of its
/// binade or a coarser one, rounds to at most `2^24`.
pub proof fn lemma_rounded_significand_bound(num: nat, den: nat, exp: int, q: int)
    requires
        num > 0,
        den > 0,
        q >= binade(num, den) + exp - 23,
    ensures
        round_half_even(num * two_to(exp - q), den * two_to(q - exp)) <= 0x100_0000,
{
    lemma_binade_exists(num, den);
    let b = binade(num, den);
    let t = exp - q;
    // num / den < 2^(b + 1), and b + 1 + t <= 24
    lemma2_to64();
    lemma_two_to_positive(b);
    lemma_two_to_positive(-b);
    lemma_two_to_positive(t);
    lemma_two_to_positive(-t);
    let f = two_to(-b);
    let g = two_to(b);
    let up = two_to(t);
    let down = two_to(-t);
    // 2 * g * up <= 2^24 * f * down
    lemma_two_to_is_pow2(-b);
    lemma_two_to_is_pow2(b);
    lemma_two_to_is_pow2(t);
    lemma_two_to_is_pow2(-t);
    lemma_pow2_adds(1, raised(b));
    lemma_pow2_adds(1 + raised(b), raised(t));
    lemma_pow2_adds(24, raised(-b));
    lemma_pow2_adds(24 + raised(-b), raised(-t));
    assert(1 + raised(b) + raised(t) <= 24 + raised(-b) + raised(-t));
    if 1 + raised(b) + raised(t) < 24 + raised(-b) + raised(-t) {
        lemma_pow2_strictly_increases(
            1 + raised(b) + raised(t),
            24 + raised(-b) + raised(-t),
        );
    }
    let lhs = pow2(1 + raised(b) + raised(t));
    let rhs = pow2(24 + raised(-b) + raised(-t));
    assert(lhs == (2 * g) * up);
    assert(rhs == (0x100_0000 * f) * down);
    let x = num * f;
    assert(x < 2 * den * g);
    let n = num * up;
    let d = den * down;
    assert(d > 0) by (nonlinear_arith)
        requires
            d == den * down,
            den > 0,
            down > 0,
    ;
    assert(n <= 0x100_0000 * d) by (nonlinear_arith)
        requires
            n == num * up,
            d == den * down,
            x == num * f,
            x < 2 * den * g,
            (2 * g) * up <= (0x100_0000 * f) * down,
            f > 0,
            g > 0,
            up > 0,
            down > 0,
            den > 0,
    ;
    lemma_round_below(n, d, 0x100_0000);
}

} // verus!
