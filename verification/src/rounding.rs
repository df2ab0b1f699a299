//! Rounding of positive fractions to a fixed number of significant bits.
//!
//! A fraction `n / d` is measured in units of `2^e`. Its leading unit is the one
//! in which the fraction fills exactly the wanted number of bits; rounding takes
//! the nearest whole number of units, and the even one of two that are equally
//! near. This is the default rounding of IEEE 754 arithmetic.

use vstd::arithmetic::div_mod::{
    lemma_div_is_ordered, lemma_fundamental_div_mod, lemma_fundamental_div_mod_converse,
};
use vstd::arithmetic::power2::{
    lemma2_to64, lemma2_to64_rest, lemma_pow2_adds, lemma_pow2_pos, lemma_pow2_unfold, pow2,
};
use vstd::prelude::*;

verus! {

/// The whole number nearest to `n / d`, the even one of two that are equally near.
pub open spec fn nearest_even(n: nat, d: nat) -> nat {
    let q = n / d;
    let r = n % d;
    if 2 * r < d || (2 * r == d && q % 2 == 0) {
        q
    } else {
        q + 1
    }
}

/// The numerator of `n / d` measured in units of `2^e`.
pub open spec fn numerator_in(n: nat, e: int) -> nat {
    if e <= 0 {
        n * pow2((-e) as nat)
    } else {
        n
    }
}

/// The denominator of `n / d` measured in units of `2^e`.
pub open spec fn denominator_in(d: nat, e: int) -> nat {
    if e <= 0 {
        d
    } else {
        d * pow2(e as nat)
    }
}

/// Whether `n / d`, measured in units of `2^e`, lies in `[2^(p-1), 2^p)`.
pub open spec fn is_leading_unit(n: nat, d: nat, p: nat, e: int) -> bool {
    pow2((p - 1) as nat) * denominator_in(d, e) <= numerator_in(n, e) < pow2(p)
        * denominator_in(d, e)
}

/// The exponent of the unit in which `n / d` has exactly `p` bits.
pub open spec fn leading_unit(n: nat, d: nat, p: nat) -> int {
    choose|e: int| is_leading_unit(n, d, p, e)
}

/// `n / d` rounded to whole units of `2^e`.
pub open spec fn round_at(n: nat, d: nat, e: int) -> nat {
    nearest_even(numerator_in(n, e), denominator_in(d, e))
}

/// Every positive number lies between a power of two and the next.
pub proof fn lemma_between_powers(n: nat, k: nat) -> (r: nat)
    requires
        0 < n < pow2(k),
    ensures
        r < k,
        pow2(r) <= n < pow2(r + 1),
    decreases k,
{
    if k == 0 {
        lemma2_to64();
        0
    } else if pow2((k - 1) as nat) <= n {
        (k - 1) as nat
    } else {
        lemma_between_powers(n, (k - 1) as nat)
    }
}

/// A whole multiple rounds to itself.
pub proof fn lemma_nearest_even_exact(q: nat, d: nat)
    requires
        d > 0,
    ensures
        nearest_even(q * d, d) == q,
{
    lemma_fundamental_div_mod_converse((q * d) as int, d as int, q as int, 0);
}

/// A common factor does not change what a fraction rounds to.
pub proof fn lemma_nearest_even_scaled(n: nat, d: nat, c: nat)
    requires
        d > 0,
        c > 0,
    ensures
        nearest_even(n * c, d * c) == nearest_even(n, d),
{
    let (q, r) = (n / d, n % d);
    lemma_fundamental_div_mod(n as int, d as int);
    assert(d * c > 0 && r * c < d * c) by (nonlinear_arith)
        requires
            c > 0,
            d > 0,
            r < d,
    ;
    assert(n * c == q * (d * c) + r * c) by (nonlinear_arith)
        requires
            n == d * q + r,
    ;
    lemma_fundamental_div_mod_converse((n * c) as int, (d * c) as int, q as int, (r * c) as int);
    assert((2 * (r * c) < d * c <==> 2 * r < d) && (2 * (r * c) == d * c <==> 2 * r == d))
        by (nonlinear_arith)
        requires
            c > 0,
    ;
}

/// Rounding does not reverse an order.
pub proof fn lemma_nearest_even_ordered(n: nat, m: nat, d: nat)
    requires
        n <= m,
        d > 0,
    ensures
        nearest_even(n, d) <= nearest_even(m, d),
{
    lemma_fundamental_div_mod(n as int, d as int);
    lemma_fundamental_div_mod(m as int, d as int);
    lemma_div_is_ordered(n as int, m as int, d as int);
}

/// Rounding does not go past a whole number.
pub proof fn lemma_nearest_even_within(n: nat, d: nat, low: nat, high: nat)
    requires
        d > 0,
        low * d <= n <= high * d,
    ensures
        low <= nearest_even(n, d) <= high,
{
    lemma_nearest_even_exact(low, d);
    lemma_nearest_even_exact(high, d);
    lemma_nearest_even_ordered(low * d, n, d);
    lemma_nearest_even_ordered(n, high * d, d);
}

/// Going from units of `2^e` to units twice as large halves the fraction.
proof fn lemma_next_unit(n: nat, d: nat, e: int)
    ensures
        numerator_in(n, e) * denominator_in(d, e + 1) == 2 * numerator_in(n, e + 1)
            * denominator_in(d, e),
{
    if e < 0 {
        lemma_pow2_unfold((-e) as nat);
        let x = pow2((-e - 1) as nat);
        assert((-e) as nat - 1 == (-e - 1) as nat);
        assert((-(e + 1)) as nat == (-e - 1) as nat);
        assert(n * (2 * x) * d == 2 * (n * x) * d) by (nonlinear_arith);
        lemma2_to64();
    } else {
        lemma_pow2_unfold((e + 1) as nat);
        let x = pow2(e as nat);
        lemma2_to64();
        if e == 0 {
            assert(n * 1 * (d * 2) == 2 * n * d) by (nonlinear_arith);
        } else {
            assert(n * (d * (2 * x)) == 2 * n * (d * x)) by (nonlinear_arith);
        }
    }
}

proof fn lemma_denominator_positive(d: nat, e: int)
    requires
        d > 0,
    ensures
        denominator_in(d, e) > 0,
{
    if e > 0 {
        lemma_pow2_pos(e as nat);
        assert(d * pow2(e as nat) > 0) by (nonlinear_arith)
            requires
                d > 0,
                pow2(e as nat) > 0,
        ;
    }
}

/// In a larger unit a fraction below `2^p` units stays below `2^(p-1)`.
proof fn lemma_below_in_larger_units(n: nat, d: nat, p: nat, e: int, f: int)
    requires
        d > 0,
        p > 0,
        e < f,
        numerator_in(n, e) < pow2(p) * denominator_in(d, e),
    ensures
        numerator_in(n, f) < pow2((p - 1) as nat) * denominator_in(d, f),
    decreases f - e,
{
    let (a, b) = (numerator_in(n, e), denominator_in(d, e));
    let (a1, b1) = (numerator_in(n, e + 1), denominator_in(d, e + 1));
    let h = pow2((p - 1) as nat);
    lemma_next_unit(n, d, e);
    lemma_pow2_unfold(p);
    lemma_denominator_positive(d, e);
    lemma_denominator_positive(d, e + 1);
    assert(a1 < h * b1) by (nonlinear_arith)
        requires
            a * b1 == 2 * a1 * b,
            a < 2 * h * b,
            b > 0,
            b1 > 0,
    {
        if a1 >= h * b1 {
            assert(2 * a1 * b >= 2 * (h * b1) * b);
            assert(a * b1 < 2 * h * b * b1);
        }
    }
    if e + 1 < f {
        lemma_pow2_pos((p - 1) as nat);
        assert(a1 < pow2(p) * b1) by (nonlinear_arith)
            requires
                a1 < h * b1,
                pow2(p) == 2 * h,
        ;
        lemma_below_in_larger_units(n, d, p, e + 1, f);
    }
}

/// A fraction has one leading unit.
pub proof fn lemma_leading_unit_unique(n: nat, d: nat, p: nat, e: int)
    requires
        d > 0,
        p > 0,
        is_leading_unit(n, d, p, e),
    ensures
        leading_unit(n, d, p) == e,
{
    let f = leading_unit(n, d, p);
    assert(is_leading_unit(n, d, p, f));
    if e < f {
        lemma_below_in_larger_units(n, d, p, e, f);
    } else if f < e {
        lemma_below_in_larger_units(n, d, p, f, e);
    }
}

/// Rounds `n / d` to `p` significant bits: the significand and the exponent of its
/// unit. A significand that rounds up to `2^p` is left as it is.
pub fn round_significand(n: u128, d: u128, p: u32) -> (r: (u64, i32))
    requires
        0 < n < 0x40_0000_0000_0000_0000_0000,
        0 < d < 0x20_0000_0000_0000,
        p == 24 || p == 53,
    ensures
        is_leading_unit(n as nat, d as nat, p as nat, r.1 as int),
        r.1 == leading_unit(n as nat, d as nat, p as nat),
        r.0 == round_at(n as nat, d as nat, r.1 as int),
        pow2((p - 1) as nat) <= r.0 <= pow2(p as nat),
        -106 <= r.1 <= 86,
{
    proof {
        lemma2_to64();
        lemma2_to64_rest();
    }
    let half: u128 = if p == 24 { 0x80_0000 } else { 0x10_0000_0000_0000 };
    assert(half == pow2((p - 1) as nat) && 2 * half == pow2(p as nat));
    let mut num: u128 = n;
    let mut den: u128 = d;
    assert(d * half < 0x20_0000_0000_0000 * 0x10_0000_0000_0000) by (nonlinear_arith)
        requires
            0 < d < 0x20_0000_0000_0000,
            0 < half <= 0x10_0000_0000_0000,
    ;
    // `den` times `half`.
    let mut low: u128 = d * half;
    let mut e: i32 = 0;
    assert(n * pow2(0) == n) by (nonlinear_arith)
        requires
            pow2(0) == 1,
    ;
    while num < low
        invariant
            0 < n,
            den == d,
            low == d * half,
            low < 0x200_0000_0000_0000_0000_0000_0000,
            -105 <= e <= 0,
            num == n * pow2((-e) as nat),
            num >= pow2((-e) as nat),
            e < 0 ==> num < 2 * low,
        decreases 2 * low - num,
    {
        proof {
            let k = (-e) as nat;
            lemma_pow2_pos(k);
            lemma_pow2_unfold(k + 1);
            assert(2 * (n * pow2(k)) == n * (2 * pow2(k))) by (nonlinear_arith);
            if k == 105 {
                lemma2_to64();
                lemma2_to64_rest();
                lemma_pow2_adds(64, 41);
            }
        }
        num = num * 2;
        e = e - 1;
    }
    let ghost num0 = num;
    let ghost e0 = e;
    while num - low >= low
        invariant
            num == num0,
            num0 < 0x40_0000_0000_0000_0000_0000 || (e == e0 && num0 < 2 * low),
            e0 < 0 ==> e == e0 && num0 < 2 * low,
            e0 <= 0,
            low <= num,
            0 < half <= 0x10_0000_0000_0000,
            0 < d,
            low == den * half,
            0 < den,
            e0 == 0 ==> e >= 0 && e <= 86 && den == d * pow2(e as nat) && den >= pow2(e as nat),
            e0 < 0 ==> den == d,
        decreases num - low,
    {
        proof {
            let k = e as nat;
            lemma_pow2_unfold(k + 1);
            assert(2 * (d * pow2(k)) == d * (2 * pow2(k))) by (nonlinear_arith);
            assert(den <= low) by (nonlinear_arith)
                requires
                    low == den * half,
                    half >= 1,
            ;
            assert((2 * den) * half == 2 * (den * half)) by (nonlinear_arith);
            if k == 86 {
                lemma2_to64();
                lemma2_to64_rest();
                lemma_pow2_adds(64, 22);
            }
        }
        den = den * 2;
        low = low * 2;
        e = e + 1;
    }
    assert(num == numerator_in(n as nat, e as int) && den == denominator_in(d as nat, e as int));
    proof {
        lemma2_to64();
        lemma_leading_unit_unique(n as nat, d as nat, p as nat, e as int);
    }
    let q: u128 = num / den;
    let r: u128 = num % den;
    proof {
        assert(half <= q < 2 * half) by (nonlinear_arith)
            requires
                q == num / den,
                den > 0,
                den * half <= num < 2 * (den * half),
        ;
    }
    let up: bool = !(r < den - r || (r == den - r && q % 2 == 0));
    let significand: u64 = if up { q as u64 + 1 } else { q as u64 };
    (significand, e)
}

} // verus!
