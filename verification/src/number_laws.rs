//! What the results of arithmetic on binary numbers are: each law says of the result of
//! a call how it lies to the exact one.

use crate::binary_float::{
    ceil_times_power, magnitude_of, product, product_parts, quotient, signed_bits, single_bits,
    truncated, whole, Binary32, Binary64, Rounding, Unpacked,
};
use crate::binary_order::{
    in_units, lemma_nearest_even_at_most, lemma_no_units, lemma_one_is_unique,
    lemma_powers_ordered, lemma_single_bits_in_units, lemma_single_bits_ordered,
    lemma_single_value, single_units,
};
use crate::rounding::{
    denominator_in, is_leading_unit, leading_unit, lemma_leading_unit_unique,
    lemma_nearest_even_within, nearest_even, numerator_in, round_at, round_significand,
};
use vstd::arithmetic::div_mod::{
    lemma_div_is_ordered, lemma_fundamental_div_mod, lemma_fundamental_div_mod_converse,
};
use vstd::arithmetic::power2::{
    lemma2_to64, lemma2_to64_rest, lemma_pow2_adds, lemma_pow2_pos, pow2,
};
use vstd::prelude::*;

verus! {

/// Whether `r` is `m * 2^e`, negated where `negative` is set, taken to a whole number.
pub open spec fn is_whole(rounding: Rounding, r: int, negative: bool, m: nat, e: int) -> bool {
    let v = if negative {
        -(m as int)
    } else {
        m as int
    };
    if e >= 0 {
        r == v * pow2(e as nat)
    } else {
        let p = pow2((-e) as nat) as int;
        match rounding {
            Rounding::Ceil => (r - 1) * p < v <= r * p,
            Rounding::Truncate => if negative {
                (r - 1) * p < v <= r * p
            } else {
                r * p <= v < (r + 1) * p
            },
            Rounding::Nearest => if negative {
                (2 * r - 1) * p < 2 * v <= (2 * r + 1) * p
            } else {
                (2 * r - 1) * p <= 2 * v < (2 * r + 1) * p
            },
        }
    }
}

/// Whether `r` is the coordinate nearest to `x`: `x` itself wherever that is one.
pub open spec fn is_kept(x: int, r: i32) -> bool {
    &&& x < i32::MIN ==> r == i32::MIN
    &&& x > i32::MAX ==> r == i32::MAX
    &&& i32::MIN <= x <= i32::MAX ==> r == x
}

/// Whether `r` is the coordinate that `m * 2^e`, negated where `negative` is set, is
/// taken to.
pub open spec fn is_taken(rounding: Rounding, r: i32, negative: bool, m: nat, e: int) -> bool {
    exists|x: int| #[trigger] is_whole(rounding, x, negative, m, e) && is_kept(x, r)
}

/// Whether `r` is the outermost coordinate on the given side.
pub open spec fn is_outermost(r: i32, negative: bool) -> bool {
    r == if negative {
        -0x8000_0000
    } else {
        0x7fff_ffff
    }
}

/// Whether `s * 2^u` is `n / d` rounded to `p` significant bits: no more than half a unit
/// off, and even where it is just half a unit off.
pub open spec fn is_rounded(n: nat, d: nat, p: nat, s: nat, u: int) -> bool {
    let a = if u <= 0 {
        n * pow2((-u) as nat)
    } else {
        n
    };
    let b = if u <= 0 {
        d
    } else {
        d * pow2(u as nat)
    };
    &&& pow2((p - 1) as nat) * b <= a < pow2(p) * b
    &&& 2 * (s * b) - b <= 2 * a <= 2 * (s * b) + b
    &&& 2 * a == 2 * (s * b) + b || 2 * a == 2 * (s * b) - b ==> s % 2 == 0
}

/// Whether `r` is the coordinate that `(n / d) * 2^e`, rounded to double precision and
/// negated where `negative` is set, is taken to.
pub open spec fn is_computed(
    rounding: Rounding,
    r: i32,
    negative: bool,
    n: nat,
    d: nat,
    e: int,
) -> bool {
    exists|s: nat, u: int|
        #[trigger] is_rounded(n, d, 53, s, u) && is_taken(rounding, r, negative, s, u + e)
}

/// How far a coordinate is from zero.
pub open spec fn size_of(w: i32) -> nat {
    if w < 0 {
        (-w) as nat
    } else {
        w as nat
    }
}

/// Whether `r` is the coordinate that the double-precision product of `w` and `x` is
/// taken to.
pub open spec fn is_scaled(rounding: Rounding, r: i32, w: i32, x: Binary64) -> bool {
    match x.value() {
        Unpacked::Nan => r == 0,
        Unpacked::Infinite { negative } => if w == 0 {
            r == 0
        } else {
            is_outermost(r, negative != (w < 0))
        },
        Unpacked::Finite { negative, mant, exp } => {
            let n = size_of(w) * mant as nat;
            if n == 0 {
                r == 0
            } else {
                is_computed(rounding, r, negative != (w < 0), n, 1, exp as int)
            }
        },
    }
}

/// Whether `r` is the coordinate that the double-precision quotient of `w` and `x` is cut
/// down to.
pub open spec fn is_divided(r: i32, w: i32, x: Binary64) -> bool {
    match x.value() {
        Unpacked::Nan => r == 0,
        Unpacked::Infinite { .. } => r == 0,
        Unpacked::Finite { negative, mant, exp } => {
            if w == 0 {
                r == 0
            } else if mant == 0 {
                is_outermost(r, negative != (w < 0))
            } else {
                is_computed(
                    Rounding::Truncate,
                    r,
                    negative != (w < 0),
                    size_of(w),
                    mant as nat,
                    -exp,
                )
            }
        },
    }
}

/// Whether `r` is the coordinate that `x` is cut down to.
pub open spec fn is_cut(r: i32, x: Binary64) -> bool {
    match x.value() {
        Unpacked::Nan => r == 0,
        Unpacked::Infinite { negative } => is_outermost(r, negative),
        Unpacked::Finite { negative, mant, exp } => is_taken(
            Rounding::Truncate,
            r,
            negative,
            mant as nat,
            exp as int,
        ),
    }
}

/// Rounding `m * 2^e` gives a whole number as near to it as it has to be.
proof fn lemma_whole_is_whole(rounding: Rounding, negative: bool, m: nat, e: int)
    ensures
        is_whole(rounding, whole(rounding, negative, m, e), negative, m, e),
{
    let x = m as int;
    if e >= 0 {
        let u = pow2(e as nat) as int;
        assert(-(x * u) == (-x) * u) by (nonlinear_arith);
    } else {
        let u = pow2((-e) as nat) as int;
        lemma_pow2_pos((-e) as nat);
        lemma_fundamental_div_mod_converse(0, u, 0, 0);
        // Down to a whole number.
        let (q, r) = (x / u, x % u);
        lemma_fundamental_div_mod(x, u);
        assert(q * u <= x < (q + 1) * u && (-q - 1) * u < -x <= (-q) * u) by (nonlinear_arith)
            requires
                x == u * q + r,
                0 <= r < u,
        ;
        // Up to a whole number.
        let (q, r) = ((x + u - 1) / u, (x + u - 1) % u);
        lemma_fundamental_div_mod(x + u - 1, u);
        lemma_div_is_ordered(0, x + u - 1, u);
        assert((q - 1) * u < x <= q * u) by (nonlinear_arith)
            requires
                x + u - 1 == u * q + r,
                0 <= r < u,
        ;
        // To the nearest.
        let (q, r) = ((2 * x + u) / (2 * u), (2 * x + u) % (2 * u));
        lemma_fundamental_div_mod(2 * x + u, 2 * u);
        lemma_fundamental_div_mod_converse(0, 2 * u, 0, 0);
        lemma_div_is_ordered(0, 2 * x + u, 2 * u);
        assert((2 * q - 1) * u <= 2 * x < (2 * q + 1) * u && (2 * (-q) - 1) * u < 2 * (-x) <= (2 * (
        -q) + 1) * u) by (nonlinear_arith)
            requires
                2 * x + u == 2 * u * q + r,
                0 <= r < 2 * u,
        ;
    }
}

/// Rounding at the leading unit is no more than half a unit off.
proof fn lemma_rounded_at_leading_unit(n: nat, d: nat, p: nat, u: int)
    requires
        d > 0,
        is_leading_unit(n, d, p, u),
    ensures
        is_rounded(n, d, p, round_at(n, d, u), u),
{
    let (a, b) = (numerator_in(n, u), denominator_in(d, u));
    if u > 0 {
        lemma_pow2_pos(u as nat);
        assert(d * pow2(u as nat) > 0) by (nonlinear_arith)
            requires
                d > 0,
                pow2(u as nat) > 0,
        ;
    }
    let (q, r) = (a / b, a % b);
    lemma_fundamental_div_mod(a as int, b as int);
    assert(a == q * b + r && (q + 1) * b == q * b + b) by (nonlinear_arith)
        requires
            a == b * q + r,
    ;
}

/// Every positive fraction has a leading unit.
proof fn lemma_leading_unit_exists(n: nat, d: nat, p: nat)
    requires
        n > 0,
        d > 0,
        p > 0,
    ensures
        is_leading_unit(n, d, p, leading_unit(n, d, p)),
{
    // Start from a unit in which the fraction is large, and go up.
    let k = lemma_power_above(d);
    let low = -(p + k);
    assert(pow2((p - 1) as nat) * denominator_in(d, low) <= numerator_in(n, low)) by {
        lemma_pow2_adds(p, k);
        lemma_pow2_pos(p);
        lemma_pow2_adds(1, (p - 1) as nat);
        lemma2_to64();
        let (x, y, z) = (pow2((p - 1) as nat), pow2(p), pow2(k));
        assert((-low) as nat == p + k);
        assert(x * d <= n * (y * z)) by (nonlinear_arith)
            requires
                y == 2 * x,
                d < z,
                n >= 1,
        ;
    }
    let top = lemma_power_above(n);
    let e = lemma_find_leading_unit(n, d, p, low, top);
    lemma_leading_unit_unique(n, d, p, e);
}

/// Some power of two exceeds every number.
proof fn lemma_power_above(n: nat) -> (k: nat)
    ensures
        n < pow2(k),
    decreases n,
{
    lemma2_to64();
    if n == 0 {
        0
    } else {
        let k = lemma_power_above((n - 1) as nat);
        lemma_pow2_adds(1, k);
        k + 1
    }
}

/// Going up from a unit in which a fraction is at least `2^(p-1)`, the last one in which
/// it is so is its leading unit.
proof fn lemma_find_leading_unit(n: nat, d: nat, p: nat, e: int, top: nat) -> (r: int)
    requires
        d > 0,
        p > 0,
        e <= top + 1,
        n < pow2(top),
        pow2((p - 1) as nat) * denominator_in(d, e) <= numerator_in(n, e),
    ensures
        is_leading_unit(n, d, p, r),
    decreases top + 1 - e,
{
    if numerator_in(n, e) < pow2(p) * denominator_in(d, e) {
        e
    } else {
        let h = pow2((p - 1) as nat);
        lemma_pow2_pos((p - 1) as nat);
        lemma_pow2_adds(1, (p - 1) as nat);
        lemma2_to64();
        if e >= top {
            // The unit alone exceeds the fraction.
            let (x, y) = (pow2(top), denominator_in(d, e));
            lemma_pow2_pos(top);
            lemma_pow2_adds(top, (e - top) as nat);
            lemma_pow2_pos((e - top) as nat);
            assert(y >= x) by (nonlinear_arith)
                requires
                    y == d * (x * pow2((e - top) as nat)) || (y == d && x == 1),
                    d >= 1,
                    x >= 1,
                    pow2((e - top) as nat) >= 1,
            ;
            assert(h * y >= y) by (nonlinear_arith)
                requires
                    h >= 1,
            ;
        }
        assert(pow2(p) == 2 * h);
        if e < 0 {
            let k = (-e - 1) as nat;
            lemma_pow2_adds(1, k);
            assert(n * (2 * pow2(k)) == 2 * (n * pow2(k))) by (nonlinear_arith);
            assert((-e) as nat == k + 1);
            assert((-(e + 1)) as nat == k);
            assert(h * d <= n * pow2(k)) by (nonlinear_arith)
                requires
                    (2 * h) * d <= 2 * (n * pow2(k)),
            ;
        } else {
            let k = e as nat;
            lemma_pow2_adds(1, k);
            let b = denominator_in(d, e);
            assert(denominator_in(d, e + 1) == 2 * b) by {
                assert(d * (2 * pow2(k)) == 2 * (d * pow2(k))) by (nonlinear_arith);
                assert(d * 1 == d);
            }
            assert(numerator_in(n, e) == n) by {
                assert(n * 1 == n);
            }
            assert(h * (2 * b) == (2 * h) * b) by (nonlinear_arith);
        }
        lemma_find_leading_unit(n, d, p, e + 1, top)
    }
}

/// A fraction rounded to `p` bits has `p` bits, or is the next power of two, and is
/// no more than half a unit off.
pub proof fn law_significand_is_rounded(n: u128, d: u128, p: u32, r: (u64, i32))
    requires
        0 < n < 0x40_0000_0000_0000_0000_0000,
        0 < d < 0x20_0000_0000_0000,
        p == 24 || p == 53,
        call_ensures(round_significand, (n, d, p), r),
    ensures
        is_rounded(n as nat, d as nat, p as nat, r.0 as nat, r.1 as int),
{
    lemma_rounded_at_leading_unit(n as nat, d as nat, p as nat, r.1 as int);
}

/// A number cut down to a coordinate.
pub proof fn law_number_is_cut(x: Binary64, r: i32)
    requires
        call_ensures(Binary64::as_i32, (x,), r),
    ensures
        is_cut(r, x),
{
    lemma_cut(x);
}

/// What a number is cut down to.
pub(crate) proof fn lemma_cut(x: Binary64)
    ensures
        is_cut(truncated(x.value()), x),
{
    if let Unpacked::Finite { negative, mant, exp } = x.value() {
        lemma_whole_is_whole(Rounding::Truncate, negative, mant as nat, exp as int);
    }
}

/// A coordinate times a number is their product, rounded to double precision and then to
/// a coordinate.
pub proof fn law_coordinate_is_scaled(x: Binary64, w: i32, rounding: Rounding, r: i32)
    requires
        call_ensures(Binary64::scale_i32, (x, w, rounding), r),
    ensures
        is_scaled(rounding, r, w, x),
{
    lemma_scaled(x, w, rounding);
}

/// What a coordinate times a number is taken to.
pub(crate) proof fn lemma_scaled(x: Binary64, w: i32, rounding: Rounding)
    ensures
        is_scaled(rounding, product(w as int, x.value(), rounding), w, x),
{
    if let Unpacked::Finite { negative, mant, exp } = x.value() {
        let n = size_of(w) * mant as nat;
        assert(n == 0 <==> w == 0 || mant == 0) by (nonlinear_arith)
            requires
                n == size_of(w) * mant as nat,
                size_of(w) == 0 <==> w == 0,
        ;
        if n > 0 {
            let (s, u) = product_parts(w as int, mant);
            lemma_leading_unit_exists(n, 1, 53);
            lemma_rounded_at_leading_unit(n, 1, 53, u);
            lemma_whole_is_whole(rounding, negative != (w < 0), s, u + exp);
            assert(is_rounded(n, 1, 53, s, u));
        }
    }
}

/// A coordinate over a number is their quotient, rounded to double precision and then cut
/// down to a coordinate.
pub proof fn law_coordinate_is_divided(x: Binary64, w: i32, r: i32)
    requires
        call_ensures(Binary64::divide_i32, (x, w), r),
    ensures
        is_divided(r, w, x),
{
    lemma_divided(x, w);
}

/// What a coordinate over a number is cut down to.
pub(crate) proof fn lemma_divided(x: Binary64, w: i32)
    ensures
        is_divided(quotient(w as int, x.value()), w, x),
{
    if let Unpacked::Finite { negative, mant, exp } = x.value() {
        let n = magnitude_of(w as int);
        if w != 0 && mant > 0 {
            let u = leading_unit(n, mant as nat, 53);
            let s = round_at(n, mant as nat, u);
            lemma_leading_unit_exists(n, mant as nat, 53);
            lemma_rounded_at_leading_unit(n, mant as nat, 53, u);
            lemma_whole_is_whole(Rounding::Truncate, negative != (w < 0), s, u + (-exp));
            assert(is_rounded(n, mant as nat, 53, s, u));
        }
    }
}

/// How far two numbers of units are apart.
pub open spec fn distance(a: nat, b: nat) -> nat {
    if a < b {
        (b - a) as nat
    } else {
        (a - b) as nat
    }
}

/// Whether the single-precision number of size `own` and bits `bits` is no further from
/// `units` than `other` is, nor as far from it where `bits` is odd and `other` a number
/// of its own.
pub open spec fn is_nearer(units: nat, own: nat, bits: u32, other: nat) -> bool {
    ||| own == other
    ||| distance(units, own) < distance(units, other)
    ||| distance(units, own) == distance(units, other) && bits % 2 == 0
}

/// Whether the finite number `s` leaves `b`, of size `own`, the nearest to `units`.
pub open spec fn leaves_nearest(s: Binary32, b: Binary32, own: nat, units: nat) -> bool {
    s.value() matches Unpacked::Finite { mant, exp, .. } ==> is_nearer(
        units,
        own,
        b.bits,
        in_units(mant as nat, exp as int),
    )
}

/// Whether `b` is the single-precision number nearest to `units` times `2^-1074`, negated
/// where `negative` is set: an infinity from half a step past the largest number on.
pub open spec fn is_nearest_single(b: Binary32, negative: bool, units: nat) -> bool {
    let half_past = pow2(1202) - pow2(1177);
    match b.value() {
        Unpacked::Nan => false,
        Unpacked::Infinite { negative: sign } => sign == negative && units >= half_past,
        Unpacked::Finite { negative: sign, mant, exp } => {
            &&& sign == negative
            &&& units < half_past
            &&& forall|s: Binary32|
                #[trigger] leaves_nearest(s, b, in_units(mant as nat, exp as int), units)
        },
    }
}

/// Whether `b` is the single-precision number nearest to `x`.
pub open spec fn is_narrowed(b: Binary32, x: Binary64) -> bool {
    match x.value() {
        Unpacked::Nan => b.bits == 0x7fc0_0000,
        Unpacked::Infinite { negative } => b.value() == (Unpacked::Infinite { negative }),
        Unpacked::Finite { negative, mant, exp } => is_nearest_single(
            b,
            negative,
            in_units(mant as nat, exp as int),
        ),
    }
}

/// Whether `b` is the single-precision number nearest to `w`.
pub open spec fn is_float_of(b: Binary32, w: i32) -> bool {
    is_nearest_single(b, w < 0, size_of(w) * pow2(1074))
}

/// No multiple of the unit is nearer than the one that is rounded to.
proof fn lemma_nearest_even_is_nearest(n: nat, d: nat, k: nat)
    requires
        d > 0,
    ensures
        ({
            let q = nearest_even(n, d);
            ||| q == k
            ||| distance(n, q * d) < distance(n, k * d)
            ||| distance(n, q * d) == distance(n, k * d) && q % 2 == 0
        }),
{
    let (q, r) = (n / d, n % d);
    lemma_fundamental_div_mod(n as int, d as int);
    assert(n == q * d + r && (q + 1) * d == q * d + d) by (nonlinear_arith)
        requires
            n == d * q + r,
    ;
    if k < q {
        assert(k * d + d <= q * d) by (nonlinear_arith)
            requires
                k + 1 <= q,
        ;
    } else if k > q + 1 {
        assert(k * d >= (q + 1) * d + d) by (nonlinear_arith)
            requires
                k >= q + 2,
        ;
    }
}

/// The bits of a significand in units of `2^u` are the number that they stand for.
proof fn lemma_bits_of_significand(q: nat, u: nat)
    requires
        u >= 925,
        u == 925 || 0x80_0000 <= q,
        q <= 0x100_0000,
    ensures
        single_units((u - 925) * 0x80_0000 + q) == q * pow2(u),
{
    let bits = (u - 925) * 0x80_0000 + q;
    if q == 0x100_0000 {
        assert(bits == (u - 923) * 0x80_0000);
        assert(bits / 0x80_0000 == u - 923 && bits % 0x80_0000 == 0);
        lemma2_to64();
        lemma_pow2_adds(1, u);
        assert((u - 923 + 924) as nat == 1 + u);
        assert(q * pow2(u) == 0x80_0000 * (2 * pow2(u))) by (nonlinear_arith)
            requires
                q == 0x100_0000,
        ;
    } else if q >= 0x80_0000 {
        assert(bits == (u - 924) * 0x80_0000 + (q - 0x80_0000));
        assert(bits / 0x80_0000 == u - 924 && bits % 0x80_0000 == q - 0x80_0000);
        assert((bits % 0x80_0000 + 0x80_0000) as nat == q && (u - 924 + 924) as nat == u);
    } else {
        assert(bits / 0x80_0000 == 0 && (bits % 0x80_0000) as nat == q);
    }
}

/// The bits that a number narrows to are those of the nearest single-precision number.
proof fn lemma_single_bits_nearest(negative: bool, mant: nat, exp: int, b: Binary32)
    requires
        mant < 0x20_0000_0000_0000,
        exp >= -1074,
        b.bits == signed_bits(negative, single_bits(mant, exp)),
    ensures
        is_nearest_single(b, negative, in_units(mant, exp)),
{
    let n = in_units(mant, exp);
    let size = single_bits(mant, exp);
    lemma_single_bits_ordered(mant, exp, mant, exp);
    lemma_single_value(negative, size);
    lemma2_to64();
    lemma_pow2_pos(1177);
    lemma_pow2_adds(1, 1177);
    lemma_pow2_adds(24, 1178);
    assert(b == Binary32 { bits: signed_bits(negative, size) as u32 });
    if mant == 0 {
        assert(n == 0) by {
            lemma_no_units(mant, exp);
        }
        assert(single_units(0) == 0) by {
            assert(0 * pow2(925) == 0) by (nonlinear_arith);
        }
    } else {
        let u = lemma_single_bits_in_units(mant, exp);
        let d = pow2(u);
        let q = nearest_even(n, d);
        lemma_pow2_pos(u);
        let low: nat = if u == 925 { 0 } else { 0x80_0000 };
        lemma_nearest_even_within(n, d, low, 0x100_0000);
        // Where the largest number is passed.
        if u == 1178 {
            lemma_nearest_even_at_most(n, pow2(1178), 0xff_ffff);
        } else if u < 1178 {
            lemma_powers_ordered(u, 1177);
        } else {
            lemma_pow2_adds(1, 1178);
            lemma_powers_ordered(1179, u);
        }
        assert(size == 0x7f80_0000 <==> n >= pow2(1202) - pow2(1177));
        if size < 0x7f80_0000 {
            lemma_bits_of_significand(q, u);
            assert(b.bits % 2 == q % 2);
            assert forall|s: Binary32| #[trigger] leaves_nearest(s, b, q * d, n) by {
                if let Unpacked::Finite { mant: m, exp: e, .. } = s.value() {
                    let g = (e + 1074) as nat;
                    let other = in_units(m as nat, e as int);
                    if g >= u {
                        let j = (g - u) as nat;
                        lemma_pow2_adds(j, u);
                        let k = m as nat * pow2(j);
                        assert(other == k * d) by (nonlinear_arith)
                            requires
                                other == m as nat * (pow2(j) * d),
                                k == m as nat * pow2(j),
                        ;
                        lemma_nearest_even_is_nearest(n, d, k);
                    } else {
                        lemma_pow2_adds(1, g);
                        lemma_powers_ordered(1 + g, u);
                        lemma_pow2_pos(g);
                        let p = pow2(g);
                        assert(other < 0x80_0000 * d) by (nonlinear_arith)
                            requires
                                other == m as nat * p,
                                m < 0x100_0000,
                                2 * p <= d,
                                p > 0,
                        ;
                        lemma_nearest_even_is_nearest(n, d, 0x80_0000);
                    }
                }
            }
        }
    }
}

/// A double-precision number narrows to the nearest of the single-precision numbers.
pub proof fn law_number_is_narrowed(x: Binary64, b: Binary32)
    requires
        call_ensures(Binary64::narrow, (x,), b),
    ensures
        is_narrowed(b, x),
{
    lemma_narrowed(x);
}

/// What a double-precision number narrows to.
pub(crate) proof fn lemma_narrowed(x: Binary64)
    ensures
        is_narrowed(x.narrowed(), x),
{
    let b = x.narrowed();
    match x.value() {
        Unpacked::Infinite { negative } => {
            lemma_single_value(negative, 0x7f80_0000);
        },
        Unpacked::Finite { negative, mant, exp } => {
            lemma_single_bits_ordered(mant as nat, exp as int, mant as nat, exp as int);
            lemma_single_bits_nearest(negative, mant as nat, exp as int, b);
        },
        _ => {},
    }
}

/// A coordinate becomes the nearest of the single-precision numbers.
pub proof fn law_coordinate_becomes_a_float(w: i32, b: Binary32)
    requires
        call_ensures(Binary32::from_i32, (w,), b),
    ensures
        is_float_of(b, w),
{
    lemma_float_of(w);
}

/// What a coordinate becomes in single precision.
pub(crate) proof fn lemma_float_of(w: i32)
    ensures
        is_float_of(Binary32::of_i32(w), w),
{
    lemma_single_bits_ordered(size_of(w), 0, size_of(w), 0);
    lemma_single_bits_nearest(w < 0, size_of(w), 0, Binary32::of_i32(w));
}

/// The parts of a single-precision number give back its bits, and there is one way to
/// take it apart.
pub proof fn law_single_is_its_parts(x: Binary32, r: Unpacked)
    requires
        call_ensures(Binary32::unpack, (x,), r),
    ensures
        r == x.value(),
        match r {
            Unpacked::Nan => {
                ||| 0x7f80_0000 < x.bits < 0x8000_0000
                ||| 0xff80_0000 < x.bits
            },
            Unpacked::Infinite { negative } => x.bits == if negative {
                0xff80_0000u32
            } else {
                0x7f80_0000u32
            },
            Unpacked::Finite { negative, mant, exp } => {
                &&& mant < 0x100_0000
                &&& -149 <= exp <= 104
                &&& mant >= 0x80_0000 || exp == -149
                // The exponent counts from one where the significand is full.
                &&& x.bits == (exp + 149) * 0x80_0000 + mant + if negative {
                    0x8000_0000int
                } else {
                    0
                }
            },
        },
{
}

/// The parts of a double-precision number give back its bits, and there is one way to
/// take it apart.
pub proof fn law_double_is_its_parts(x: Binary64, r: Unpacked)
    requires
        call_ensures(Binary64::unpack, (x,), r),
    ensures
        r == x.value(),
        match r {
            Unpacked::Nan => {
                ||| 0x7ff0_0000_0000_0000 < x.bits < 0x8000_0000_0000_0000
                ||| 0xfff0_0000_0000_0000 < x.bits
            },
            Unpacked::Infinite { negative } => x.bits == if negative {
                0xfff0_0000_0000_0000u64
            } else {
                0x7ff0_0000_0000_0000u64
            },
            Unpacked::Finite { negative, mant, exp } => {
                &&& mant < 0x20_0000_0000_0000
                &&& -1074 <= exp <= 971
                &&& mant >= 0x10_0000_0000_0000 || exp == -1074
                &&& x.bits == (exp + 1074) * 0x10_0000_0000_0000 + mant + if negative {
                    0x8000_0000_0000_0000int
                } else {
                    0
                }
            },
        },
{
}

/// Zeros are the numbers without a bit but their sign, and one is one.
pub proof fn law_zero_and_one_are_told(
    x: Binary32,
    y: Binary64,
    single_zero: bool,
    single_one: bool,
    double_zero: bool,
    double_one: bool,
)
    requires
        call_ensures(Binary32::equals_zero, (x,), single_zero),
        call_ensures(Binary32::equals_one, (x,), single_one),
        call_ensures(Binary64::equals_zero, (y,), double_zero),
        call_ensures(Binary64::equals_one, (y,), double_one),
    ensures
        single_zero <==> x.bits % 0x8000_0000 == 0,
        double_zero <==> y.bits % 0x8000_0000_0000_0000 == 0,
        single_one <==> (x.value() matches Unpacked::Finite { negative, mant, exp } && !negative
            && in_units(mant as nat, exp as int) == pow2(1074)),
        double_one <==> (y.value() matches Unpacked::Finite { negative, mant, exp } && !negative
            && in_units(mant as nat, exp as int) == pow2(1074)),
{
    lemma2_to64();
    lemma2_to64_rest();
    lemma_pow2_adds(52, 1022);
    lemma_pow2_adds(23, 1051);
    if let Unpacked::Finite { negative, mant, exp } = y.value() {
        if !negative && in_units(mant as nat, exp as int) == pow2(1074) {
            lemma_one_is_unique(y);
        }
    }
    if let Unpacked::Finite { negative, mant, exp } = x.value() {
        if !negative && in_units(mant as nat, exp as int) == pow2(1074) {
            let g = (exp + 1074) as nat;
            let (p, q) = (pow2(g) as int, pow2(1051) as int);
            let m = mant as int;
            lemma_pow2_pos(g);
            lemma_pow2_pos(1051);
            if g < 1051 {
                lemma_pow2_adds(1, g);
                lemma_powers_ordered(1 + g, 1051);
                assert(m * p < 0x80_0000 * q) by (nonlinear_arith)
                    requires
                        m < 0x100_0000,
                        0 < 2 * p <= q,
                ;
            } else if g > 1051 {
                lemma_pow2_adds(1, 1051);
                lemma_powers_ordered(1052, g);
                assert(m * p > 0x80_0000 * q) by (nonlinear_arith)
                    requires
                        m >= 0x80_0000,
                        0 < 2 * q <= p,
                ;
            } else {
                assert(m == 0x80_0000) by (nonlinear_arith)
                    requires
                        m * q == 0x80_0000 * q,
                        q > 0,
                ;
            }
        }
    }
}

/// The bits of one are those of the nearest number to one.
pub(crate) proof fn lemma_constant_one(one: Binary32)
    requires
        one.is_one(),
    ensures
        is_float_of(one, 1),
        one.bits == 0x3f80_0000,
{
    lemma2_to64();
    lemma2_to64_rest();
    assert(1 * pow2(1074) == pow2(1074));
    assert(single_bits(1, 0) == 0x3f80_0000) by {
        assert(1 * 0x80_0000 == 0x80_0000);
        assert(numerator_in(1, -23) == 0x80_0000);
        assert(is_leading_unit(1, 1, 24, -23));
        lemma_leading_unit_unique(1, 1, 24, -23);
        assert(round_at(1, 1, -23) == 0x80_0000);
    }
    lemma_single_bits_nearest(false, 1, 0, one);
}

/// The bits of zero are those of the nearest number to zero.
pub(crate) proof fn lemma_constant_zero(zero: Binary32)
    requires
        zero.bits == 0,
    ensures
        is_float_of(zero, 0),
{
    assert(0 * pow2(1074) == 0);
    lemma_single_bits_nearest(false, 0, 0, zero);
}

/// The constants are what they are called.
pub proof fn law_constants_are_zero_and_one(zero: Binary32, one: Binary32)
    requires
        call_ensures(Binary32::zero, (), zero),
        call_ensures(Binary32::one, (), one),
    ensures
        is_float_of(zero, 0),
        is_float_of(one, 1),
{
    lemma_constant_zero(zero);
    lemma_constant_one(one);
}

/// Whether `r` is the coordinate that `2^n` times `x` is taken up to. `2^n` is an infinity
/// from `n = 128` on and zero from `n = -128` down, and a product of up to `2^-150` is
/// zero.
pub open spec fn is_power_taken(r: i32, n: int, x: Binary32) -> bool {
    match x.value() {
        Unpacked::Nan => r == 0,
        Unpacked::Infinite { negative } => if n <= -128 {
            r == 0
        } else {
            is_outermost(r, negative)
        },
        Unpacked::Finite { negative, mant, exp } => {
            let e = exp + n;
            if mant == 0 || n <= -128 || (e <= -150 && mant <= pow2((-150 - e) as nat)) {
                r == 0
            } else if n >= 128 {
                is_outermost(r, negative)
            } else {
                is_taken(Rounding::Ceil, r, negative, mant as nat, e)
            }
        },
    }
}

/// A power of two times a number, taken up to a coordinate.
pub proof fn law_power_is_taken(x: Binary32, n: i32, r: i32)
    requires
        call_ensures(Binary32::ceil_times_power, (x, n), r),
    ensures
        is_power_taken(r, n as int, x),
{
    lemma_power_taken(x, n as int);
}

/// What a power of two times a number is taken up to.
pub(crate) proof fn lemma_power_taken(x: Binary32, n: int)
    ensures
        is_power_taken(ceil_times_power(n, x.value()), n, x),
{
    if let Unpacked::Finite { negative, mant, exp } = x.value() {
        let e = exp + n;
        lemma_whole_is_whole(Rounding::Ceil, negative, mant as nat, e);
        if e <= -150 {
            let k = (-149 - e) as nat;
            lemma2_to64();
            lemma_pow2_pos(k);
            lemma_pow2_adds(1, (k - 1) as nat);
            assert(1 * pow2(k) == pow2(k));
            lemma_nearest_even_at_most(mant as nat, pow2(k), 0);
        }
    }
}

} // verus!
