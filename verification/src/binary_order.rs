//! The order of binary numbers, and which operations keep it.

use crate::binary_float::{
    ceil_times_power, is_zero, narrowed_bits, signed_bits, single_bits, vanishes, whole, Binary32,
    Binary64, Rounding, Unpacked,
};
use crate::rounding::{
    is_leading_unit, lemma_between_powers, lemma_leading_unit_unique, lemma_nearest_even_exact,
    lemma_nearest_even_ordered, lemma_nearest_even_scaled, lemma_nearest_even_within,
    nearest_even, round_at,
};
use vstd::arithmetic::div_mod::{
    lemma_div_is_ordered, lemma_div_multiples_vanish_quotient, lemma_fundamental_div_mod,
    lemma_fundamental_div_mod_converse,
};
use vstd::arithmetic::power2::{
    lemma2_to64, lemma2_to64_rest, lemma_pow2_adds, lemma_pow2_pos, lemma_pow2_strictly_increases,
    pow2,
};
use vstd::prelude::*;

verus! {

/// `mant * 2^exp` in units of `2^-1074`, the smallest double-precision number.
pub open spec fn in_units(mant: nat, exp: int) -> nat
    recommends
        exp >= -1074,
{
    mant * pow2((exp + 1074) as nat)
}

/// A finite number in units of `2^-1074`, with its sign.
pub open spec fn signed_units(negative: bool, mant: u64, exp: i32) -> int {
    if negative {
        -(in_units(mant as nat, exp as int) as int)
    } else {
        in_units(mant as nat, exp as int) as int
    }
}

/// Whether `x` is a number that is not larger than the number `y`.
pub open spec fn at_most(x: Unpacked, y: Unpacked) -> bool {
    match (x, y) {
        (Unpacked::Nan, _) => false,
        (_, Unpacked::Nan) => false,
        (Unpacked::Infinite { negative: a }, Unpacked::Infinite { negative: b }) => a || !b,
        (Unpacked::Infinite { negative }, Unpacked::Finite { .. }) => negative,
        (Unpacked::Finite { .. }, Unpacked::Infinite { negative }) => !negative,
        (
            Unpacked::Finite { negative: a, mant: m, exp: e },
            Unpacked::Finite { negative: b, mant: n, exp: f },
        ) => signed_units(a, m, e) <= signed_units(b, n, f),
    }
}

/// Powers of two are in the order of their exponents.
pub proof fn lemma_powers_ordered(e: nat, f: nat)
    requires
        e <= f,
    ensures
        0 < pow2(e) <= pow2(f),
{
    lemma_pow2_pos(e);
    if e < f {
        lemma_pow2_strictly_increases(e, f);
    }
}

/// The single-precision bits of a number in units of `2^-1074`: the number is rounded
/// to units of `2^u`, in which it has twenty-four bits, or fewer where `2^u` is the
/// smallest single-precision number.
pub proof fn lemma_single_bits_in_units(mant: nat, exp: int) -> (u: nat)
    requires
        0 < mant < 0x20_0000_0000_0000,
        exp >= -1074,
    ensures
        u >= 925,
        in_units(mant, exp) < 0x100_0000 * pow2(u),
        u == 925 || 0x80_0000 * pow2(u) <= in_units(mant, exp),
        ({
            let bits = (u - 925) * 0x80_0000 + nearest_even(in_units(mant, exp), pow2(u));
            single_bits(mant, exp) == if bits < 0x7f80_0000 {
                bits
            } else {
                0x7f80_0000
            }
        }),
{
    lemma2_to64();
    lemma2_to64_rest();
    let k = (exp + 1074) as nat;
    let n = in_units(mant, exp);
    let r = lemma_between_powers(mant, 53);
    let lead = r - 23;
    assert(is_leading_unit(mant, 1, 24, lead)) by {
        if lead <= 0 {
            let j = (-lead) as nat;
            lemma_pow2_adds(r, j);
            lemma_pow2_adds(r + 1, j);
            lemma_pow2_pos(j);
            assert(pow2(r) * pow2(j) <= mant * pow2(j) < pow2(r + 1) * pow2(j)) by (nonlinear_arith)
                requires
                    pow2(r) <= mant < pow2(r + 1),
                    pow2(j) > 0,
            ;
        } else {
            lemma_pow2_adds(23, lead as nat);
            lemma_pow2_adds(24, lead as nat);
        }
    }
    lemma_leading_unit_unique(mant, 1, 24, lead);
    let u: nat = if lead + k < 925 {
        925
    } else {
        (lead + k) as nat
    };
    lemma_pow2_adds(r, k);
    lemma_pow2_adds(r + 1, k);
    lemma_pow2_pos(k);
    lemma_pow2_pos(u);
    assert(pow2(r + k) <= n < pow2(r + 1 + k)) by (nonlinear_arith)
        requires
            pow2(r) <= mant < pow2(r + 1),
            n == mant * pow2(k),
            pow2(r + k) == pow2(r) * pow2(k),
            pow2(r + 1 + k) == pow2(r + 1) * pow2(k),
            pow2(k) > 0,
    ;
    lemma_pow2_adds(23, u);
    lemma_pow2_adds(24, u);
    lemma_powers_ordered(r + 1 + k, 24 + u);
    // Rounding `mant` in units of `2^(u - k)` is rounding `n` in units of `2^u`.
    let e = u - k;
    assert(round_at(mant, 1, e) == nearest_even(n, pow2(u))) by {
        if e <= 0 {
            let j = (-e) as nat;
            lemma_pow2_adds(j, u);
            assert(mant * pow2(j) * pow2(u) == n) by (nonlinear_arith)
                requires
                    n == mant * pow2(k),
                    pow2(k) == pow2(j) * pow2(u),
            ;
            lemma_nearest_even_scaled(mant * pow2(j), 1, pow2(u));
        } else {
            let j = e as nat;
            lemma_pow2_adds(j, k);
            lemma_pow2_pos(j);
            lemma_nearest_even_scaled(mant, pow2(j), pow2(k));
        }
    }
    u
}

/// Narrowing keeps the order of numbers that are not negative.
pub proof fn lemma_single_bits_ordered(m: nat, e: int, n: nat, f: int)
    requires
        m < 0x20_0000_0000_0000,
        n < 0x20_0000_0000_0000,
        e >= -1074,
        f >= -1074,
        in_units(m, e) <= in_units(n, f),
    ensures
        0 <= single_bits(m, e) <= single_bits(n, f) <= 0x7f80_0000,
{
    lemma_pow2_pos((e + 1074) as nat);
    lemma_pow2_pos((f + 1074) as nat);
    if m == 0 {
        if n > 0 {
            let v = lemma_single_bits_in_units(n, f);
        }
    } else {
        let (x, y) = (in_units(m, e), in_units(n, f));
        assert(x > 0) by (nonlinear_arith)
            requires
                x == m * pow2((e + 1074) as nat),
                m > 0,
                pow2((e + 1074) as nat) > 0,
        ;
        assert(n > 0) by (nonlinear_arith)
            requires
                y == n * pow2((f + 1074) as nat),
                y > 0,
        ;
        let u = lemma_single_bits_in_units(m, e);
        let v = lemma_single_bits_in_units(n, f);
        lemma_pow2_pos(u);
        lemma_pow2_pos(v);
        if u == v {
            lemma_nearest_even_ordered(x, y, pow2(u));
        } else if u < v {
            lemma_nearest_even_within(x, pow2(u), 0, 0x100_0000);
            lemma_nearest_even_within(y, pow2(v), 0x80_0000, 0x100_0000);
        } else {
            lemma2_to64();
            lemma_pow2_adds(1, v);
            lemma_powers_ordered(1 + v, u);
        }
    }
}

/// What a single-precision number without a sign is in units of `2^-1074`.
pub open spec fn single_units(bits: int) -> nat {
    let field = bits / 0x80_0000;
    let fraction = bits % 0x80_0000;
    if field == 0 {
        fraction as nat * pow2(925)
    } else {
        (fraction + 0x80_0000) as nat * pow2((field + 924) as nat)
    }
}

/// The bits of a single-precision number give its sign and its size.
pub proof fn lemma_single_value(negative: bool, bits: int)
    requires
        0 <= bits <= 0x7f80_0000,
    ensures
        ({
            let value = Binary32 { bits: signed_bits(negative, bits) as u32 }.value();
            if bits == 0x7f80_0000 {
                value == (Unpacked::Infinite { negative })
            } else {
                value matches Unpacked::Finite { negative: n, mant, exp } && n == negative && exp
                    >= -149 && mant < 0x100_0000 && in_units(mant as nat, exp as int)
                    == single_units(bits)
            }
        }),
{
}

/// Single-precision numbers without a sign are in the order of their bits.
proof fn lemma_single_units_ordered(a: int, b: int)
    requires
        0 <= a <= b < 0x7f80_0000,
    ensures
        single_units(a) <= single_units(b),
{
    let (f, g) = (a / 0x80_0000, b / 0x80_0000);
    let m: int = if f == 0 { a % 0x80_0000 } else { a % 0x80_0000 + 0x80_0000 };
    let n: int = if g == 0 { b % 0x80_0000 } else { b % 0x80_0000 + 0x80_0000 };
    let i: nat = if f == 0 { 925 } else { (f + 924) as nat };
    let j: nat = if g == 0 { 925 } else { (g + 924) as nat };
    lemma_powers_ordered(i, j);
    let (p, q) = (pow2(i) as int, pow2(j) as int);
    if f == g || f == 0 {
        assert(m * p <= n * q) by (nonlinear_arith)
            requires
                0 <= m <= n,
                0 < p <= q,
        ;
    } else {
        lemma2_to64();
        lemma_pow2_adds(1, i);
        lemma_powers_ordered(1 + i, j);
        assert(m * p <= n * q) by (nonlinear_arith)
            requires
                0 <= m < 0x100_0000,
                0x80_0000 <= n,
                0 < 2 * p <= q,
        ;
    }
}

/// Narrowing keeps the order of numbers.
pub proof fn law_narrowing_keeps_order(x: Binary64, y: Binary64)
    requires
        at_most(x.value(), y.value()),
    ensures
        at_most(x.narrowed().value(), y.narrowed().value()),
{
    let (a, b) = (narrowed_size(x.value()), narrowed_size(y.value()));
    lemma_narrowed_size(x);
    lemma_narrowed_size(y);
    lemma_single_value(is_negative(x.value()), a);
    lemma_single_value(is_negative(y.value()), b);
    match (x.value(), y.value()) {
        (
            Unpacked::Finite { negative: c, mant: m, exp: e },
            Unpacked::Finite { negative: d, mant: n, exp: f },
        ) => {
            if !c && !d {
                lemma_single_bits_ordered(m as nat, e as int, n as nat, f as int);
            } else if c && d {
                lemma_single_bits_ordered(n as nat, f as int, m as nat, e as int);
            } else if !c {
                // Both are zero.
                lemma_no_units(m as nat, e as int);
                lemma_no_units(n as nat, f as int);
            }
        },
        _ => {},
    }
    if a < 0x7f80_0000 && b < 0x7f80_0000 {
        if a <= b {
            lemma_single_units_ordered(a, b);
        }
        if b <= a {
            lemma_single_units_ordered(b, a);
        }
    }
}

/// Whether a number has a sign.
spec fn is_negative(x: Unpacked) -> bool {
    match x {
        Unpacked::Nan => false,
        Unpacked::Infinite { negative } => negative,
        Unpacked::Finite { negative, .. } => negative,
    }
}

/// The bits that a number narrows to, sign left out.
spec fn narrowed_size(x: Unpacked) -> int {
    match x {
        Unpacked::Finite { mant, exp, .. } => single_bits(mant as nat, exp as int),
        _ => 0x7f80_0000,
    }
}

/// A number narrows to its sign and its size.
proof fn lemma_narrowed_size(x: Binary64)
    ensures
        x.value() matches Unpacked::Finite { mant, exp, .. } ==> mant < 0x20_0000_0000_0000 && exp
            >= -1074,
        0 <= narrowed_size(x.value()) <= 0x7f80_0000,
        x.value() !is Nan ==> narrowed_bits(x.value()) == signed_bits(
            is_negative(x.value()),
            narrowed_size(x.value()),
        ),
{
    if let Unpacked::Finite { mant, exp, .. } = x.value() {
        lemma_single_bits_ordered(mant as nat, exp as int, mant as nat, exp as int);
    }
}

/// Only zero is no units at all.
pub proof fn lemma_no_units(mant: nat, exp: int)
    ensures
        in_units(mant, exp) == 0 <==> mant == 0,
{
    let p = pow2((exp + 1074) as nat);
    lemma_pow2_pos((exp + 1074) as nat);
    assert(mant * p == 0 <==> mant == 0) by (nonlinear_arith)
        requires
            p > 0,
    ;
}

/// Taking to a whole number does not depend on how a power of two is split off.
proof fn lemma_whole_in_units(negative: bool, mant: nat, exp: int, n: int)
    requires
        exp >= -1074,
        n < 128,
    ensures
        whole(Rounding::Ceil, negative, mant, exp + n) == whole(
            Rounding::Ceil,
            negative,
            in_units(mant, exp),
            n - 1074,
        ),
{
    let k = (exp + 1074) as nat;
    let j = (1074 - n) as nat;
    let e = exp + n;
    let c = pow2(k) as int;
    let p = pow2(j) as int;
    let m = mant as int;
    lemma_pow2_pos(k);
    lemma_pow2_pos(j);
    if e >= 0 {
        let w = m * pow2(e as nat);
        lemma_pow2_adds(e as nat, j);
        assert(m * c == w * p) by (nonlinear_arith)
            requires
                c == pow2(e as nat) * p,
                w == m * pow2(e as nat),
        ;
        lemma_fundamental_div_mod_converse(m * c, p, w, 0);
        lemma_fundamental_div_mod_converse(m * c + p - 1, p, w, p - 1);
    } else {
        let d = pow2((-e) as nat) as int;
        lemma_pow2_pos((-e) as nat);
        lemma_pow2_adds(k, (-e) as nat);
        assert(c * m == m * c) by (nonlinear_arith);
        lemma_div_multiples_vanish_quotient(c, m, d);
        let x = m + d - 1;
        let (q, r) = (x / d, x % d);
        lemma_fundamental_div_mod(x, d);
        let s = c * r + c - 1;
        assert(m * c + p - 1 == q * p + s) by (nonlinear_arith)
            requires
                m + d - 1 == d * q + r,
                p == c * d,
                s == c * r + c - 1,
        ;
        assert(0 <= s < p) by (nonlinear_arith)
            requires
                0 <= r < d,
                c > 0,
                p == c * d,
                s == c * r + c - 1,
        ;
        lemma_fundamental_div_mod_converse(m * c + p - 1, p, q, s);
    }
}

/// Taking up to a whole number keeps the order of numbers, and zero.
proof fn lemma_whole_ordered(a: bool, m: nat, b: bool, n: nat, j: nat)
    requires
        (if a { -(m as int) } else { m as int }) <= (if b { -(n as int) } else { n as int }),
        j > 0,
    ensures
        whole(Rounding::Ceil, a, m, -(j as int)) <= whole(Rounding::Ceil, b, n, -(j as int)),
        m == 0 ==> whole(Rounding::Ceil, a, m, -(j as int)) == 0,
        n == 0 ==> whole(Rounding::Ceil, b, n, -(j as int)) == 0,
{
    let p = pow2(j) as int;
    lemma_pow2_pos(j);
    assert(-(-(j as int)) == j);
    lemma_fundamental_div_mod_converse(0, p, 0, 0);
    lemma_fundamental_div_mod_converse(p - 1, p, 0, p - 1);
    lemma_div_is_ordered(0, m as int, p);
    lemma_div_is_ordered(0, n as int, p);
    lemma_div_is_ordered(0, m + p - 1, p);
    lemma_div_is_ordered(0, n + p - 1, p);
    if !a && !b {
        lemma_div_is_ordered(m + p - 1, n + p - 1, p);
    } else if a && b {
        lemma_div_is_ordered(n as int, m as int, p);
    }
}

/// A product vanishes up to half the smallest single-precision number.
proof fn lemma_vanishes_in_units(mant: nat, exp: int, n: int)
    requires
        mant > 0,
        exp >= -1074,
        n < 128,
    ensures
        vanishes(mant, exp + n) <==> 2 * in_units(mant, exp) <= pow2((925 - n) as nat),
{
    let k = (exp + 1074) as nat;
    let j = -149 - (exp + n);
    let c = pow2(k);
    lemma_pow2_pos(k);
    if j > 0 {
        let d = pow2(j as nat);
        lemma_pow2_pos(j as nat);
        lemma_pow2_adds(j as nat, k);
        lemma_nearest_even_at_most(mant, d, 0);
        assert(1 * d == d);
        assert(2 * mant <= d <==> 2 * (mant * c) <= d * c) by (nonlinear_arith)
            requires
                c > 0,
        ;
    } else {
        lemma_powers_ordered((925 - n) as nat, k);
        assert(mant * c >= c) by (nonlinear_arith)
            requires
                mant > 0,
        ;
    }
}

/// A power of two times a number, taken up to a coordinate, keeps the order of numbers.
pub proof fn law_power_keeps_order(n: int, x: Binary32, y: Binary32)
    requires
        at_most(x.value(), y.value()),
    ensures
        ceil_times_power(n, x.value()) <= ceil_times_power(n, y.value()),
{
    if let (
        Unpacked::Finite { negative: a, mant: m, exp: e },
        Unpacked::Finite { negative: b, mant: l, exp: f },
    ) = (x.value(), y.value()) {
        lemma_no_units(m as nat, e as int);
        lemma_no_units(l as nat, f as int);
        if n < 128 {
            let j = (1074 - n) as nat;
            let (u, v) = (in_units(m as nat, e as int), in_units(l as nat, f as int));
            lemma_whole_in_units(a, m as nat, e as int, n);
            lemma_whole_in_units(b, l as nat, f as int, n);
            lemma_whole_ordered(a, u, b, v, j);
            if m > 0 {
                lemma_vanishes_in_units(m as nat, e as int, n);
            }
            if l > 0 {
                lemma_vanishes_in_units(l as nat, f as int, n);
            }
        }
    }
}

/// Whether `x` and `y` are the same number, zeros of either sign being one.
pub open spec fn same_number(x: Unpacked, y: Unpacked) -> bool {
    match (x, y) {
        (Unpacked::Nan, Unpacked::Nan) => true,
        _ => at_most(x, y) && at_most(y, x),
    }
}

/// Whether single precision has the number `x`.
pub open spec fn in_single(x: Binary64) -> bool {
    exists|s: Binary32| same_number(x.value(), #[trigger] s.value())
}

/// The size of a single-precision number determines its bits, sign left out.
proof fn lemma_single_bits_exact(mant: nat, exp: int, bits: int)
    requires
        mant < 0x20_0000_0000_0000,
        exp >= -1074,
        0 <= bits < 0x7f80_0000,
        in_units(mant, exp) == single_units(bits),
    ensures
        single_bits(mant, exp) == bits,
{
    let field = bits / 0x80_0000;
    let m: int = if field == 0 { bits % 0x80_0000 } else { bits % 0x80_0000 + 0x80_0000 };
    let g: nat = if field == 0 { 925 } else { (field + 924) as nat };
    lemma_no_units(mant, exp);
    lemma_no_units(m as nat, g - 1074);
    if mant > 0 {
        let u = lemma_single_bits_in_units(mant, exp);
        lemma2_to64();
        lemma_pow2_pos(g);
        lemma_pow2_pos(u);
        if u < g {
            lemma_pow2_adds(1, u);
            lemma_powers_ordered(1 + u, g);
            let (p, q) = (pow2(u) as int, pow2(g) as int);
            assert(m * q >= 0x100_0000 * p) by (nonlinear_arith)
                requires
                    m >= 0x80_0000,
                    q >= 2 * p,
                    p > 0,
            ;
        } else if g < u {
            lemma_pow2_adds(1, g);
            lemma_powers_ordered(1 + g, u);
            let (p, q) = (pow2(g) as int, pow2(u) as int);
            assert(m * p < 0x80_0000 * q) by (nonlinear_arith)
                requires
                    m < 0x100_0000,
                    q >= 2 * p,
                    p > 0,
            ;
        } else {
            lemma_nearest_even_exact(m as nat, pow2(u));
        }
    }
}

/// A number that single precision has is narrowed to itself.
pub proof fn law_narrowing_keeps_singles(x: Binary64)
    requires
        in_single(x),
    ensures
        same_number(x.value(), x.narrowed().value()),
{
    let s = choose|s: Binary32| same_number(x.value(), #[trigger] s.value());
    let size: int = if s.bits >= 0x8000_0000 { s.bits - 0x8000_0000 } else { s.bits as int };
    lemma_narrowed_size(x);
    if size <= 0x7f80_0000 {
        lemma_single_value(s.bits >= 0x8000_0000, size);
    }
    if let Unpacked::Finite { negative, mant, exp } = x.value() {
        lemma_single_bits_exact(mant as nat, exp as int, size);
        lemma_single_value(negative, size);
    }
}

/// Of the double-precision numbers only one is one.
pub proof fn lemma_one_is_unique(x: Binary64)
    requires
        x.value() matches Unpacked::Finite { negative, mant, exp } && signed_units(
            negative,
            mant,
            exp,
        ) == pow2(1074),
    ensures
        x.is_one(),
{
    if let Unpacked::Finite { negative, mant, exp } = x.value() {
        let k = (exp + 1074) as nat;
        lemma2_to64();
        lemma2_to64_rest();
        lemma_pow2_adds(52, 1022);
        lemma_pow2_pos(1074);
        lemma_pow2_pos(1022);
        lemma_pow2_pos(k);
        let (m, p, q) = (mant as int, pow2(k) as int, pow2(1022) as int);
        assert(m * p >= 0) by (nonlinear_arith)
            requires
                m >= 0,
                p > 0,
        ;
        if k < 1022 {
            lemma_pow2_adds(1, k);
            lemma_powers_ordered(1 + k, 1022);
            assert(m * p < 0x10_0000_0000_0000 * q) by (nonlinear_arith)
                requires
                    m < 0x20_0000_0000_0000,
                    0 < 2 * p <= q,
            ;
        } else if k > 1022 {
            lemma_pow2_adds(1, 1022);
            lemma_powers_ordered(1023, k);
            assert(m * p > 0x10_0000_0000_0000 * q) by (nonlinear_arith)
                requires
                    m >= 0x10_0000_0000_0000,
                    0 < 2 * q <= p,
            ;
        } else {
            assert(m == 0x10_0000_0000_0000) by (nonlinear_arith)
                requires
                    m * q == 0x10_0000_0000_0000 * q,
                    q > 0,
            ;
        }
    }
}

/// Of the numbers that single precision has, none but zero narrows to zero, and none
/// but one to one.
pub proof fn law_narrowing_tells_zero_and_one_apart(x: Binary64)
    requires
        in_single(x),
    ensures
        is_zero(x.narrowed().value()) ==> is_zero(x.value()),
        x.narrowed().is_one() ==> x.is_one(),
{
    law_narrowing_keeps_singles(x);
    if let Unpacked::Finite { mant, exp, .. } = x.value() {
        lemma_no_units(mant as nat, exp as int);
    }
    if let Unpacked::Finite { mant, exp, .. } = x.narrowed().value() {
        lemma_no_units(mant as nat, exp as int);
    }
    if x.narrowed().is_one() {
        lemma2_to64();
        lemma_pow2_adds(23, 1051);
        lemma_one_is_unique(x);
    }
}

/// Whether `x` is not zero, but so close to it that single precision takes it for zero:
/// within `2^-150`.
pub open spec fn rounds_to_zero(x: Unpacked) -> bool {
    x matches Unpacked::Finite { mant, exp, .. } && 0 < in_units(mant as nat, exp as int) <= pow2(924)
}

/// Whether `x` is not one, but so close to it that single precision takes it for one:
/// from `1 - 2^-25` to `1 + 2^-24`.
pub open spec fn rounds_to_one(x: Unpacked) -> bool {
    x matches Unpacked::Finite { negative, mant, exp } && {
        let units = signed_units(negative, mant, exp);
        units != pow2(1074) && pow2(1074) - pow2(1049) <= units <= pow2(1074) + pow2(1050)
    }
}

/// A fraction rounds down to `q` where it is at most half above, and to the even
/// number at half.
pub proof fn lemma_nearest_even_at_most(n: nat, d: nat, q: nat)
    requires
        d > 0,
    ensures
        2 * n < 2 * (q * d) + d ==> nearest_even(n, d) <= q,
        2 * n > 2 * (q * d) + d ==> nearest_even(n, d) > q,
        2 * n == 2 * (q * d) + d ==> nearest_even(n, d) == (if q % 2 == 0 { q } else { q + 1 }),
{
    let (a, r) = (n / d, n % d);
    lemma_fundamental_div_mod(n as int, d as int);
    if a < q {
        assert(n < q * d) by (nonlinear_arith)
            requires
                n == d * a + r,
                r < d,
                a + 1 <= q,
        ;
    } else if a > q {
        assert(n >= q * d + d) by (nonlinear_arith)
            requires
                n == d * a + r,
                r >= 0,
                a >= q + 1,
        ;
    } else {
        assert(n == q * d + r) by (nonlinear_arith)
            requires
                n == d * a + r,
                a == q,
        ;
    }
}

/// Single precision takes for zero what is zero, and what is within `2^-150` of it.
pub proof fn law_narrowing_to_zero(x: Binary64)
    ensures
        is_zero(x.narrowed().value()) <==> is_zero(x.value()) || rounds_to_zero(x.value()),
{
    lemma_narrowed_size(x);
    if let Unpacked::Finite { negative, mant, exp } = x.value() {
        let size = single_bits(mant as nat, exp as int);
        lemma_single_value(negative, size);
        lemma_no_units(mant as nat, exp as int);
        if mant > 0 {
            let n = in_units(mant as nat, exp as int);
            let u = lemma_single_bits_in_units(mant as nat, exp as int);
            lemma2_to64();
            lemma_pow2_pos(924);
            lemma_pow2_adds(1, 924);
            lemma_powers_ordered(925, u);
            if u == 925 {
                lemma_nearest_even_at_most(n, pow2(925), 0);
            } else {
                lemma_nearest_even_within(n, pow2(u), 0x80_0000, 0x100_0000);
            }
            assert(size == 0 <==> n <= pow2(924));
        }
        assert(is_zero(x.narrowed().value()) <==> size == 0);
    }
}

/// Single precision takes for one what is one, and what is from `1 - 2^-25` to
/// `1 + 2^-24`.
pub proof fn law_narrowing_to_one(x: Binary64)
    ensures
        x.narrowed().is_one() <==> x.is_one() || rounds_to_one(x.value()),
{
    lemma_narrowed_size(x);
    lemma2_to64();
    lemma2_to64_rest();
    lemma_pow2_adds(52, 1022);
    lemma_pow2_pos(1049);
    lemma_pow2_adds(1, 1049);
    lemma_pow2_adds(1, 1050);
    lemma_pow2_adds(24, 1050);
    lemma_pow2_adds(25, 1049);
    if let Unpacked::Finite { negative, mant, exp } = x.value() {
        let size = single_bits(mant as nat, exp as int);
        let n = in_units(mant as nat, exp as int);
        lemma_single_value(negative, size);
        lemma_no_units(mant as nat, exp as int);
        if !negative && n == pow2(1074) {
            lemma_one_is_unique(x);
        }
        if mant > 0 {
            let u = lemma_single_bits_in_units(mant as nat, exp as int);
            lemma_pow2_pos(u);
            if u == 1050 {
                lemma_nearest_even_at_most(n, pow2(1050), 0xff_ffff);
                lemma_nearest_even_within(n, pow2(1050), 0x80_0000, 0x100_0000);
            } else if u == 1051 {
                lemma_nearest_even_at_most(n, pow2(1051), 0x80_0000);
                lemma_nearest_even_within(n, pow2(1051), 0x80_0000, 0x100_0000);
            } else if u < 1050 {
                lemma_powers_ordered(u, 1049);
                lemma_nearest_even_within(n, pow2(u), 0, 0x100_0000);
            } else {
                lemma_pow2_adds(1, 1051);
                lemma_powers_ordered(1052, u);
                lemma_nearest_even_within(n, pow2(u), 0x80_0000, 0x100_0000);
            }
            assert(size == 0x3f80_0000 <==> pow2(1074) - pow2(1049) <= n <= pow2(1074) + pow2(
                1050,
            ));
        }
        assert(x.narrowed().is_one() <==> !negative && size == 0x3f80_0000);
    }
}

} // verus!
