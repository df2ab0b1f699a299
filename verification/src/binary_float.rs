//! IEEE 754 binary numbers, held as bit patterns, with the conversions and the
//! few products and quotients that blur geometry takes to whole pixels.
//!
//! Every number is described by what its bits stand for ([`Unpacked`]), and every
//! operation by its exact result rounded once to the nearest representable number,
//! ties to even.

use crate::rounding::{
    is_leading_unit, leading_unit, lemma_leading_unit_unique, round_at, round_significand,
};
use vstd::arithmetic::div_mod::lemma_fundamental_div_mod_converse;
use vstd::arithmetic::power2::{
    lemma2_to64, lemma2_to64_rest, lemma_pow2_pos, lemma_pow2_strictly_increases, pow2,
};
use vstd::bits::{lemma_u64_pow2_no_overflow, lemma_u64_shl_is_mul};
use vstd::prelude::*;

verus! {

/// What the bits of a binary number stand for.
#[derive(Clone, Copy, PartialEq, Eq, Structural, Debug)]
pub enum Unpacked {
    /// Not a number.
    Nan,
    /// An infinity of the given sign.
    Infinite { negative: bool },
    /// The number `mant * 2^exp`, negated where `negative` is set.
    Finite { negative: bool, mant: u64, exp: i32 },
}

/// A single-precision number.
#[derive(Clone, Copy, PartialEq, Eq, Structural, Debug)]
pub struct Binary32 {
    /// The bit pattern: sign, eight bits of exponent, twenty-three of fraction.
    pub bits: u32,
}

/// A double-precision number.
#[derive(Clone, Copy, PartialEq, Eq, Structural, Debug)]
pub struct Binary64 {
    /// The bit pattern: sign, eleven bits of exponent, fifty-two of fraction.
    pub bits: u64,
}

impl Binary32 {
    /// What the bits stand for.
    pub open spec fn value(self) -> Unpacked {
        let negative = self.bits >= 0x8000_0000;
        let field = (self.bits / 0x80_0000) % 0x100;
        let fraction = self.bits % 0x80_0000;
        if field == 0xff {
            if fraction == 0 {
                Unpacked::Infinite { negative }
            } else {
                Unpacked::Nan
            }
        } else if field == 0 {
            Unpacked::Finite { negative, mant: fraction as u64, exp: (-149) as i32 }
        } else {
            Unpacked::Finite {
                negative,
                mant: (fraction + 0x80_0000) as u64,
                exp: (field - 150) as i32,
            }
        }
    }

    /// What the bits stand for.
    pub fn unpack(self) -> (r: Unpacked)
        ensures
            r == self.value(),
    {
        let negative: bool = self.bits >= 0x8000_0000;
        let field: u32 = (self.bits / 0x80_0000) % 0x100;
        let fraction: u32 = self.bits % 0x80_0000;
        if field == 0xff {
            if fraction == 0 {
                Unpacked::Infinite { negative }
            } else {
                Unpacked::Nan
            }
        } else if field == 0 {
            Unpacked::Finite { negative, mant: fraction as u64, exp: -149 }
        } else {
            Unpacked::Finite {
                negative,
                mant: (fraction + 0x80_0000) as u64,
                exp: field as i32 - 150,
            }
        }
    }
}

impl Binary64 {
    /// What the bits stand for.
    pub open spec fn value(self) -> Unpacked {
        let negative = self.bits >= 0x8000_0000_0000_0000;
        let field = (self.bits / 0x10_0000_0000_0000) % 0x800;
        let fraction = self.bits % 0x10_0000_0000_0000;
        if field == 0x7ff {
            if fraction == 0 {
                Unpacked::Infinite { negative }
            } else {
                Unpacked::Nan
            }
        } else if field == 0 {
            Unpacked::Finite { negative, mant: fraction, exp: (-1074) as i32 }
        } else {
            Unpacked::Finite {
                negative,
                mant: (fraction + 0x10_0000_0000_0000) as u64,
                exp: (field - 1075) as i32,
            }
        }
    }

    /// What the bits stand for.
    pub fn unpack(self) -> (r: Unpacked)
        ensures
            r == self.value(),
    {
        let negative: bool = self.bits >= 0x8000_0000_0000_0000;
        let field: u64 = (self.bits / 0x10_0000_0000_0000) % 0x800;
        let fraction: u64 = self.bits % 0x10_0000_0000_0000;
        if field == 0x7ff {
            if fraction == 0 {
                Unpacked::Infinite { negative }
            } else {
                Unpacked::Nan
            }
        } else if field == 0 {
            Unpacked::Finite { negative, mant: fraction, exp: -1074 }
        } else {
            Unpacked::Finite {
                negative,
                mant: fraction + 0x10_0000_0000_0000,
                exp: field as i32 - 1075,
            }
        }
    }
}

/// How a number is taken to a whole one.
#[derive(Clone, Copy, PartialEq, Eq, Structural, Debug)]
pub enum Rounding {
    /// Toward zero.
    Truncate,
    /// Toward positive infinity.
    Ceil,
    /// To the nearest, halves away from zero.
    Nearest,
}

/// The largest whole number that is at most `m * 2^e`.
pub open spec fn floor_of(m: nat, e: int) -> nat {
    if e >= 0 {
        m * pow2(e as nat)
    } else {
        m / pow2((-e) as nat)
    }
}

/// The smallest whole number that is at least `m * 2^e`.
pub open spec fn ceil_of(m: nat, e: int) -> nat {
    if e >= 0 {
        m * pow2(e as nat)
    } else {
        ((m + pow2((-e) as nat) - 1) / pow2((-e) as nat) as int) as nat
    }
}

/// The whole number nearest to `m * 2^e`, the larger of two that are equally near.
pub open spec fn nearest_of(m: nat, e: int) -> nat {
    if e >= 0 {
        m * pow2(e as nat)
    } else {
        ((2 * m + pow2((-e) as nat)) / (2 * pow2((-e) as nat))) as nat
    }
}

/// `m * 2^e`, negated where `negative` is set, taken to a whole number.
pub open spec fn whole(rounding: Rounding, negative: bool, m: nat, e: int) -> int {
    let magnitude = match rounding {
        Rounding::Truncate => floor_of(m, e),
        Rounding::Ceil => if negative {
            floor_of(m, e)
        } else {
            ceil_of(m, e)
        },
        Rounding::Nearest => nearest_of(m, e),
    };
    if negative {
        -(magnitude as int)
    } else {
        magnitude as int
    }
}

/// The pixel coordinate nearest to `x`.
pub open spec fn clamp_i32(x: int) -> i32 {
    if x < i32::MIN {
        i32::MIN
    } else if x > i32::MAX {
        i32::MAX
    } else {
        x as i32
    }
}

/// The outermost pixel coordinate on the given side.
pub open spec fn limit_i32(negative: bool) -> i32 {
    if negative {
        i32::MIN
    } else {
        i32::MAX
    }
}

/// `2^k`.
fn power_of_two(k: u32) -> (r: u64)
    requires
        k < 64,
    ensures
        r == pow2(k as nat),
{
    proof {
        lemma_u64_pow2_no_overflow(k as nat);
        lemma_u64_shl_is_mul(1, k as u64);
    }
    1u64 << (k as u64)
}

/// A number below half a unit is nothing, and rounds up to one unit at most.
proof fn lemma_below_half_unit(m: nat, k: nat)
    requires
        0 < m <= 0x20_0000_0000_0000,
        k > 60,
    ensures
        floor_of(m, -k) == 0,
        ceil_of(m, -k) == 1,
        nearest_of(m, -k) == 0,
{
    let u = pow2(k);
    lemma2_to64_rest();
    lemma_pow2_strictly_increases(60, k);
    lemma_fundamental_div_mod_converse(m as int, u as int, 0, m as int);
    lemma_fundamental_div_mod_converse(m + u - 1, u as int, 1, m - 1);
    lemma_fundamental_div_mod_converse((2 * m + u) as int, (2 * u) as int, 0, (2 * m + u) as int);
}

/// `m * 2^e`, negated where `negative` is set, taken to a whole number and kept in
/// the range of pixel coordinates.
fn to_whole(rounding: Rounding, negative: bool, m: u64, e: i32) -> (r: i32)
    requires
        m <= 0x20_0000_0000_0000,
        -2000 <= e <= 2000,
    ensures
        r == clamp_i32(whole(rounding, negative, m as nat, e as int)),
{
    // More than any coordinate.
    let cap: u64 = 0x1_0000_0000;
    let magnitude: u64 = if m == 0 {
        proof {
            if e < 0 {
                let u = pow2((-e) as nat) as int;
                lemma_pow2_pos((-e) as nat);
                lemma_fundamental_div_mod_converse(0, u, 0, 0);
                lemma_fundamental_div_mod_converse(u - 1, u, 0, u - 1);
                lemma_fundamental_div_mod_converse(u, 2 * u, 0, u);
            } else {
                assert(0 * pow2(e as nat) == 0) by (nonlinear_arith);
            }
        }
        0
    } else if e >= 32 {
        proof {
            lemma2_to64();
            if e > 32 {
                lemma_pow2_strictly_increases(32, e as nat);
            }
            assert(m * pow2(e as nat) >= 0x1_0000_0000) by (nonlinear_arith)
                requires
                    m >= 1,
                    pow2(e as nat) >= 0x1_0000_0000,
            ;
        }
        cap
    } else if e >= 0 {
        let unit: u64 = power_of_two(e as u32);
        proof {
            lemma2_to64();
            lemma_pow2_strictly_increases(e as nat, 32);
            assert(m * unit < 0x100_0000_0000_0000_0000_0000) by (nonlinear_arith)
                requires
                    m <= 0x20_0000_0000_0000,
                    unit < 0x1_0000_0000,
            ;
        }
        let product: u128 = m as u128 * unit as u128;
        if product < cap as u128 {
            product as u64
        } else {
            cap
        }
    } else if e < -60 {
        proof {
            lemma_below_half_unit(m as nat, (-e) as nat);
        }
        match rounding {
            Rounding::Ceil => if negative {
                0
            } else {
                1
            },
            _ => 0,
        }
    } else {
        let unit: u64 = power_of_two((-e) as u32);
        proof {
            lemma_pow2_pos((-e) as nat);
            lemma2_to64_rest();
            if e > -60 {
                lemma_pow2_strictly_increases((-e) as nat, 60);
            }
        }
        let quotient: u64 = match rounding {
            Rounding::Truncate => m / unit,
            Rounding::Ceil => if negative {
                m / unit
            } else {
                (m + unit - 1) / unit
            },
            Rounding::Nearest => (2 * m + unit) / (2 * unit),
        };
        if quotient < cap {
            quotient
        } else {
            cap
        }
    };
    if negative {
        if magnitude < 0x8000_0000 {
            -(magnitude as i32)
        } else {
            i32::MIN
        }
    } else if magnitude < 0x8000_0000 {
        magnitude as i32
    } else {
        i32::MAX
    }
}

/// The absolute value.
pub open spec fn magnitude_of(w: int) -> nat {
    if w < 0 {
        (-w) as nat
    } else {
        w as nat
    }
}

/// A number taken to a pixel coordinate, toward zero: zero for what is no number.
pub open spec fn truncated(x: Unpacked) -> i32 {
    match x {
        Unpacked::Nan => 0,
        Unpacked::Infinite { negative } => limit_i32(negative),
        Unpacked::Finite { negative, mant, exp } => clamp_i32(
            whole(Rounding::Truncate, negative, mant as nat, exp as int),
        ),
    }
}

/// The significand of the double-precision product of `w` and the finite number of
/// significand `mant`, and the exponent by which it exceeds that number's own.
pub open spec fn product_parts(w: int, mant: u64) -> (nat, int) {
    let n = magnitude_of(w) * mant as nat;
    let unit = leading_unit(n, 1, 53);
    (round_at(n, 1, unit), unit)
}

/// The double-precision product of `w` and `x`, taken to a pixel coordinate. Zero
/// times infinity is no number, and gives zero.
///
/// The product is rounded to fifty-three bits whatever its exponent: one too large
/// for double precision lies beyond every coordinate, and one too small to keep all
/// its bits has none to lose.
pub open spec fn product(w: int, x: Unpacked, rounding: Rounding) -> i32 {
    match x {
        Unpacked::Nan => 0,
        Unpacked::Infinite { negative } => if w == 0 {
            0
        } else {
            limit_i32(negative != (w < 0))
        },
        Unpacked::Finite { negative, mant, exp } => if w == 0 || mant == 0 {
            0
        } else {
            let (significand, unit) = product_parts(w, mant);
            clamp_i32(whole(rounding, negative != (w < 0), significand, unit + exp))
        },
    }
}

/// The double-precision quotient of `w` and `x`, taken to a pixel coordinate toward
/// zero. Zero over zero is no number, and gives zero.
///
/// The quotient is rounded to fifty-three bits whatever its exponent: one outside
/// the range of double precision lies beyond every coordinate, or is less than one.
pub open spec fn quotient(w: int, x: Unpacked) -> i32 {
    match x {
        Unpacked::Nan => 0,
        Unpacked::Infinite { .. } => 0,
        Unpacked::Finite { negative, mant, exp } => if w == 0 {
            0
        } else if mant == 0 {
            limit_i32(negative != (w < 0))
        } else {
            let n = magnitude_of(w);
            let unit = leading_unit(n, mant as nat, 53);
            clamp_i32(
                whole(
                    Rounding::Truncate,
                    negative != (w < 0),
                    round_at(n, mant as nat, unit),
                    unit - exp,
                ),
            )
        },
    }
}

fn limit(negative: bool) -> (r: i32)
    ensures
        r == limit_i32(negative),
{
    if negative {
        i32::MIN
    } else {
        i32::MAX
    }
}

fn magnitude(w: i32) -> (r: u64)
    ensures
        r == magnitude_of(w as int),
        r <= 0x8000_0000,
{
    if w < 0 {
        (-(w as i64)) as u64
    } else {
        w as u64
    }
}

impl Binary64 {
    /// The number as a pixel coordinate, toward zero.
    pub fn as_i32(self) -> (r: i32)
        ensures
            r == truncated(self.value()),
    {
        match self.unpack() {
            Unpacked::Nan => 0,
            Unpacked::Infinite { negative } => limit(negative),
            Unpacked::Finite { negative, mant, exp } => to_whole(
                Rounding::Truncate,
                negative,
                mant,
                exp,
            ),
        }
    }

    /// The product of the coordinate `w` and the number, as a coordinate again.
    pub fn scale_i32(self, w: i32, rounding: Rounding) -> (r: i32)
        ensures
            r == product(w as int, self.value(), rounding),
    {
        match self.unpack() {
            Unpacked::Nan => 0,
            Unpacked::Infinite { negative } => if w == 0 {
                0
            } else {
                limit(negative != (w < 0))
            },
            Unpacked::Finite { negative, mant, exp } => if w == 0 || mant == 0 {
                0
            } else {
                let size: u64 = magnitude(w);
                proof {
                    assert(0 < size * mant < 0x40_0000_0000_0000_0000_0000) by (nonlinear_arith)
                        requires
                            0 < size <= 0x8000_0000,
                            0 < mant < 0x20_0000_0000_0000,
                    ;
                    lemma2_to64_rest();
                }
                let (significand, unit) = round_significand(size as u128 * mant as u128, 1, 53);
                to_whole(rounding, negative != (w < 0), significand, unit + exp)
            },
        }
    }

    /// The quotient of the coordinate `w` and the number, as a coordinate again.
    pub fn divide_i32(self, w: i32) -> (r: i32)
        ensures
            r == quotient(w as int, self.value()),
    {
        match self.unpack() {
            Unpacked::Nan => 0,
            Unpacked::Infinite { .. } => 0,
            Unpacked::Finite { negative, mant, exp } => if w == 0 {
                0
            } else if mant == 0 {
                limit(negative != (w < 0))
            } else {
                proof {
                    lemma2_to64_rest();
                }
                let (significand, unit) = round_significand(magnitude(w) as u128, mant as u128, 53);
                to_whole(Rounding::Truncate, negative != (w < 0), significand, unit - exp)
            },
        }
    }
}

/// The single-precision bits of `mant * 2^exp`, sign left out: the nearest
/// representable number, or infinity where that is too large.
pub open spec fn single_bits(mant: nat, exp: int) -> int {
    if mant == 0 {
        0
    } else {
        let leading = leading_unit(mant, 1, 24) + exp;
        let unit = if leading < -149 {
            -149
        } else {
            leading
        };
        let bits = (unit + 149) * 0x80_0000 + round_at(mant, 1, unit - exp);
        if bits < 0x7f80_0000 {
            bits
        } else {
            0x7f80_0000
        }
    }
}

/// Single-precision bits with their sign.
pub open spec fn signed_bits(negative: bool, bits: int) -> int {
    if negative {
        bits + 0x8000_0000
    } else {
        bits
    }
}

/// The bits of the single-precision number nearest to `x`.
pub open spec fn narrowed_bits(x: Unpacked) -> int {
    match x {
        Unpacked::Nan => 0x7fc0_0000,
        Unpacked::Infinite { negative } => signed_bits(negative, 0x7f80_0000),
        Unpacked::Finite { negative, mant, exp } => signed_bits(
            negative,
            single_bits(mant as nat, exp as int),
        ),
    }
}

/// Below a quarter of the unit nothing is left of a number.
proof fn lemma_round_away(m: nat, k: nat)
    requires
        m <= 0x20_0000_0000_0000,
        k > 60,
    ensures
        round_at(m, 1, k as int) == 0,
{
    let u = pow2(k);
    lemma2_to64_rest();
    lemma_pow2_strictly_increases(60, k);
    assert(1 * u == u);
    lemma_fundamental_div_mod_converse(m as int, u as int, 0, m as int);
}

/// The single-precision bits of `mant * 2^exp`, sign left out.
fn pack_single(mant: u64, exp: i32) -> (r: u32)
    requires
        mant < 0x20_0000_0000_0000,
        exp == -1074 || (-1074 <= exp <= 1000 && mant >= 0x10_0000_0000_0000) || 0 <= exp <= 1000,
    ensures
        r == single_bits(mant as nat, exp as int),
        r <= 0x7f80_0000,
{
    if mant == 0 {
        return 0;
    }
    proof {
        lemma2_to64();
    }
    let (significand, unit) = round_significand(mant as u128, 1, 24);
    let leading: i32 = unit + exp;
    if leading >= -149 {
        let bits: i64 = (leading as i64 + 149) * 0x80_0000 + significand as i64;
        if bits < 0x7f80_0000 {
            bits as u32
        } else {
            0x7f80_0000
        }
    } else {
        let k: i32 = -149 - exp;
        if k > 60 {
            proof {
                lemma_round_away(mant as nat, k as nat);
            }
            0
        } else {
            proof {
                lemma2_to64_rest();
                assert(is_leading_unit(mant as nat, 1, 24, 29));
                lemma_leading_unit_unique(mant as nat, 1, 24, 29);
                lemma_pow2_strictly_increases(29, k as nat);
            }
            let step: u64 = power_of_two(k as u32);
            let q: u64 = mant / step;
            let r: u64 = mant % step;
            assert(q < 0x80_0000) by (nonlinear_arith)
                requires
                    q == mant / step,
                    step >= 0x4000_0000,
                    mant < 0x20_0000_0000_0000,
            ;
            if r < step - r || (r == step - r && q % 2 == 0) {
                q as u32
            } else {
                q as u32 + 1
            }
        }
    }
}

impl Binary64 {
    /// The nearest single-precision number.
    pub open spec fn narrowed(self) -> Binary32 {
        Binary32 { bits: narrowed_bits(self.value()) as u32 }
    }

    /// The nearest single-precision number.
    pub fn narrow(self) -> (r: Binary32)
        ensures
            r == self.narrowed(),
            r.bits == narrowed_bits(self.value()),
    {
        let bits: u32 = match self.unpack() {
            Unpacked::Nan => 0x7fc0_0000,
            Unpacked::Infinite { negative } => if negative {
                0xff80_0000
            } else {
                0x7f80_0000
            },
            Unpacked::Finite { negative, mant, exp } => {
                let bits: u32 = pack_single(mant, exp);
                if negative {
                    bits + 0x8000_0000
                } else {
                    bits
                }
            },
        };
        Binary32 { bits }
    }
}

impl Binary32 {
    /// The single-precision number nearest to `w`.
    pub open spec fn of_i32(w: i32) -> Binary32 {
        Binary32 { bits: signed_bits(w < 0, single_bits(magnitude_of(w as int), 0)) as u32 }
    }

    /// The single-precision number nearest to `w`.
    pub fn from_i32(w: i32) -> (r: Binary32)
        ensures
            r == Binary32::of_i32(w),
            r.bits == signed_bits(w < 0, single_bits(magnitude_of(w as int), 0)),
    {
        let bits: u32 = pack_single(magnitude(w), 0);
        Binary32 {
            bits: if w < 0 {
                bits + 0x8000_0000
            } else {
                bits
            },
        }
    }
}

/// Whether the number is a zero, of either sign.
pub open spec fn is_zero(x: Unpacked) -> bool {
    x matches Unpacked::Finite { mant, .. } && mant == 0
}

/// Whether `mant * 2^exp` is too small for single precision, and taken for zero.
pub open spec fn vanishes(mant: nat, exp: int) -> bool {
    exp < -149 && round_at(mant, 1, -149 - exp) == 0
}

/// Whether `mant * 2^exp` is too small for single precision.
fn is_vanishing(mant: u64, exp: i32) -> (r: bool)
    requires
        mant <= 0x20_0000_0000_0000,
        -2000 <= exp <= 2000,
    ensures
        r == vanishes(mant as nat, exp as int),
{
    if exp >= -149 {
        return false;
    }
    let k: i32 = -149 - exp;
    if k > 60 {
        proof {
            lemma_round_away(mant as nat, k as nat);
        }
        return true;
    }
    let step: u64 = power_of_two(k as u32);
    proof {
        lemma_pow2_pos(k as nat);
        assert(1 * pow2(k as nat) == pow2(k as nat));
    }
    let rest: u64 = mant % step;
    mant / step == 0 && rest <= step - rest
}

/// The single-precision product of `2^n` and `x`, taken up to a pixel coordinate.
///
/// `2^n` is an infinity from `n = 128` on, and zero, as the reciprocal of an infinity,
/// from `n = -128` down. In between the product is exact, or too large for single
/// precision and so beyond every coordinate, or so small that only whether it vanishes
/// matters.
pub open spec fn ceil_times_power(n: int, x: Unpacked) -> i32 {
    match x {
        Unpacked::Nan => 0,
        Unpacked::Infinite { negative } => if n <= -128 {
            0
        } else {
            limit_i32(negative)
        },
        Unpacked::Finite { negative, mant, exp } => if mant == 0 || n <= -128 {
            0
        } else if vanishes(mant as nat, exp + n) {
            0
        } else if n >= 128 {
            limit_i32(negative)
        } else {
            clamp_i32(whole(Rounding::Ceil, negative, mant as nat, exp + n))
        },
    }
}

impl Binary32 {
    /// Whether the number is one.
    pub open spec fn is_one(self) -> bool {
        self.value() == (Unpacked::Finite { negative: false, mant: 0x80_0000, exp: (-23) as i32 })
    }

    /// Whether the number equals zero.
    pub fn equals_zero(self) -> (r: bool)
        ensures
            r == is_zero(self.value()),
    {
        self.bits == 0 || self.bits == 0x8000_0000
    }

    /// Whether the number equals one.
    pub fn equals_one(self) -> (r: bool)
        ensures
            r == self.is_one(),
    {
        self.bits == 0x3f80_0000
    }

    /// One.
    pub fn one() -> (r: Binary32)
        ensures
            r == (Binary32 { bits: 0x3f80_0000 }),
            r.is_one(),
    {
        Binary32 { bits: 0x3f80_0000 }
    }

    /// Zero.
    pub fn zero() -> (r: Binary32)
        ensures
            r == (Binary32 { bits: 0 }),
            is_zero(r.value()),
    {
        Binary32 { bits: 0 }
    }

    /// The product of `2^n` and the number, taken up to a pixel coordinate.
    pub fn ceil_times_power(self, n: i32) -> (r: i32)
        ensures
            r == ceil_times_power(n as int, self.value()),
    {
        match self.unpack() {
            Unpacked::Nan => 0,
            Unpacked::Infinite { negative } => if n <= -128 {
                0
            } else {
                limit(negative)
            },
            Unpacked::Finite { negative, mant, exp } => if mant == 0 || n <= -128 {
                0
            } else if n >= 128 {
                limit(negative)
            } else if is_vanishing(mant, exp + n) {
                0
            } else {
                to_whole(Rounding::Ceil, negative, mant, exp + n)
            },
        }
    }
}

impl Binary64 {
    /// Whether the number is one.
    pub open spec fn is_one(self) -> bool {
        self.value() == (Unpacked::Finite {
            negative: false,
            mant: 0x10_0000_0000_0000,
            exp: (-52) as i32,
        })
    }

    /// Whether the number equals zero.
    pub fn equals_zero(self) -> (r: bool)
        ensures
            r == is_zero(self.value()),
    {
        self.bits == 0 || self.bits == 0x8000_0000_0000_0000
    }

    /// Whether the number equals one.
    pub fn equals_one(self) -> (r: bool)
        ensures
            r == self.is_one(),
    {
        self.bits == 0x3ff0_0000_0000_0000
    }
}

} // verus!
