//! What holds of blur elements across their operations.

use crate::binary_float::{
    ceil_of, is_zero, magnitude_of, product, product_parts, quotient, whole, Binary64, Rounding,
    Unpacked,
};
use crate::binary_order::{
    at_most, in_single, law_narrowing_keeps_order, law_narrowing_tells_zero_and_one_apart,
    law_narrowing_to_one, law_narrowing_to_zero, law_power_keeps_order, lemma_no_units,
    rounds_to_one, rounds_to_zero,
};
use crate::blur_draw::{flag, named, BlurPass, DrawPlan, UniformValue};
use crate::blur_element::{Blur, BlurRenderElement, OptimizedTexture};
use crate::geometry::{Rectangle, Scale, Size};
use crate::rounding::{
    is_leading_unit, lemma_between_powers, lemma_leading_unit_unique, lemma_nearest_even_exact,
    round_at,
};
use vstd::arithmetic::div_mod::{
    lemma_div_is_ordered, lemma_fundamental_div_mod, lemma_fundamental_div_mod_converse,
};
use vstd::arithmetic::power2::{
    lemma2_to64, lemma2_to64_rest, lemma_pow2_adds, lemma_pow2_pos, lemma_pow2_unfold, pow2,
};
use vstd::prelude::*;

verus! {

/// Powers of two taken in and out again leave a whole number as it was.
proof fn lemma_whole_exact(rounding: Rounding, negative: bool, n: nat, k: nat)
    ensures
        whole(rounding, negative, n * pow2(k), -(k as int)) == if negative {
            -(n as int)
        } else {
            n as int
        },
{
    let u = pow2(k) as int;
    lemma_pow2_pos(k);
    if k == 0 {
        lemma2_to64();
        assert(n * 1 * 1 == n);
    } else {
        assert(-(-(k as int)) == k);
        lemma_fundamental_div_mod_converse(n * u, u, n as int, 0);
        lemma_fundamental_div_mod_converse(n * u + u - 1, u, n as int, u - 1);
        assert(2 * (n * u) + u == n * (2 * u) + u) by (nonlinear_arith);
        lemma_fundamental_div_mod_converse(2 * (n * u) + u, 2 * u, n as int, u);
    }
}

/// A coordinate times one is that coordinate, however it is rounded.
pub proof fn law_times_one(w: i32, one: Binary64, rounding: Rounding)
    requires
        one.is_one(),
    ensures
        product(w as int, one.value(), rounding) == w,
{
    if w != 0 {
        let n = magnitude_of(w as int);
        lemma2_to64();
        lemma2_to64_rest();
        let k = lemma_between_powers(n, 32);
        let m = n * pow2(52);
        // `m` has fifty-three bits in units of `2^k`.
        let j = (52 - k) as nat;
        lemma_pow2_adds(k, j);
        lemma_pow2_unfold(k + 1);
        lemma_pow2_pos(k);
        let (a, b) = (pow2(k), pow2(j));
        assert(m == (n * b) * a) by (nonlinear_arith)
            requires
                m == n * pow2(52),
                pow2(52) == a * b,
        ;
        assert(is_leading_unit(m, 1, 53, k as int)) by {
            assert(pow2(52) * a <= n * pow2(52) < pow2(53) * a) by (nonlinear_arith)
                requires
                    a <= n < 2 * a,
                    pow2(53) == 2 * pow2(52),
                    pow2(52) > 0,
            ;
            assert(1 * a == a);
            assert(m * 1 == m);
        }
        lemma_leading_unit_unique(m, 1, 53, k as int);
        lemma_nearest_even_exact(n * b, a);
        assert(round_at(m, 1, k as int) == n * b) by {
            assert(1 * a == a);
            assert(m * 1 == m);
            if k == 0 {
                assert((n * b) * 1 == n * b);
            }
        }
        lemma_whole_exact(rounding, w < 0, n, j);
    }
}

/// A coordinate divided by one is that coordinate.
pub proof fn law_divided_by_one(w: i32, one: Binary64)
    requires
        one.is_one(),
    ensures
        quotient(w as int, one.value()) == w,
{
    if w != 0 {
        let n = magnitude_of(w as int);
        lemma2_to64();
        lemma2_to64_rest();
        let k = lemma_between_powers(n, 32);
        let d = pow2(52);
        let e = k - 104;
        let j = (52 - k) as nat;
        lemma_pow2_adds(k, j);
        lemma_pow2_adds(j, 52);
        lemma_pow2_unfold(k + 1);
        let (a, b) = (pow2(k), pow2(j));
        assert((-e) as nat == j + 52);
        assert(n * pow2(j + 52) == (n * b) * d) by (nonlinear_arith)
            requires
                pow2(j + 52) == b * d,
        ;
        assert(d <= n * b < 2 * d) by (nonlinear_arith)
            requires
                a <= n < 2 * a,
                a * b == d,
                b > 0,
        ;
        assert(is_leading_unit(n, d, 53, e)) by {
            assert(d * d <= (n * b) * d < pow2(53) * d) by (nonlinear_arith)
                requires
                    d <= n * b < 2 * d,
                    pow2(53) == 2 * d,
                    d > 0,
            ;
        }
        lemma_leading_unit_unique(n, d, 53, e);
        lemma_nearest_even_exact(n * b, d);
        lemma_whole_exact(Rounding::Truncate, w < 0, n, j);
    }
}

/// At scale one nothing is scaled: physical sizes are logical sizes, and areas scaled
/// up or down stay as they are.
pub proof fn law_scale_one_changes_nothing(size: Size, area: Rectangle, one: Binary64)
    requires
        one.is_one(),
    ensures
        size.physical(Scale { x: one, y: one }) == size,
        size.divided(one) == size,
        area.upscaled(one) == area,
{
    law_times_one(size.w, one, Rounding::Nearest);
    law_times_one(size.h, one, Rounding::Nearest);
    law_divided_by_one(size.w, one);
    law_divided_by_one(size.h, one);
    law_times_one(area.loc.x, one, Rounding::Ceil);
    law_times_one(area.loc.y, one, Rounding::Ceil);
    law_times_one(area.size.w, one, Rounding::Ceil);
    law_times_one(area.size.h, one, Rounding::Ceil);
}

/// The damage of a true blur reaches around the element by as much as the blur samples,
/// on every side, so long as the grown size is within the range of coordinates.
pub proof fn law_damage_surrounds_the_element<I, T, O>(
    element: BlurRenderElement<I, T, O>,
    scale: Scale,
)
    requires
        element is TrueBlur,
        i32::MIN <= 2 * element->config.reach() <= i32::MAX,
        i32::MIN <= element.covered(scale).size.w + 2 * element->config.reach() <= i32::MAX,
        i32::MIN <= element.covered(scale).size.h + 2 * element->config.reach() <= i32::MAX,
    ensures
        ({
            let reach = element->config.reach();
            let size = element.covered(scale).size;
            let damage = element.damaged(scale);
            &&& damage.loc.x == -reach
            &&& damage.loc.y == -reach
            &&& damage.loc.x + damage.size.w == size.w + reach
            &&& damage.loc.y + damage.size.h == size.h + reach
        }),
{
}

/// Rounding up does not reverse an order between powers of two.
proof fn lemma_ceil_grows(m: nat, e: int, f: int)
    requires
        e <= f,
    ensures
        ceil_of(m, e) <= ceil_of(m, f),
    decreases f - e,
{
    if e < f {
        lemma_ceil_grows(m, e + 1, f);
        if e >= 0 {
            lemma_pow2_unfold((e + 1) as nat);
            let u = pow2(e as nat);
            assert(m * u <= m * (2 * u)) by (nonlinear_arith);
        } else {
            let k = (-e) as nat;
            lemma_pow2_unfold(k);
            lemma_pow2_pos((k - 1) as nat);
            lemma2_to64();
            let u = pow2((k - 1) as nat) as int;
            let x = m as int;
            assert((x + 2 * u - 1) / (2 * u) <= (x + u - 1) / u) by (nonlinear_arith)
                requires
                    u > 0,
                    x >= 0,
            ;
            if k == 1 {
                assert(m * 1 == m);
                assert((x + 1 - 1) / 1 == x);
            }
        }
    }
}

/// More passes never make a blur of a radius that is not negative reach less far, so
/// long as their number is within the range of signed numbers.
pub proof fn law_more_passes_reach_further(fewer: Blur, more: Blur)
    requires
        fewer.radius == more.radius,
        fewer.passes <= more.passes <= i32::MAX,
        fewer.radius.narrowed().value() matches Unpacked::Finite { negative, mant, .. } ==> !negative
            || mant == 0,
        fewer.radius.narrowed().value() matches Unpacked::Infinite { negative } ==> !negative,
    ensures
        0 <= fewer.reach() <= more.reach(),
{
    match fewer.radius.narrowed().value() {
        Unpacked::Finite { negative, mant, exp } => {
            lemma_ceil_grows(
                mant as nat,
                exp + fewer.passes as int + 1,
                exp + more.passes as int + 1,
            );
        },
        _ => {},
    }
}

/// A larger radius never makes a blur reach less far.
pub proof fn law_larger_radius_reaches_further(smaller: Blur, larger: Blur)
    requires
        smaller.passes == larger.passes,
        at_most(smaller.radius.value(), larger.radius.value()),
    ensures
        smaller.reach() <= larger.reach(),
{
    law_narrowing_keeps_order(smaller.radius, larger.radius);
    law_power_keeps_order(
        smaller.exponent(),
        smaller.radius.narrowed(),
        larger.radius.narrowed(),
    );
}

/// A larger radius never shrinks the damage of a true blur: the damaged area starts no
/// further in, and is no smaller.
pub proof fn law_larger_radius_never_shrinks_the_damage<I, T, O>(
    smaller: BlurRenderElement<I, T, O>,
    larger: BlurRenderElement<I, T, O>,
    scale: Scale,
)
    requires
        smaller is TrueBlur,
        larger is TrueBlur,
        smaller.covered(scale).size == larger.covered(scale).size,
        smaller->config.passes == larger->config.passes,
        at_most(smaller->config.radius.value(), larger->config.radius.value()),
    ensures
        ({
            let (inner, outer) = (smaller.damaged(scale), larger.damaged(scale));
            &&& outer.loc.x <= inner.loc.x
            &&& outer.loc.y <= inner.loc.y
            &&& inner.size.w <= outer.size.w
            &&& inner.size.h <= outer.size.h
        }),
{
    law_larger_radius_reaches_further(smaller->config, larger->config);
}

/// More passes and a larger radius never shrink the damage of a true blur, so long as
/// the radius is not negative and the number of passes is within the range of signed
/// numbers: the damaged area starts no further in, and is no smaller. Where the larger
/// area is within the range of coordinates it holds the smaller one.
pub proof fn law_stronger_blur_never_shrinks_the_damage<I, T, O>(
    weaker: BlurRenderElement<I, T, O>,
    stronger: BlurRenderElement<I, T, O>,
    scale: Scale,
)
    requires
        weaker is TrueBlur,
        stronger is TrueBlur,
        weaker.covered(scale).size == stronger.covered(scale).size,
        weaker->config.passes <= stronger->config.passes <= i32::MAX,
        at_most(Binary64 { bits: 0 }.value(), weaker->config.radius.value()),
        at_most(weaker->config.radius.value(), stronger->config.radius.value()),
    ensures
        0 <= weaker->config.reach() <= stronger->config.reach(),
        ({
            let size = stronger.covered(scale).size;
            let reach = stronger->config.reach();
            let (inner, outer) = (weaker.damaged(scale), stronger.damaged(scale));
            &&& outer.loc.x <= inner.loc.x
            &&& outer.loc.y <= inner.loc.y
            &&& inner.size.w <= outer.size.w
            &&& inner.size.h <= outer.size.h
            &&& 2 * reach <= i32::MAX && size.w + 2 * reach <= i32::MAX ==> inner.loc.x
                + inner.size.w <= outer.loc.x + outer.size.w
            &&& 2 * reach <= i32::MAX && size.h + 2 * reach <= i32::MAX ==> inner.loc.y
                + inner.size.h <= outer.loc.y + outer.size.h
        }),
{
    let zero = Binary64 { bits: 0 };
    let (fewer, more) = (weaker->config, stronger->config);
    let between = Blur { passes: more.passes, ..fewer };
    assert(is_zero(zero.narrowed().value())) by {
        law_narrowing_to_zero(zero);
    }
    law_narrowing_keeps_order(zero, fewer.radius);
    if let Unpacked::Finite { mant, exp, .. } = zero.narrowed().value() {
        lemma_no_units(mant as nat, exp as int);
    }
    if let Unpacked::Finite { mant, exp, .. } = fewer.radius.narrowed().value() {
        lemma_no_units(mant as nat, exp as int);
    }
    law_more_passes_reach_further(fewer, between);
    law_larger_radius_reaches_further(between, more);
}

/// The damage of a true blur is the same since every commit, the current one among
/// them, and never nothing.
pub proof fn law_damage_does_not_depend_on_the_commit<I, T, O>(
    element: BlurRenderElement<I, T, O>,
    scale: Scale,
    commit: Option<usize>,
    other: Option<usize>,
)
    requires
        element is TrueBlur,
    ensures
        element.damage_after(scale, commit) == element.damage_after(scale, other),
        element.damage_after(scale, commit) == element.damage_after(
            scale,
            Some(element->commit_counter),
        ),
        element.damage_after(scale, commit).len() == 1,
{
}

/// Whether `r` is the smallest whole number that is at least `m * 2^e`, negated where
/// `negative` is set.
pub open spec fn is_ceiling(r: int, negative: bool, m: nat, e: int) -> bool {
    let signed = if negative {
        -(m as int)
    } else {
        m as int
    };
    if e >= 0 {
        r == signed * pow2(e as nat)
    } else {
        (r - 1) * pow2((-e) as nat) < signed <= r * pow2((-e) as nat)
    }
}

/// Rounding up gives the smallest whole number that is large enough.
proof fn lemma_ceil_is_ceiling(negative: bool, m: nat, e: int)
    ensures
        is_ceiling(whole(Rounding::Ceil, negative, m, e), negative, m, e),
{
    let x = m as int;
    if e >= 0 {
        let u = pow2(e as nat) as int;
        assert(-(x * u) == (-x) * u) by (nonlinear_arith);
    } else {
        let u = pow2((-e) as nat) as int;
        lemma_pow2_pos((-e) as nat);
        if negative {
            let (q, r) = (x / u, x % u);
            lemma_fundamental_div_mod(x, u);
            assert((-q - 1) * u < -x <= (-q) * u) by (nonlinear_arith)
                requires
                    x == u * q + r,
                    0 <= r < u,
            ;
        } else {
            let (q, r) = ((x + u - 1) / u, (x + u - 1) % u);
            lemma_fundamental_div_mod(x + u - 1, u);
            lemma_div_is_ordered(0, x + u - 1, u);
            lemma_fundamental_div_mod_converse(0, u, 0, 0);
            assert((q - 1) * u < x <= q * u) by (nonlinear_arith)
                requires
                    x + u - 1 == u * q + r,
                    0 <= r < u,
            ;
        }
    }
}

/// Whether `r` is the smallest whole number that is at least the double-precision
/// product of `w` and the finite number `x`, where that number is a coordinate.
pub open spec fn covers_product(r: int, w: int, x: Unpacked) -> bool {
    x matches Unpacked::Finite { negative, mant, exp } && if w == 0 || mant == 0 {
        r == 0
    } else {
        let (significand, unit) = product_parts(w, mant);
        let exact = whole(Rounding::Ceil, negative != (w < 0), significand, unit + exp);
        i32::MIN <= exact <= i32::MAX ==> is_ceiling(
            r,
            negative != (w < 0),
            significand,
            unit + exp,
        )
    }
}

/// Scaled up, a coordinate is the smallest that is at least the double-precision
/// product, for every finite scale and wherever that is a coordinate.
pub proof fn law_scaling_up_covers_the_product(w: i32, scale: Binary64)
    requires
        scale.value() is Finite,
    ensures
        covers_product(
            product(w as int, scale.value(), Rounding::Ceil) as int,
            w as int,
            scale.value(),
        ),
{
    if let Unpacked::Finite { negative, mant, exp } = scale.value() {
        let (significand, unit) = product_parts(w as int, mant);
        lemma_ceil_is_ceiling(negative != (w < 0), significand, unit + exp);
    }
}

/// The opaque region of an optimized blur, made for the texture that it shows, is no
/// smaller on either axis than what is shown of the texture, and less than a pixel
/// larger; it starts less than a pixel past where that starts.
pub proof fn law_opaque_region_covers_what_is_shown<I, T>(tex: OptimizedTexture<I, T>)
    requires
        tex.opaque_regions@ == seq![tex.src.upscaled(tex.src_scale)],
        tex.src_scale.value() is Finite,
    ensures
        ({
            let region = tex.opaque_regions@[0];
            let scale = tex.src_scale.value();
            &&& covers_product(region.size.w as int, tex.src.size.w as int, scale)
            &&& covers_product(region.size.h as int, tex.src.size.h as int, scale)
            &&& covers_product(region.loc.x as int, tex.src.loc.x as int, scale)
            &&& covers_product(region.loc.y as int, tex.src.loc.y as int, scale)
        }),
{
    law_scaling_up_covers_the_product(tex.src.size.w, tex.src_scale);
    law_scaling_up_covers_the_product(tex.src.size.h, tex.src_scale);
    law_scaling_up_covers_the_product(tex.src.loc.x, tex.src_scale);
    law_scaling_up_covers_the_product(tex.src.loc.y, tex.src_scale);
}

/// Whether an element was made to blur as `config` says.
pub open spec fn follows<I, T, O>(element: BlurRenderElement<I, T, O>, config: Blur) -> bool {
    match element {
        BlurRenderElement::Optimized { min_alpha, max_alpha, .. } => {
            &&& min_alpha == config.min_alpha.narrowed()
            &&& max_alpha == config.max_alpha.narrowed()
        },
        BlurRenderElement::TrueBlur { config: own, .. } => own == config,
    }
}

/// With the default alpha range, from zero to one, neither technique needs a mask.
pub proof fn law_default_alpha_range_needs_no_mask<I, T, O>(
    element: BlurRenderElement<I, T, O>,
    config: Blur,
)
    requires
        follows(element, config),
        is_zero(config.min_alpha.value()),
        config.max_alpha.is_one(),
    ensures
        !element.masked(),
{
    law_narrowing_to_zero(config.min_alpha);
    law_narrowing_to_one(config.max_alpha);
}

/// Both techniques agree on whether a mask is needed, unless an end of the alpha range
/// is so close to its default that single precision takes it for the default.
pub proof fn law_techniques_agree_on_masks<I, T, O>(
    element: BlurRenderElement<I, T, O>,
    other: BlurRenderElement<I, T, O>,
    config: Blur,
)
    requires
        follows(element, config),
        follows(other, config),
        !rounds_to_zero(config.min_alpha.value()),
        !rounds_to_one(config.max_alpha.value()),
    ensures
        element.masked() == other.masked(),
{
    law_narrowing_to_zero(config.min_alpha);
    law_narrowing_to_one(config.max_alpha);
}

/// Both techniques agree on whether a mask is needed for every alpha range whose ends
/// single precision has.
pub proof fn law_techniques_agree_in_single_precision<I, T, O>(
    element: BlurRenderElement<I, T, O>,
    other: BlurRenderElement<I, T, O>,
    config: Blur,
)
    requires
        follows(element, config),
        follows(other, config),
        in_single(config.min_alpha),
        in_single(config.max_alpha),
    ensures
        element.masked() == other.masked(),
{
    law_narrowing_tells_zero_and_one_apart(config.min_alpha);
    law_narrowing_tells_zero_and_one_apart(config.max_alpha);
    law_narrowing_to_zero(config.min_alpha);
    law_narrowing_to_one(config.max_alpha);
}

/// An element keeps the identity that it was made with, whatever masks it is given, and
/// elements made with different identities can be told apart by them.
pub proof fn law_identities_stay_apart<I, T, O>(
    element: BlurRenderElement<I, T, O>,
    other: BlurRenderElement<I, T, O>,
    mask: T,
    other_mask: T,
)
    ensures
        element.with_mask(mask).identity() == element.identity(),
        element.identity() != other.identity() ==> {
            &&& element.with_mask(mask).identity() != other.identity()
            &&& element.with_mask(mask).identity() != other.with_mask(other_mask).identity()
        },
{
}

/// Whether no two of the elements have the same identity.
pub open spec fn apart<I, T, O>(elements: Seq<BlurRenderElement<I, T, O>>) -> bool {
    forall|i: int, j: int|
        0 <= i < j < elements.len() ==> (#[trigger] elements[i]).identity() != (
        #[trigger] elements[j]).identity()
}

/// The elements that are in use always have different identities, provided that each is
/// made with one that no other has at the time: that stays so when an element is made,
/// is given a mask, or is gone.
pub proof fn law_elements_in_use_stay_apart<I, T, O>(
    elements: Seq<BlurRenderElement<I, T, O>>,
    made: BlurRenderElement<I, T, O>,
    mask: T,
    i: int,
)
    requires
        apart(elements),
    ensures
        apart(Seq::<BlurRenderElement<I, T, O>>::empty()),
        (forall|j: int|
            0 <= j < elements.len() ==> (#[trigger] elements[j]).identity() != made.identity())
            ==> apart(elements.push(made)),
        0 <= i < elements.len() ==> {
            &&& apart(elements.update(i, elements[i].with_mask(mask)))
            &&& apart(elements.remove(i))
        },
{
}

/// A mask changes neither where an element is, nor what it covers, damages or needs,
/// and an optimized blur not at all. The last mask set is the one that counts.
pub proof fn law_mask_leaves_the_rest<I, T, O>(
    element: BlurRenderElement<I, T, O>,
    earlier: T,
    mask: T,
    scale: Scale,
)
    ensures
        element is Optimized ==> element.with_mask(mask) == element,
        element is TrueBlur ==> {
            &&& element.with_mask(mask) is TrueBlur
            &&& element.with_mask(mask)->mask_texture == Some(mask)
            &&& element.with_mask(mask).covered(scale) == element.covered(scale)
            &&& element.with_mask(mask).damaged(scale) == element.damaged(scale)
        },
        element.with_mask(mask).masked() == element.masked(),
        element.with_mask(earlier).with_mask(mask) == element.with_mask(mask),
{
}

/// A mask reaches the finishing program of a true blur wherever the renderer has that
/// program, corners rounded or not; where it has not, the mask is left out and the
/// default program draws.
pub proof fn law_mask_reaches_the_program<I, T, O>(
    element: BlurRenderElement<I, T, O>,
    mask: T,
    plan: DrawPlan,
    dst: Rectangle,
    is_tty: bool,
    has_program: bool,
)
    requires
        element is TrueBlur,
        element.with_mask(mask).drawn_by(plan, dst, is_tty, has_program),
    ensures
        plan matches DrawPlan::TrueBlur { finish, .. } && {
            &&& finish.program == has_program
            &&& finish.bind_mask == has_program
            &&& named(finish.uniforms@).contains(("mask"@, UniformValue::Int(1))) == has_program
            &&& named(finish.uniforms@).contains(("has_mask"@, UniformValue::Float(flag(true))))
        },
{
    let finish = plan->finish;
    let uniforms = named(finish.uniforms@);
    reveal_strlit("geo");
    reveal_strlit("alpha");
    reveal_strlit("noise");
    reveal_strlit("corner_radius");
    reveal_strlit("min_alpha");
    reveal_strlit("max_alpha");
    reveal_strlit("has_mask");
    reveal_strlit("mask");
    assert(uniforms[6] == ("has_mask"@, UniformValue::Float(flag(true))));
    if has_program {
        assert(uniforms[7] == ("mask"@, UniformValue::Int(1)));
    }
}

/// A true blur with square corners and no mask is drawn by the default program alone.
pub proof fn law_plain_true_blur_needs_no_program<I, T, O>(
    element: BlurRenderElement<I, T, O>,
    plan: DrawPlan,
    dst: Rectangle,
    is_tty: bool,
    has_program: bool,
)
    requires
        element is TrueBlur,
        is_zero(element->TrueBlur_corner_radius.value()),
        element->mask_texture is None,
        element.drawn_by(plan, dst, is_tty, has_program),
    ensures
        plan matches DrawPlan::TrueBlur { finish, .. } && {
            &&& !finish.program
            &&& !finish.bind_mask
            &&& finish.uniforms@.len() == 0
        },
{
    let uniforms = plan->finish.uniforms@;
    assert(named(uniforms).len() == uniforms.len());
}

/// The terminal's renderer draws as the other one does, but that its blur pass is told.
pub proof fn law_renderers_draw_alike<I, T, O>(
    element: BlurRenderElement<I, T, O>,
    tty: DrawPlan,
    other: DrawPlan,
    dst: Rectangle,
    has_program: bool,
)
    requires
        element.drawn_by(tty, dst, true, has_program),
        element.drawn_by(other, dst, false, has_program),
    ensures
        match (tty, other) {
            (DrawPlan::Optimized(a), DrawPlan::Optimized(b)) => {
                &&& a.dst == b.dst
                &&& match (a.finish, b.finish) {
                    (Some(u), Some(v)) => named(u@) == named(v@),
                    (None, None) => true,
                    _ => false,
                }
            },
            (
                DrawPlan::TrueBlur { blur: a, finish: u },
                DrawPlan::TrueBlur { blur: b, finish: v },
            ) => {
                &&& a.is_tty && !b.is_tty
                &&& a == BlurPass { is_tty: true, ..b }
                &&& u.program == v.program
                &&& u.bind_mask == v.bind_mask
                &&& named(u.uniforms@) == named(v.uniforms@)
                &&& u.dst == v.dst
                &&& u.transform == v.transform
                &&& u.alpha == v.alpha
            },
            _ => false,
        },
{
}

} // verus!
