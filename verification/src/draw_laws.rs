//! What drawing a blur hands to the renderer, from what the blur was made with: each
//! uniform is looked up by its name.

use crate::binary_float::{is_zero, Binary32, Binary64, Unpacked};
use crate::binary_order::{in_single, in_units, lemma_powers_ordered, same_number};
use crate::blur_draw::{
    draw_true_blur, draws_true_blur, named, true_blur_uniforms, BlurPass, DrawPlan, FinishPass,
    Uniform, UniformValue,
};
use crate::blur_element::{Blur, BlurRenderElement};
use crate::element_laws::Origin;
use crate::geometry::{Rectangle, Transform};
use crate::number_laws::{
    is_cut, is_divided, is_float_of, is_narrowed, leaves_nearest, lemma_constant_one,
    lemma_constant_zero, lemma_cut, lemma_divided, lemma_float_of, lemma_narrowed,
};
use vstd::arithmetic::power2::{lemma2_to64, lemma_pow2_adds, pow2};
use vstd::prelude::*;

verus! {

/// Whether a uniform of the given name is there.
pub open spec fn has(uniforms: Seq<Uniform>, name: Seq<char>) -> bool {
    exists|i: int| 0 <= i < uniforms.len() && (#[trigger] uniforms[i]).name@ == name
}

/// The value of the uniform of the given name.
pub open spec fn value_of(uniforms: Seq<Uniform>, name: Seq<char>) -> UniformValue {
    uniforms[choose|i: int|
        0 <= i < uniforms.len() && (#[trigger] uniforms[i]).name@ == name].value
}

/// Whether no two uniforms have the same name.
pub open spec fn are_distinct(uniforms: Seq<Uniform>) -> bool {
    forall|i: int, j: int|
        0 <= i < j < uniforms.len() ==> (#[trigger] uniforms[i]).name@ != (
        #[trigger] uniforms[j]).name@
}

/// Whether the uniform of the given name is there and holds `x` in single precision.
pub open spec fn holds_narrowed(uniforms: Seq<Uniform>, name: Seq<char>, x: Binary64) -> bool {
    has(uniforms, name) && (value_of(uniforms, name) matches UniformValue::Float(b) && is_narrowed(
        b,
        x,
    ))
}

/// Whether the uniform of the given name is there and holds `x`.
pub open spec fn holds(uniforms: Seq<Uniform>, name: Seq<char>, x: Binary32) -> bool {
    has(uniforms, name) && value_of(uniforms, name) == UniformValue::Float(x)
}

/// Whether the uniform of the given name is there and holds the number `w`.
pub open spec fn holds_number(uniforms: Seq<Uniform>, name: Seq<char>, w: i32) -> bool {
    has(uniforms, name) && (value_of(uniforms, name) matches UniformValue::Float(b) && is_float_of(
        b,
        w,
    ))
}

/// Whether the geometry uniform is there and holds the rectangle: its corner, then its
/// dimensions.
pub open spec fn holds_geometry(uniforms: Seq<Uniform>, area: Rectangle) -> bool {
    has(uniforms, "geo"@) && (value_of(uniforms, "geo"@) matches UniformValue::Float4(x, y, w, h)
        && is_float_of(x, area.loc.x) && is_float_of(y, area.loc.y) && is_float_of(
        w,
        area.size.w,
    ) && is_float_of(h, area.size.h))
}

/// The names of all uniforms differ.
proof fn lemma_names_differ()
    ensures
        "geo"@.len() == 3,
        "alpha"@.len() == 5,
        "noise"@.len() == 5,
        "corner_radius"@.len() == 13,
        "min_alpha"@.len() == 9,
        "max_alpha"@.len() == 9,
        "has_mask"@.len() == 8,
        "mask"@.len() == 4,
        "alpha"@ != "noise"@,
        "min_alpha"@ != "max_alpha"@,
{
    reveal_strlit("geo");
    reveal_strlit("alpha");
    reveal_strlit("noise");
    reveal_strlit("corner_radius");
    reveal_strlit("min_alpha");
    reveal_strlit("max_alpha");
    reveal_strlit("has_mask");
    reveal_strlit("mask");
    assert("alpha"@[0] != "noise"@[0]);
    assert("min_alpha"@[1] != "max_alpha"@[1]);
}

/// A uniform is found under its name where no other has that name.
proof fn lemma_found(uniforms: Seq<Uniform>, i: int)
    requires
        are_distinct(uniforms),
        0 <= i < uniforms.len(),
    ensures
        has(uniforms, uniforms[i].name@),
        value_of(uniforms, uniforms[i].name@) == uniforms[i].value,
{
    let name = uniforms[i].name@;
    let k = choose|k: int| 0 <= k < uniforms.len() && (#[trigger] uniforms[k]).name@ == name;
    assert(uniforms[i].name@ == name);
    if k < i {
        assert(uniforms[k].name@ != uniforms[i].name@);
    } else if i < k {
        assert(uniforms[i].name@ != uniforms[k].name@);
    }
}

/// The names and values of a list tell each of its uniforms.
proof fn lemma_named(uniforms: Seq<Uniform>, i: int)
    requires
        0 <= i < uniforms.len(),
    ensures
        named(uniforms).len() == uniforms.len(),
        named(uniforms)[i] == (uniforms[i].name@, uniforms[i].value),
{
}

/// Whether the two passes draw a true blur at `dst`.
///
/// The blur pass blurs the area as the configuration says, from the buffer that holds the
/// framebuffer. The second pass shows it there. With square corners and no mask the
/// default program does, without uniforms; else the finishing program does, where there
/// is one, with just the uniforms that are looked up here.
pub open spec fn shows_true_blur(
    blur: BlurPass,
    finish: FinishPass,
    config: Blur,
    scale: Binary64,
    dst: Rectangle,
    corner_radius: Binary32,
    alpha: Binary32,
    is_tty: bool,
    has_mask: bool,
    has_program: bool,
) -> bool {
    let finished = corner_radius.bits % 0x8000_0000 != 0 || has_mask;
    let uniforms = finish.uniforms@;
    &&& blur.current_buffer is Normal
    &&& blur.config == config
    &&& is_cut(blur.scale, scale)
    &&& blur.dst == dst
    &&& blur.is_tty == is_tty
    &&& finish.dst == dst
    &&& finish.transform == Transform::Normal
    &&& finish.alpha == alpha
    &&& finish.program <==> finished && has_program
    &&& finish.bind_mask <==> has_mask && has_program
    &&& !finished ==> uniforms.len() == 0
    &&& finished ==> {
        &&& are_distinct(uniforms)
        &&& uniforms.len() == if has_mask && has_program {
            8int
        } else {
            7
        }
        &&& holds_geometry(uniforms, dst)
        &&& holds(uniforms, "alpha"@, alpha)
        &&& holds_narrowed(uniforms, "noise"@, config.noise)
        &&& holds(uniforms, "corner_radius"@, corner_radius)
        &&& holds_narrowed(uniforms, "min_alpha"@, config.min_alpha)
        &&& holds_narrowed(uniforms, "max_alpha"@, config.max_alpha)
        &&& holds_number(
            uniforms,
            "has_mask"@,
            if has_mask {
                1
            } else {
                0
            },
        )
        // The mask is in the second texture unit.
        &&& has(uniforms, "mask"@) <==> has_mask && has_program
        &&& has(uniforms, "mask"@) ==> value_of(uniforms, "mask"@) == UniformValue::Int(1)
    }
}

/// A true blur is drawn with its own configuration, corners and alpha.
pub proof fn law_true_blur_is_shown(
    config: Blur,
    scale: Binary64,
    dst: Rectangle,
    corner_radius: Binary32,
    alpha: Binary32,
    is_tty: bool,
    has_mask: bool,
    has_program: bool,
    r: (BlurPass, FinishPass),
)
    requires
        call_ensures(
            draw_true_blur,
            (&config, scale, dst, corner_radius, alpha, is_tty, has_mask, has_program),
            r,
        ),
    ensures
        shows_true_blur(
            r.0,
            r.1,
            config,
            scale,
            dst,
            corner_radius,
            alpha,
            is_tty,
            has_mask,
            has_program,
        ),
{
    lemma_true_blur_shown(
        r.0,
        r.1,
        config,
        scale,
        dst,
        corner_radius,
        alpha,
        is_tty,
        has_mask,
        has_program,
    );
}

/// The uniforms of a true blur are found under their names.
proof fn lemma_true_blur_shown(
    blur: BlurPass,
    finish: FinishPass,
    config: Blur,
    scale: Binary64,
    dst: Rectangle,
    corner_radius: Binary32,
    alpha: Binary32,
    is_tty: bool,
    has_mask: bool,
    has_program: bool,
)
    requires
        draws_true_blur(
            blur,
            finish,
            config,
            scale,
            dst,
            corner_radius,
            alpha,
            is_tty,
            has_mask,
            has_program,
        ),
    ensures
        shows_true_blur(
            blur,
            finish,
            config,
            scale,
            dst,
            corner_radius,
            alpha,
            is_tty,
            has_mask,
            has_program,
        ),
{
    let uniforms = finish.uniforms@;
    lemma_cut(scale);
    assert(named(uniforms).len() == uniforms.len());
    assert(is_zero(corner_radius.value()) <==> corner_radius.bits % 0x8000_0000 == 0);
    if corner_radius.bits % 0x8000_0000 != 0 || has_mask {
        lemma_names_differ();
        assert forall|i: int| 0 <= i < uniforms.len() implies (#[trigger] uniforms[i]).name@
            == named(uniforms)[i].0 && uniforms[i].value == named(uniforms)[i].1 by {
            lemma_named(uniforms, i);
        }
        assert(uniforms[0].name@ == "geo"@);
        assert(uniforms[1].name@ == "alpha"@);
        assert(uniforms[2].name@ == "noise"@);
        assert(uniforms[3].name@ == "corner_radius"@);
        assert(uniforms[4].name@ == "min_alpha"@);
        assert(uniforms[5].name@ == "max_alpha"@);
        assert(uniforms[6].name@ == "has_mask"@);
        if has_mask && has_program {
            assert(uniforms[7].name@ == "mask"@);
            lemma_found(uniforms, 7);
        }
        lemma_found(uniforms, 0);
        lemma_found(uniforms, 1);
        lemma_found(uniforms, 2);
        lemma_found(uniforms, 3);
        lemma_found(uniforms, 4);
        lemma_found(uniforms, 5);
        lemma_found(uniforms, 6);
        lemma_float_of(dst.loc.x);
        lemma_float_of(dst.loc.y);
        lemma_float_of(dst.size.w);
        lemma_float_of(dst.size.h);
        lemma_narrowed(config.noise);
        lemma_narrowed(config.min_alpha);
        lemma_narrowed(config.max_alpha);
        lemma_constant_one(Binary32 { bits: 0x3f80_0000 });
        lemma_constant_zero(Binary32 { bits: 0 });
    }
}

/// Every true blur, however it came about, is drawn with its own parts; it is not
/// translucent.
pub proof fn law_true_blur_is_drawn_with_its_parts<I, T, O>(
    element: BlurRenderElement<I, T, O>,
    dst: Rectangle,
    is_tty: bool,
    has_program: bool,
    plan: DrawPlan,
)
    requires
        element is TrueBlur,
        call_ensures(
            BlurRenderElement::<I, T, O>::draw,
            (&element, dst, is_tty, has_program),
            plan,
        ),
    ensures
        plan matches DrawPlan::TrueBlur { blur, finish } && {
            &&& is_float_of(finish.alpha, 1)
            &&& shows_true_blur(
                blur,
                finish,
                element->config,
                element->TrueBlur_scale,
                dst,
                element->TrueBlur_corner_radius,
                finish.alpha,
                is_tty,
                element->mask_texture is Some,
                has_program,
            )
        },
{
    if let DrawPlan::TrueBlur { blur, finish } = plan {
        lemma_constant_one(finish.alpha);
        lemma_true_blur_shown(
            blur,
            finish,
            element->config,
            element->TrueBlur_scale,
            dst,
            element->TrueBlur_corner_radius,
            finish.alpha,
            is_tty,
            element->mask_texture is Some,
            has_program,
        );
    }
}

/// A true blur is drawn as it was made, mask or not, and with the mask that it was given;
/// it is not translucent.
pub proof fn law_true_blur_is_drawn_as_made<I, T, O>(
    origin: Origin<I, T, O>,
    mask: Option<T>,
    element: BlurRenderElement<I, T, O>,
    dst: Rectangle,
    is_tty: bool,
    has_program: bool,
    plan: DrawPlan,
)
    requires
        !origin.optimized,
        origin.yields(mask, element),
        call_ensures(
            BlurRenderElement::<I, T, O>::draw,
            (&element, dst, is_tty, has_program),
            plan,
        ),
    ensures
        plan matches DrawPlan::TrueBlur { blur, finish } && {
            &&& is_float_of(finish.alpha, 1)
            &&& shows_true_blur(
                blur,
                finish,
                origin.config,
                origin.scale,
                dst,
                origin.corner_radius,
                finish.alpha,
                is_tty,
                mask is Some,
                has_program,
            )
        },
{
    law_true_blur_is_drawn_with_its_parts(element, dst, is_tty, has_program, plan);
}

/// Every optimized blur, however it came about, is drawn with its own parts: at the
/// destination, its size divided by the scale, and where its corners are round by the
/// finishing program with just the uniforms that are looked up here. Renderers make no
/// difference.
pub proof fn law_optimized_blur_is_drawn_with_its_parts<I, T, O>(
    element: BlurRenderElement<I, T, O>,
    dst: Rectangle,
    is_tty: bool,
    has_program: bool,
    plan: DrawPlan,
)
    requires
        element is Optimized,
        element->Optimized_corner_radius.bits % 0x8000_0000 != 0 ==> has_program,
        call_ensures(
            BlurRenderElement::<I, T, O>::draw,
            (&element, dst, is_tty, has_program),
            plan,
        ),
    ensures
        plan matches DrawPlan::Optimized(draw) && {
            &&& draw.dst.loc == dst.loc
            &&& is_divided(draw.dst.size.w, dst.size.w, element->Optimized_scale)
            &&& is_divided(draw.dst.size.h, dst.size.h, element->Optimized_scale)
            &&& draw.finish is Some <==> element->Optimized_corner_radius.bits % 0x8000_0000 != 0
            &&& draw.finish matches Some(list) ==> {
                let uniforms = list@;
                &&& are_distinct(uniforms)
                &&& uniforms.len() == 6
                &&& holds_geometry(uniforms, dst)
                &&& holds(uniforms, "corner_radius"@, element->Optimized_corner_radius)
                &&& holds(uniforms, "noise"@, element->noise)
                &&& holds_number(uniforms, "alpha"@, 1)
                &&& holds(uniforms, "min_alpha"@, element->min_alpha)
                &&& holds(uniforms, "max_alpha"@, element->max_alpha)
            }
        },
{
    let radius = element->Optimized_corner_radius;
    lemma_divided(element->Optimized_scale, dst.size.w);
    lemma_divided(element->Optimized_scale, dst.size.h);
    assert(is_zero(radius.value()) <==> radius.bits % 0x8000_0000 == 0);
    if let DrawPlan::Optimized(draw) = plan {
        if let Some(list) = draw.finish {
            let uniforms = list@;
            assert(named(uniforms).len() == uniforms.len());
            lemma_names_differ();
            assert forall|i: int| 0 <= i < uniforms.len() implies (#[trigger] uniforms[i]).name@
                == named(uniforms)[i].0 && uniforms[i].value == named(uniforms)[i].1 by {
                lemma_named(uniforms, i);
            }
            assert(uniforms[0].name@ == "geo"@);
            assert(uniforms[1].name@ == "corner_radius"@);
            assert(uniforms[2].name@ == "noise"@);
            assert(uniforms[3].name@ == "alpha"@);
            assert(uniforms[4].name@ == "min_alpha"@);
            assert(uniforms[5].name@ == "max_alpha"@);
            lemma_found(uniforms, 0);
            lemma_found(uniforms, 1);
            lemma_found(uniforms, 2);
            lemma_found(uniforms, 3);
            lemma_found(uniforms, 4);
            lemma_found(uniforms, 5);
            lemma_float_of(dst.loc.x);
            lemma_float_of(dst.loc.y);
            lemma_float_of(dst.size.w);
            lemma_float_of(dst.size.h);
            lemma_constant_one(Binary32 { bits: 0x3f80_0000 });
        }
    }
}

/// An optimized blur is drawn as it was made: with the noise and the alpha range that it
/// was configured with, its own corners and scale. Masks make no difference.
pub proof fn law_optimized_blur_is_drawn_as_made<I, T, O>(
    origin: Origin<I, T, O>,
    mask: Option<T>,
    element: BlurRenderElement<I, T, O>,
    dst: Rectangle,
    is_tty: bool,
    has_program: bool,
    plan: DrawPlan,
)
    requires
        origin.optimized,
        origin.is_round() ==> has_program,
        origin.yields(mask, element),
        call_ensures(
            BlurRenderElement::<I, T, O>::draw,
            (&element, dst, is_tty, has_program),
            plan,
        ),
    ensures
        plan matches DrawPlan::Optimized(draw) && {
            &&& draw.dst.loc == dst.loc
            &&& is_divided(draw.dst.size.w, dst.size.w, origin.scale)
            &&& is_divided(draw.dst.size.h, dst.size.h, origin.scale)
            &&& draw.finish is Some <==> origin.is_round()
            &&& draw.finish matches Some(list) ==> {
                let uniforms = list@;
                &&& are_distinct(uniforms)
                &&& uniforms.len() == 6
                &&& holds_geometry(uniforms, dst)
                &&& holds(uniforms, "corner_radius"@, origin.corner_radius)
                &&& holds_narrowed(uniforms, "noise"@, origin.config.noise)
                &&& holds_number(uniforms, "alpha"@, 1)
                &&& holds_narrowed(uniforms, "min_alpha"@, origin.config.min_alpha)
                &&& holds_narrowed(uniforms, "max_alpha"@, origin.config.max_alpha)
            }
        },
{
    law_optimized_blur_is_drawn_with_its_parts(element, dst, is_tty, has_program, plan);
    lemma_narrowed(origin.config.noise);
    lemma_narrowed(origin.config.min_alpha);
    lemma_narrowed(origin.config.max_alpha);
}

/// A mask on a true blur with round corners leaves every uniform as it was but the two
/// that speak of the mask, and leaves the blur pass alone.
pub proof fn law_mask_leaves_the_other_uniforms<I, T, O>(
    origin: Origin<I, T, O>,
    mask: T,
    plain: BlurRenderElement<I, T, O>,
    masked: BlurRenderElement<I, T, O>,
    dst: Rectangle,
    is_tty: bool,
    has_program: bool,
    without: DrawPlan,
    with: DrawPlan,
    name: Seq<char>,
)
    requires
        !origin.optimized,
        origin.is_round(),
        origin.yields(None, plain),
        origin.yields(Some(mask), masked),
        call_ensures(
            BlurRenderElement::<I, T, O>::draw,
            (&plain, dst, is_tty, has_program),
            without,
        ),
        call_ensures(
            BlurRenderElement::<I, T, O>::draw,
            (&masked, dst, is_tty, has_program),
            with,
        ),
        name != "has_mask"@,
        name != "mask"@,
    ensures
        without matches DrawPlan::TrueBlur { blur: a, finish: u } && with matches DrawPlan::TrueBlur {
            blur: b,
            finish: v,
        } && {
            &&& a == b
            &&& u.program == v.program
            &&& u.dst == v.dst
            &&& u.transform == v.transform
            &&& u.alpha == v.alpha
            &&& has(u.uniforms@, name) <==> has(v.uniforms@, name)
            &&& has(u.uniforms@, name) ==> value_of(u.uniforms@, name) == value_of(
                v.uniforms@,
                name,
            )
        },
{
    assert(is_zero(origin.corner_radius.value()) <==> origin.corner_radius.bits % 0x8000_0000 == 0);
    let alpha = Binary32 { bits: 0x3f80_0000 };
    let (u, v) = (without->finish.uniforms@, with->finish.uniforms@);
    lemma_first_uniforms(u, origin.config, dst, origin.corner_radius, alpha, false, has_program);
    lemma_first_uniforms(v, origin.config, dst, origin.corner_radius, alpha, true, has_program);
    lemma_same_uniforms(u, v, name);
}

/// The uniforms of a true blur that do not speak of a mask come first.
proof fn lemma_first_uniforms(
    uniforms: Seq<Uniform>,
    config: Blur,
    dst: Rectangle,
    corner_radius: Binary32,
    alpha: Binary32,
    has_mask: bool,
    has_program: bool,
)
    requires
        ({
            let fixed = true_blur_uniforms(config, dst, corner_radius, alpha, has_mask);
            named(uniforms) == if has_mask && has_program {
                fixed.push(("mask"@, UniformValue::Int(1)))
            } else {
                fixed
            }
        }),
    ensures
        are_distinct(uniforms),
        uniforms.len() >= 7,
        forall|i: int|
            0 <= i < 6 ==> ((#[trigger] uniforms[i]).name@, uniforms[i].value)
                == true_blur_uniforms(config, dst, corner_radius, alpha, false)[i],
        forall|i: int|
            6 <= i < uniforms.len() ==> (#[trigger] uniforms[i]).name@ == "has_mask"@
                || uniforms[i].name@ == "mask"@,
{
    assert(named(uniforms).len() == uniforms.len());
    lemma_names_differ();
    assert forall|i: int| 0 <= i < uniforms.len() implies (#[trigger] uniforms[i]).name@ == named(
        uniforms,
    )[i].0 && uniforms[i].value == named(uniforms)[i].1 by {
        lemma_named(uniforms, i);
    }
}

/// Lists that begin alike agree on every other name than those at their ends.
proof fn lemma_same_uniforms(u: Seq<Uniform>, v: Seq<Uniform>, name: Seq<char>)
    requires
        are_distinct(u),
        are_distinct(v),
        u.len() >= 7,
        v.len() >= 7,
        forall|i: int|
            0 <= i < 6 ==> (#[trigger] u[i]).name@ == v[i].name@ && u[i].value == v[i].value,
        forall|i: int| 6 <= i < u.len() ==> (#[trigger] u[i]).name@ != name,
        forall|i: int| 6 <= i < v.len() ==> (#[trigger] v[i]).name@ != name,
    ensures
        has(u, name) <==> has(v, name),
        has(u, name) ==> value_of(u, name) == value_of(v, name),
{
    if has(u, name) {
        let i = choose|i: int| 0 <= i < u.len() && (#[trigger] u[i]).name@ == name;
        lemma_found(u, i);
        lemma_found(v, i);
    }
    if has(v, name) {
        let i = choose|i: int| 0 <= i < v.len() && (#[trigger] v[i]).name@ == name;
        assert(u[i].name@ == name);
    }
}

/// A number that single precision has is the one that it narrows to.
proof fn lemma_narrowed_single(b: Binary32, x: Binary64)
    requires
        is_narrowed(b, x),
        in_single(x),
    ensures
        same_number(x.value(), b.value()),
{
    let s = choose|s: Binary32| same_number(x.value(), #[trigger] s.value());
    if let Unpacked::Finite { negative, mant, exp } = x.value() {
        let n = in_units(mant as nat, exp as int);
        if let Unpacked::Finite { negative: sign, mant: m, exp: e } = s.value() {
            assert(in_units(m as nat, e as int) == n);
            lemma2_to64();
            lemma_pow2_adds(24, 1178);
            lemma_pow2_adds(1, 1177);
            let g = (e + 1074) as nat;
            lemma_powers_ordered(g, 1178);
            assert(m as nat * pow2(g) <= 0xff_ffff * pow2(1178)) by (nonlinear_arith)
                requires
                    m <= 0xff_ffff,
                    pow2(g) <= pow2(1178),
            ;
            if let Unpacked::Finite { mant: own, exp: f, .. } = b.value() {
                assert(leaves_nearest(s, b, in_units(own as nat, f as int), n));
            }
        }
    }
}

/// Uniforms that hold different numbers differ, wherever single precision has the
/// numbers.
proof fn lemma_held_apart(u: Seq<Uniform>, v: Seq<Uniform>, name: Seq<char>, x: Binary64, y: Binary64)
    requires
        holds_narrowed(u, name, x),
        holds_narrowed(v, name, y),
        in_single(x),
        in_single(y),
        !same_number(x.value(), y.value()),
    ensures
        value_of(u, name) != value_of(v, name),
{
    if let UniformValue::Float(b) = value_of(u, name) {
        lemma_narrowed_single(b, x);
    }
    if let UniformValue::Float(b) = value_of(v, name) {
        lemma_narrowed_single(b, y);
    }
}

/// Optimized blurs with round corners and different alpha ranges are drawn with different
/// uniforms, wherever single precision has the ends of the ranges.
pub proof fn law_alpha_ranges_are_drawn_apart<I, T, O>(
    origin: Origin<I, T, O>,
    other: Origin<I, T, O>,
    element: BlurRenderElement<I, T, O>,
    other_element: BlurRenderElement<I, T, O>,
    dst: Rectangle,
    is_tty: bool,
    plan: DrawPlan,
    other_plan: DrawPlan,
)
    requires
        origin.optimized && origin.is_round() && origin.yields(None, element),
        other.optimized && other.is_round() && other.yields(None, other_element),
        call_ensures(BlurRenderElement::<I, T, O>::draw, (&element, dst, is_tty, true), plan),
        call_ensures(
            BlurRenderElement::<I, T, O>::draw,
            (&other_element, dst, is_tty, true),
            other_plan,
        ),
        in_single(origin.config.min_alpha) && in_single(origin.config.max_alpha),
        in_single(other.config.min_alpha) && in_single(other.config.max_alpha),
    ensures
        plan matches DrawPlan::Optimized(a) && other_plan matches DrawPlan::Optimized(b)
            && a.finish matches Some(u) && b.finish matches Some(v) && {
            &&& !same_number(origin.config.min_alpha.value(), other.config.min_alpha.value())
                ==> value_of(u@, "min_alpha"@) != value_of(v@, "min_alpha"@)
            &&& !same_number(origin.config.max_alpha.value(), other.config.max_alpha.value())
                ==> value_of(u@, "max_alpha"@) != value_of(v@, "max_alpha"@)
        },
{
    law_optimized_blur_is_drawn_as_made(origin, None, element, dst, is_tty, true, plan);
    law_optimized_blur_is_drawn_as_made(other, None, other_element, dst, is_tty, true, other_plan);
    let (u, v) = (plan->Optimized_0.finish->0@, other_plan->Optimized_0.finish->0@);
    let (x, y) = (origin.config, other.config);
    if !same_number(x.min_alpha.value(), y.min_alpha.value()) {
        lemma_held_apart(u, v, "min_alpha"@, x.min_alpha, y.min_alpha);
    }
    if !same_number(x.max_alpha.value(), y.max_alpha.value()) {
        lemma_held_apart(u, v, "max_alpha"@, x.max_alpha, y.max_alpha);
    }
}

} // verus!
