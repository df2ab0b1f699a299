//! What blur elements answer, from what they were made with: each law follows an
//! element from its making, through the setting of a mask, to what it is asked.

use crate::binary_float::{is_zero, Binary32, Binary64, Rounding, Unpacked};
use crate::binary_order::{
    in_units, law_narrowing_to_one, law_narrowing_to_zero, lemma_no_units,
    lemma_one_is_unique,
};
use crate::blur_element::{
    Answer, Blur, BlurRenderElement, BufferRegion, Kind,
};
use crate::geometry::{Point, Rectangle, Scale, Size, Transform};
use crate::number_laws::{
    is_divided, is_float_of, is_kept, is_narrowed, is_power_taken, is_scaled, is_whole,
    lemma_constant_one, lemma_divided, lemma_narrowed, lemma_power_taken, lemma_scaled,
};
use vstd::arithmetic::power2::{
    lemma2_to64, lemma2_to64_rest, lemma_pow2_adds, lemma_pow2_pos, pow2,
};
use vstd::prelude::*;

verus! {

/// What an element is made with.
pub struct Origin<I, T, O> {
    pub id: I,
    pub texture: T,
    pub output: O,
    pub sample_area: Rectangle,
    pub loc: Point,
    pub corner_radius: Binary32,
    pub optimized: bool,
    pub scale: Binary64,
    pub config: Blur,
}

impl<I, T, O> Origin<I, T, O> {
    /// Whether making an element can give `element`.
    pub open spec fn makes(self, element: BlurRenderElement<I, T, O>) -> bool {
        call_ensures(
            BlurRenderElement::<I, T, O>::new,
            (
                self.id,
                self.texture,
                self.output,
                self.sample_area,
                self.loc,
                self.corner_radius,
                self.optimized,
                self.scale,
                self.config,
            ),
            element,
        )
    }

    /// Whether making an element, and setting `mask` on it where there is one, can give
    /// `element`.
    pub open spec fn yields(self, mask: Option<T>, element: BlurRenderElement<I, T, O>) -> bool {
        match mask {
            None => self.makes(element),
            Some(mask) => exists|made: BlurRenderElement<I, T, O>|
                #[trigger] self.makes(made) && element == made.with_mask(mask),
        }
    }

    /// Whether the corners are round: the radius has a bit besides its sign.
    pub open spec fn is_round(self) -> bool {
        self.corner_radius.bits % 0x8000_0000 != 0
    }
}

/// A physical size is the logical one times the scale, each dimension by the factor of
/// its own axis, and to the nearest pixel.
pub proof fn law_size_is_physical(size: Size, scale: Scale, r: Size)
    requires
        call_ensures(Size::to_physical_precise_round, (size, scale), r),
    ensures
        is_scaled(Rounding::Nearest, r.w, size.w, scale.x),
        is_scaled(Rounding::Nearest, r.h, size.h, scale.y),
{
    lemma_scaled(scale.x, size.w, Rounding::Nearest);
    lemma_scaled(scale.y, size.h, Rounding::Nearest);
}

/// A size is divided dimension by dimension, and cut down to whole pixels.
pub proof fn law_size_is_divided(size: Size, scale: Binary64, r: Size)
    requires
        call_ensures(Size::divide, (size, scale), r),
    ensures
        is_divided(r.w, size.w, scale),
        is_divided(r.h, size.h, scale),
{
    lemma_divided(scale, size.w);
    lemma_divided(scale, size.h);
}

/// Whether `r` is `area` scaled up: corner and dimensions each times `scale`, taken up to
/// whole pixels.
pub open spec fn is_upscaled(r: Rectangle, area: Rectangle, scale: Binary64) -> bool {
    &&& is_scaled(Rounding::Ceil, r.loc.x, area.loc.x, scale)
    &&& is_scaled(Rounding::Ceil, r.loc.y, area.loc.y, scale)
    &&& is_scaled(Rounding::Ceil, r.size.w, area.size.w, scale)
    &&& is_scaled(Rounding::Ceil, r.size.h, area.size.h, scale)
}

proof fn lemma_upscaled(area: Rectangle, scale: Binary64)
    ensures
        is_upscaled(area.upscaled(scale), area, scale),
{
    lemma_scaled(scale, area.loc.x, Rounding::Ceil);
    lemma_scaled(scale, area.loc.y, Rounding::Ceil);
    lemma_scaled(scale, area.size.w, Rounding::Ceil);
    lemma_scaled(scale, area.size.h, Rounding::Ceil);
}

/// A rectangle is scaled up corner and dimensions alike.
pub proof fn law_rectangle_is_upscaled(area: Rectangle, scale: Binary64, r: Rectangle)
    requires
        call_ensures(Rectangle::upscale_ceil, (area, scale), r),
    ensures
        is_upscaled(r, area, scale),
{
    lemma_upscaled(area, scale);
}

/// Whether `r` is `area` moved out by `by` on every side, as far as coordinates go.
pub open spec fn is_grown(r: Rectangle, area: Rectangle, by: i32) -> bool {
    &&& is_kept(area.loc.x - by, r.loc.x)
    &&& is_kept(area.loc.y - by, r.loc.y)
    &&& exists|twice: i32|
        {
            &&& #[trigger] is_kept(2 * by, twice)
            &&& is_kept(area.size.w + twice, r.size.w)
            &&& is_kept(area.size.h + twice, r.size.h)
        }
}

proof fn lemma_grown(area: Rectangle, by: i32)
    ensures
        is_grown(area.grown(by), area, by),
{
    let twice: i32 = if 2 * by < i32::MIN {
        i32::MIN
    } else if 2 * by > i32::MAX {
        i32::MAX
    } else {
        (2 * by) as i32
    };
    assert(is_kept(2 * by, twice));
}

/// A rectangle grows by as much on every side, and has the corner and the size that it is
/// given.
pub proof fn law_rectangle_is_grown(
    area: Rectangle,
    by: i32,
    grown: Rectangle,
    given: Rectangle,
    at_origin: Rectangle,
)
    requires
        call_ensures(Rectangle::grow, (area, by), grown),
        call_ensures(Rectangle::new, (area.loc, area.size), given),
        call_ensures(Rectangle::from_size, (area.size,), at_origin),
    ensures
        is_grown(grown, area, by),
        given == area,
        at_origin.loc.x == 0 && at_origin.loc.y == 0 && at_origin.size == area.size,
{
    lemma_grown(area, by);
}

/// Whether `r` is `2^(passes + 1)` times the radius in single precision, taken up to a
/// whole number of pixels. The number of passes is read as a signed one.
pub open spec fn is_reach(r: i32, passes: u32, radius: Binary64) -> bool {
    let n: int = if passes < 0x8000_0000 {
        passes + 1
    } else {
        passes + 1 - 0x1_0000_0000
    };
    exists|single: Binary32| #[trigger] is_narrowed(single, radius) && is_power_taken(r, n, single)
}

/// A blur reaches as far as `2^(passes + 1)` times its radius.
pub proof fn law_reach_is_the_radius_doubled_by_the_passes(config: Blur, r: i32)
    requires
        config.passes != i32::MAX,
        call_ensures(Blur::sampled_reach, (&config,), r),
    ensures
        is_reach(r, config.passes, config.radius),
{
    lemma_reach(config);
}

proof fn lemma_reach(config: Blur)
    ensures
        is_reach(config.reach(), config.passes, config.radius),
{
    lemma_narrowed(config.radius);
    lemma_power_taken(config.radius.narrowed(), config.exponent());
    assert(is_narrowed(config.radius.narrowed(), config.radius));
}

/// One more pass doubles how far a blur reaches, but for the rounding up to whole pixels,
/// so long as both are within the range of coordinates and the powers of two within that
/// of single precision.
pub proof fn law_one_more_pass_doubles_the_reach(fewer: Blur, more: Blur, near: i32, far: i32)
    requires
        fewer.radius == more.radius,
        more.passes == fewer.passes + 1,
        more.passes < 127,
        call_ensures(Blur::sampled_reach, (&fewer,), near),
        call_ensures(Blur::sampled_reach, (&more,), far),
        -0x4000_0000 < near < 0x4000_0000,
    ensures
        far == 2 * near || far == 2 * near - 1,
{
    let single = fewer.radius.narrowed();
    let n = fewer.passes + 1;
    lemma_power_taken(single, n);
    lemma_power_taken(single, n + 1);
    if let Unpacked::Finite { negative, mant, exp } = single.value() {
        if mant > 0 {
            let e = exp + n;
            let m = mant as nat;
            let x = choose|x: int|
                #[trigger] is_whole(Rounding::Ceil, x, negative, m, e) && is_kept(x, near);
            let y = choose|y: int|
                #[trigger] is_whole(Rounding::Ceil, y, negative, m, e + 1) && is_kept(y, far);
            lemma_ceilings_double(negative, m, e, x, y);
        }
    }
}

/// Twice a number is taken up to twice what the number is taken up to, or to one less.
proof fn lemma_ceilings_double(negative: bool, m: nat, e: int, x: int, y: int)
    requires
        is_whole(Rounding::Ceil, x, negative, m, e),
        is_whole(Rounding::Ceil, y, negative, m, e + 1),
    ensures
        y == 2 * x || y == 2 * x - 1,
{
    let v = if negative {
        -(m as int)
    } else {
        m as int
    };
    lemma2_to64();
    if e >= 0 {
        let p = pow2(e as nat) as int;
        lemma_pow2_adds(1, e as nat);
        assert(v * (2 * p) == 2 * (v * p)) by (nonlinear_arith);
    } else {
        let q = pow2((-e - 1) as nat) as int;
        lemma_pow2_pos((-e - 1) as nat);
        lemma_pow2_adds(1, (-e - 1) as nat);
        assert((-e) as nat == 1 + (-e - 1) as nat);
        assert((y - 1) * q < v <= y * q) by {
            if e == -1 {
                assert(v * 1 == v && (y - 1) * 1 == y - 1 && y * 1 == y);
            }
        }
        assert(y == 2 * x || y == 2 * x - 1) by (nonlinear_arith)
            requires
                (y - 1) * q < v <= y * q,
                (x - 1) * (2 * q) < v <= x * (2 * q),
                q > 0,
        ;
    }
}

/// A mask that is set is the one that true blur has. It changes nothing else, and an
/// optimized blur not at all.
pub proof fn law_mask_is_set<I, T, O>(
    before: BlurRenderElement<I, T, O>,
    mask: T,
    after: BlurRenderElement<I, T, O>,
)
    requires
        exists|element: &mut BlurRenderElement<I, T, O>|
            *element == before && *final(element) == after && #[trigger] call_ensures(
                BlurRenderElement::<I, T, O>::set_mask_texture,
                (element, mask),
                (),
            ),
    ensures
        after == before.with_mask(mask),
        before is Optimized ==> after == before,
        before is TrueBlur ==> {
            &&& after is TrueBlur
            &&& after->mask_texture == Some(mask)
            &&& after->TrueBlur_id == before->TrueBlur_id
            &&& after->TrueBlur_scale == before->TrueBlur_scale
            &&& after->transform == before->transform
            &&& after->src == before->src
            &&& after->size == before->size
            &&& after->TrueBlur_corner_radius == before->TrueBlur_corner_radius
            &&& after->loc == before->loc
            &&& after->output == before->output
            &&& after->config == before->config
            &&& after->commit_counter == before->commit_counter
        },
{
}

/// An element is of the technique that it was made for, and only a true blur has the mask
/// that it was given.
pub proof fn law_technique_is_the_one_asked_for<I, T, O>(
    origin: Origin<I, T, O>,
    mask: Option<T>,
    element: BlurRenderElement<I, T, O>,
)
    requires
        origin.yields(mask, element),
    ensures
        element is Optimized == origin.optimized,
        !origin.optimized ==> element->mask_texture == mask,
        !origin.optimized ==> element->output == origin.output,
{
}

/// A true blur answers with what it was made with, mask or not; nothing has been committed
/// to it, and nothing of it is opaque.
pub proof fn law_true_blur_answers_as_made<I, T, O>(
    origin: Origin<I, T, O>,
    mask: Option<T>,
    element: BlurRenderElement<I, T, O>,
    commit: Answer<usize>,
    location: Answer<Point>,
    src: Answer<BufferRegion>,
    transform: Answer<Transform>,
    opaque: Answer<Vec<Rectangle>>,
)
    requires
        !origin.optimized,
        origin.yields(mask, element),
        call_ensures(BlurRenderElement::<I, T, O>::current_commit, (&element,), commit),
        call_ensures(BlurRenderElement::<I, T, O>::location, (&element,), location),
        call_ensures(BlurRenderElement::<I, T, O>::src, (&element,), src),
        call_ensures(BlurRenderElement::<I, T, O>::transform, (&element,), transform),
        call_ensures(BlurRenderElement::<I, T, O>::opaque_regions, (&element,), opaque),
    ensures
        commit == Answer::Own(0usize),
        location == Answer::Own(origin.loc),
        src matches Answer::Own(region) && {
            &&& region.area == origin.sample_area
            &&& region.scale == origin.scale
            &&& region.transform == Transform::Normal
            &&& region.bounds == origin.sample_area.size
        },
        transform == Answer::Own(Transform::Normal),
        opaque matches Answer::Own(regions) && regions@.len() == 0,
{
}

/// Every true blur, however it came about, answers with its own parts.
pub proof fn law_true_blur_answers_with_its_parts<I, T, O>(
    element: BlurRenderElement<I, T, O>,
    scale: Scale,
    since: Option<usize>,
    id: I,
    commit: Answer<usize>,
    location: Answer<Point>,
    src: Answer<BufferRegion>,
    transform: Answer<Transform>,
    opaque: Answer<Vec<Rectangle>>,
    geometry: Answer<Rectangle>,
    damage: Answer<Vec<Rectangle>>,
)
    requires
        element is TrueBlur,
        element->config.passes != i32::MAX,
        call_ensures(BlurRenderElement::<I, T, O>::id, (&element,), &id),
        call_ensures(BlurRenderElement::<I, T, O>::current_commit, (&element,), commit),
        call_ensures(BlurRenderElement::<I, T, O>::location, (&element,), location),
        call_ensures(BlurRenderElement::<I, T, O>::src, (&element,), src),
        call_ensures(BlurRenderElement::<I, T, O>::transform, (&element,), transform),
        call_ensures(BlurRenderElement::<I, T, O>::opaque_regions, (&element,), opaque),
        call_ensures(BlurRenderElement::<I, T, O>::geometry, (&element, scale), geometry),
        call_ensures(BlurRenderElement::<I, T, O>::damage_since, (&element, scale, since), damage),
    ensures
        id == element->TrueBlur_id,
        commit == Answer::Own(element->commit_counter),
        location == Answer::Own(element->loc),
        src matches Answer::Own(region) && {
            &&& region.area == element->src
            &&& region.scale == element->TrueBlur_scale
            &&& region.transform == element->transform
            &&& region.bounds == element->size
        },
        transform == Answer::Own(element->transform),
        opaque matches Answer::Own(regions) && regions@.len() == 0,
        geometry matches Answer::Own(covered) && {
            &&& covered.loc == element->loc
            &&& is_scaled(Rounding::Nearest, covered.size.w, element->size.w, scale.x)
            &&& is_scaled(Rounding::Nearest, covered.size.h, element->size.h, scale.y)
        },
        geometry matches Answer::Own(covered) && damage matches Answer::Own(areas) && {
            &&& areas@.len() == 1
            &&& exists|reach: i32|
                #[trigger] is_reach(reach, element->config.passes, element->config.radius)
                    && is_grown(
                    areas@[0],
                    Rectangle { loc: Point { x: 0, y: 0 }, size: covered.size },
                    reach,
                )
        },
{
    let config = element->config;
    lemma_scaled(scale.x, element->size.w, Rounding::Nearest);
    lemma_scaled(scale.y, element->size.h, Rounding::Nearest);
    lemma_reach(config);
    assert(is_reach(config.reach(), config.passes, config.radius));
    lemma_grown(
        Rectangle { loc: Point { x: 0, y: 0 }, size: element.covered(scale).size },
        config.reach(),
    );
}

/// Every element, however it came about, needs a mask just where an end of its own alpha
/// range is not the default one.
pub proof fn law_mask_is_needed_off_the_own_default_range<I, T, O>(
    element: BlurRenderElement<I, T, O>,
    needed: bool,
)
    requires
        call_ensures(BlurRenderElement::<I, T, O>::needs_mask, (&element,), needed),
    ensures
        element matches BlurRenderElement::Optimized { min_alpha, max_alpha, .. } ==> (needed <==> {
            ||| min_alpha.bits % 0x8000_0000 != 0
            ||| max_alpha.bits != 0x3f80_0000
        }),
        element matches BlurRenderElement::TrueBlur { config, .. } ==> (needed <==> {
            ||| config.min_alpha.bits % 0x8000_0000_0000_0000 != 0
            ||| config.max_alpha.bits != 0x3ff0_0000_0000_0000
        }),
{
}

/// An optimized blur leaves every answer to its texture element.
pub proof fn law_optimized_blur_answers_as_its_texture<I, T, O>(
    origin: Origin<I, T, O>,
    mask: Option<T>,
    element: BlurRenderElement<I, T, O>,
    scale: Scale,
    since: Option<usize>,
    commit: Answer<usize>,
    location: Answer<Point>,
    src: Answer<BufferRegion>,
    transform: Answer<Transform>,
    opaque: Answer<Vec<Rectangle>>,
    geometry: Answer<Rectangle>,
    damage: Answer<Vec<Rectangle>>,
)
    requires
        origin.optimized,
        origin.yields(mask, element),
        call_ensures(BlurRenderElement::<I, T, O>::current_commit, (&element,), commit),
        call_ensures(BlurRenderElement::<I, T, O>::location, (&element,), location),
        call_ensures(BlurRenderElement::<I, T, O>::src, (&element,), src),
        call_ensures(BlurRenderElement::<I, T, O>::transform, (&element,), transform),
        call_ensures(BlurRenderElement::<I, T, O>::opaque_regions, (&element,), opaque),
        call_ensures(BlurRenderElement::<I, T, O>::geometry, (&element, scale), geometry),
        call_ensures(BlurRenderElement::<I, T, O>::damage_since, (&element, scale, since), damage),
    ensures
        commit is Texture,
        location is Texture,
        src is Texture,
        transform is Texture,
        opaque is Texture,
        geometry is Texture,
        damage is Texture,
{
}

/// The texture element of an optimized blur shows the sample area of the blurred
/// background, scaled up, at the place that it was made for; all of it is opaque, and it
/// is as large as it is opaque.
pub proof fn law_optimized_blur_shows_the_sample_area<I, T, O>(
    origin: Origin<I, T, O>,
    mask: Option<T>,
    element: BlurRenderElement<I, T, O>,
)
    requires
        origin.optimized,
        origin.yields(mask, element),
    ensures
        element matches BlurRenderElement::Optimized { tex, .. } && {
            &&& tex.id == origin.id
            &&& tex.texture == origin.texture
            &&& tex.location == origin.loc
            &&& tex.buffer_scale == 1
            &&& tex.transform == Transform::Normal
            &&& is_float_of(tex.alpha, 1)
            &&& tex.src == origin.sample_area
            &&& tex.src_scale == origin.scale
            &&& is_scaled(Rounding::Ceil, tex.size.w, origin.sample_area.size.w, origin.scale)
            &&& is_scaled(Rounding::Ceil, tex.size.h, origin.sample_area.size.h, origin.scale)
            &&& tex.opaque_regions@.len() == 1
            &&& is_upscaled(tex.opaque_regions@[0], origin.sample_area, origin.scale)
            &&& tex.opaque_regions@[0].size == tex.size
            &&& tex.kind == Kind::Unspecified
        },
{
    lemma_upscaled(origin.sample_area, origin.scale);
    lemma_constant_one(element->tex.alpha);
}

/// Every element gives back the identity that it was made with, is not translucent, and
/// of no special kind.
pub proof fn law_element_is_itself<I, T, O>(
    origin: Origin<I, T, O>,
    mask: Option<T>,
    element: BlurRenderElement<I, T, O>,
    id: I,
    alpha: Binary32,
    kind: Kind,
)
    requires
        origin.yields(mask, element),
        call_ensures(BlurRenderElement::<I, T, O>::id, (&element,), &id),
        call_ensures(BlurRenderElement::<I, T, O>::alpha, (&element,), alpha),
        call_ensures(BlurRenderElement::<I, T, O>::kind, (&element,), kind),
    ensures
        id == origin.id,
        is_float_of(alpha, 1),
        kind == Kind::Unspecified,
{
    lemma_constant_one(alpha);
}

/// A true blur covers its sample area's size in physical pixels, at the place that it was
/// made for: each dimension by the factor of its own axis.
pub proof fn law_true_blur_covers_its_physical_size<I, T, O>(
    origin: Origin<I, T, O>,
    mask: Option<T>,
    element: BlurRenderElement<I, T, O>,
    scale: Scale,
    geometry: Answer<Rectangle>,
)
    requires
        !origin.optimized,
        origin.yields(mask, element),
        call_ensures(BlurRenderElement::<I, T, O>::geometry, (&element, scale), geometry),
    ensures
        geometry matches Answer::Own(covered) && {
            &&& covered.loc == origin.loc
            &&& is_scaled(Rounding::Nearest, covered.size.w, origin.sample_area.size.w, scale.x)
            &&& is_scaled(Rounding::Nearest, covered.size.h, origin.sample_area.size.h, scale.y)
        },
{
    lemma_scaled(scale.x, origin.sample_area.size.w, Rounding::Nearest);
    lemma_scaled(scale.y, origin.sample_area.size.h, Rounding::Nearest);
}

/// A true blur is damaged where it is and as far around it as it reaches, whatever was
/// committed since.
pub proof fn law_true_blur_is_damaged_around_itself<I, T, O>(
    origin: Origin<I, T, O>,
    mask: Option<T>,
    element: BlurRenderElement<I, T, O>,
    scale: Scale,
    commit: Option<usize>,
    geometry: Answer<Rectangle>,
    damage: Answer<Vec<Rectangle>>,
    reach: i32,
)
    requires
        !origin.optimized,
        origin.config.passes != i32::MAX,
        origin.yields(mask, element),
        call_ensures(BlurRenderElement::<I, T, O>::geometry, (&element, scale), geometry),
        call_ensures(BlurRenderElement::<I, T, O>::damage_since, (&element, scale, commit), damage),
        call_ensures(Blur::sampled_reach, (&origin.config,), reach),
    ensures
        geometry matches Answer::Own(covered) && damage matches Answer::Own(areas) && {
            &&& areas@.len() == 1
            &&& is_grown(
                areas@[0],
                Rectangle { loc: Point { x: 0, y: 0 }, size: covered.size },
                reach,
            )
            &&& is_reach(reach, origin.config.passes, origin.config.radius)
        },
{
    law_reach_is_the_radius_doubled_by_the_passes(origin.config, reach);
    if let Answer::Own(covered) = geometry {
        lemma_grown(Rectangle { loc: Point { x: 0, y: 0 }, size: covered.size }, reach);
    }
}

/// Whether `x` is zero, of either sign, in single precision: within `2^-150`.
pub open spec fn is_single_zero(x: Binary64) -> bool {
    x.value() matches Unpacked::Finite { mant, exp, .. } && in_units(mant as nat, exp as int)
        <= pow2(924)
}

/// Whether `x` is one in single precision: from `1 - 2^-25` to `1 + 2^-24`.
pub open spec fn is_single_one(x: Binary64) -> bool {
    x.value() matches Unpacked::Finite { negative, mant, exp } && !negative && pow2(1074) - pow2(
        1049,
    ) <= in_units(mant as nat, exp as int) <= pow2(1074) + pow2(1050)
}

/// A mask is needed just where an end of the alpha range is not the default one: where the
/// lower end is not zero or the upper end is not one. An optimized blur has the ends in
/// single precision.
pub proof fn law_mask_is_needed_off_the_default_range<I, T, O>(
    origin: Origin<I, T, O>,
    mask: Option<T>,
    element: BlurRenderElement<I, T, O>,
    needed: bool,
)
    requires
        origin.yields(mask, element),
        call_ensures(BlurRenderElement::<I, T, O>::needs_mask, (&element,), needed),
    ensures
        !origin.optimized ==> (needed <==> {
            ||| origin.config.min_alpha.bits % 0x8000_0000_0000_0000 != 0
            ||| origin.config.max_alpha.bits != 0x3ff0_0000_0000_0000
        }),
        origin.optimized ==> (needed <==> {
            ||| !is_single_zero(origin.config.min_alpha)
            ||| !is_single_one(origin.config.max_alpha)
        }),
{
    let (low, high) = (origin.config.min_alpha, origin.config.max_alpha);
    law_narrowing_to_zero(low);
    law_narrowing_to_one(high);
    lemma2_to64();
    lemma2_to64_rest();
    lemma_pow2_pos(924);
    lemma_pow2_pos(1049);
    lemma_pow2_pos(1050);
    lemma_pow2_adds(52, 1022);
    lemma_pow2_adds(25, 1049);
    if let Unpacked::Finite { mant, exp, .. } = low.value() {
        lemma_no_units(mant as nat, exp as int);
    }
    if origin.optimized {
        assert(is_zero(low.narrowed().value()) <==> is_single_zero(low));
        assert(high.narrowed().is_one() <==> is_single_one(high)) by {
            if let Unpacked::Finite { negative, mant, exp } = high.value() {
                if !negative && in_units(mant as nat, exp as int) == pow2(1074) {
                    lemma_one_is_unique(high);
                }
            }
        }
    } else {
        assert(high.is_one() <==> high.bits == 0x3ff0_0000_0000_0000);
    }
}

} // verus!
