//! The render element that blurs what lies behind a translucent surface.
//!
//! Render identities, textures and outputs are carried through as they come, as the
//! type parameters `I`, `T` and `O`.

use crate::binary_float::{ceil_times_power, is_zero, Binary32, Binary64};
use crate::geometry::{Point, Rectangle, Scale, Size, Transform};
use vstd::prelude::*;

verus! {

/// How a window's background is blurred.
#[derive(Clone, Copy, PartialEq, Eq, Structural, Debug)]
pub struct Blur {
    /// The number of blur passes.
    pub passes: u32,
    /// The blur radius, in pixels.
    pub radius: Binary64,
    /// The strength of the noise laid over the result.
    pub noise: Binary64,
    /// The lower end of the alpha range, zero by default.
    pub min_alpha: Binary64,
    /// The upper end of the alpha range, one by default.
    pub max_alpha: Binary64,
}

impl Blur {
    /// One more than the number of passes, which is read as a signed number of
    /// thirty-two bits: a number of passes beyond its range counts as a negative one.
    pub open spec fn exponent(self) -> int {
        if self.passes <= i32::MAX {
            self.passes + 1
        } else {
            self.passes - u32::MAX
        }
    }

    /// How many pixels beyond itself a blurred area is made from:
    /// `2^(passes + 1) * radius`, rounded up.
    pub open spec fn reach(self) -> i32 {
        ceil_times_power(self.exponent(), self.radius.narrowed().value())
    }

    /// How many pixels beyond itself a blurred area is made from.
    pub fn sampled_reach(&self) -> (r: i32)
        requires
            self.passes != i32::MAX,
        ensures
            r == self.reach(),
    {
        let exponent: i32 = if self.passes < 0x7fff_ffff {
            self.passes as i32 + 1
        } else {
            -((u32::MAX - self.passes) as i32)
        };
        self.radius.narrow().ceil_times_power(exponent)
    }
}

/// What kind of element this is to the renderer.
#[derive(Clone, Copy, PartialEq, Eq, Structural, Debug)]
pub enum Kind {
    Cursor,
    Unspecified,
}

/// A texture element that shows a part of an already blurred texture.
#[derive(Debug)]
pub struct OptimizedTexture<I, T> {
    pub id: I,
    pub texture: T,
    pub location: Point,
    pub buffer_scale: i32,
    pub transform: Transform,
    pub alpha: Binary32,
    /// The part of the texture that is shown, before it is scaled up by `src_scale`.
    pub src: Rectangle,
    pub src_scale: Binary64,
    pub size: Size,
    pub opaque_regions: Vec<Rectangle>,
    pub kind: Kind,
}

/// A blur behind a surface.
#[derive(Debug)]
pub enum BlurRenderElement<I, T, O> {
    /// Use optimized blur, aka X-ray blur: shows the blurred background, no matter
    /// what else is below the element.
    Optimized {
        tex: OptimizedTexture<I, T>,
        corner_radius: Binary32,
        noise: Binary32,
        scale: Binary64,
        min_alpha: Binary32,
        max_alpha: Binary32,
    },
    /// Use true blur: blurs what is in the framebuffer below the element, in a render
    /// step of its own.
    TrueBlur {
        id: I,
        scale: Binary64,
        transform: Transform,
        src: Rectangle,
        size: Size,
        corner_radius: Binary32,
        loc: Point,
        output: O,
        config: Blur,
        /// Alpha mask for per-pixel control of the blur.
        mask_texture: Option<T>,
        commit_counter: usize,
    },
}

/// An answer about an element: its own, or that of its texture element.
#[derive(PartialEq, Eq, Structural, Debug)]
pub enum Answer<V> {
    /// Whatever the texture element answers.
    Texture,
    /// The element's own answer.
    Own(V),
}

/// The region of a buffer that an element shows: `area` at `scale`, turned by
/// `transform` within `bounds`.
#[derive(Clone, Copy, PartialEq, Eq, Structural, Debug)]
pub struct BufferRegion {
    pub area: Rectangle,
    pub scale: Binary64,
    pub transform: Transform,
    pub bounds: Size,
}

impl<I, T, O> BlurRenderElement<I, T, O> {
    /// Makes the element that belongs below the translucent surface to be blurred.
    /// `sample_area` is relative to the output that is rendered, and `texture` is the
    /// output's blurred background.
    pub fn new(
        id: I,
        texture: T,
        output: O,
        sample_area: Rectangle,
        loc: Point,
        corner_radius: Binary32,
        optimized: bool,
        scale: Binary64,
        config: Blur,
    ) -> (r: BlurRenderElement<I, T, O>)
        ensures
            r.identity() == id,
            optimized ==> {
                &&& r matches BlurRenderElement::Optimized {
                    tex,
                    corner_radius: radius,
                    noise,
                    scale: s,
                    min_alpha,
                    max_alpha,
                }
                &&& radius == corner_radius
                &&& s == scale
                &&& noise == config.noise.narrowed()
                &&& min_alpha == config.min_alpha.narrowed()
                &&& max_alpha == config.max_alpha.narrowed()
                &&& tex.id == id
                &&& tex.texture == texture
                &&& tex.location == loc
                &&& tex.buffer_scale == 1
                &&& tex.transform == Transform::Normal
                &&& tex.alpha.is_one()
                &&& tex.src == sample_area
                &&& tex.src_scale == scale
                &&& tex.size == sample_area.upscaled(scale).size
                &&& tex.opaque_regions@ == seq![sample_area.upscaled(scale)]
                &&& tex.kind == Kind::Unspecified
            },
            !optimized ==> r == (BlurRenderElement::<I, T, O>::TrueBlur {
                id,
                scale,
                transform: Transform::Normal,
                src: sample_area,
                size: sample_area.size,
                corner_radius,
                loc,
                output,
                config,
                mask_texture: None,
                commit_counter: 0,
            }),
    {
        if optimized {
            let scaled: Rectangle = sample_area.upscale_ceil(scale);
            let tex = OptimizedTexture {
                id,
                texture,
                location: loc,
                buffer_scale: 1,
                transform: Transform::Normal,
                alpha: Binary32::one(),
                src: sample_area,
                src_scale: scale,
                size: scaled.size,
                // Nothing below the window is rendered.
                opaque_regions: vec![scaled],
                kind: Kind::Unspecified,
            };
            BlurRenderElement::Optimized {
                tex,
                corner_radius,
                noise: config.noise.narrow(),
                scale,
                min_alpha: config.min_alpha.narrow(),
                max_alpha: config.max_alpha.narrow(),
            }
        } else {
            BlurRenderElement::TrueBlur {
                id,
                scale,
                transform: Transform::Normal,
                src: sample_area,
                size: sample_area.size,
                corner_radius,
                loc,
                output,
                config,
                mask_texture: None,
                commit_counter: 0,
            }
        }
    }

    /// The element with an alpha mask. Only true blur takes one.
    pub open spec fn with_mask(self, mask: T) -> BlurRenderElement<I, T, O> {
        match self {
            BlurRenderElement::Optimized { .. } => self,
            BlurRenderElement::TrueBlur {
                id,
                scale,
                transform,
                src,
                size,
                corner_radius,
                loc,
                output,
                config,
                mask_texture,
                commit_counter,
            } => BlurRenderElement::TrueBlur {
                id,
                scale,
                transform,
                src,
                size,
                corner_radius,
                loc,
                output,
                config,
                mask_texture: Some(mask),
                commit_counter,
            },
        }
    }

    /// Sets an alpha mask for per-pixel control of the blur. Only true blur takes one.
    pub fn set_mask_texture(&mut self, mask: T)
        ensures
            *final(self) == old(self).with_mask(mask),
    {
        if let BlurRenderElement::TrueBlur { mask_texture, .. } = self {
            *mask_texture = Some(mask);
        }
    }

    /// Whether the element's alpha range differs from zero to one.
    pub open spec fn masked(self) -> bool {
        match self {
            BlurRenderElement::Optimized { min_alpha, max_alpha, .. } => {
                !is_zero(min_alpha.value()) || !max_alpha.is_one()
            },
            BlurRenderElement::TrueBlur { config, .. } => {
                !is_zero(config.min_alpha.value()) || !config.max_alpha.is_one()
            },
        }
    }

    /// Whether an alpha mask has to be generated for the element, because its alpha
    /// range is not the default one.
    pub fn needs_mask(&self) -> (r: bool)
        ensures
            r == self.masked(),
    {
        match self {
            BlurRenderElement::Optimized { min_alpha, max_alpha, .. } => {
                !min_alpha.equals_zero() || !max_alpha.equals_one()
            },
            BlurRenderElement::TrueBlur { config, .. } => {
                !config.min_alpha.equals_zero() || !config.max_alpha.equals_one()
            },
        }
    }

    /// The element's identity: for an optimized blur, that of its texture element.
    pub open spec fn identity(self) -> I {
        match self {
            BlurRenderElement::Optimized { tex, .. } => tex.id,
            BlurRenderElement::TrueBlur { id, .. } => id,
        }
    }

    /// The element's identity.
    pub fn id(&self) -> (r: &I)
        ensures
            *r == self.identity(),
    {
        match self {
            BlurRenderElement::Optimized { tex, .. } => &tex.id,
            BlurRenderElement::TrueBlur { id, .. } => id,
        }
    }

    /// The commit that the element shows.
    pub fn current_commit(&self) -> (r: Answer<usize>)
        ensures
            r == match *self {
                BlurRenderElement::Optimized { .. } => Answer::Texture,
                BlurRenderElement::TrueBlur { commit_counter, .. } => Answer::Own(commit_counter),
            },
    {
        match self {
            BlurRenderElement::Optimized { .. } => Answer::Texture,
            BlurRenderElement::TrueBlur { commit_counter, .. } => Answer::Own(*commit_counter),
        }
    }

    /// Where the element is, in physical pixels, at any scale.
    pub fn location(&self) -> (r: Answer<Point>)
        ensures
            r == match *self {
                BlurRenderElement::Optimized { .. } => Answer::Texture,
                BlurRenderElement::TrueBlur { loc, .. } => Answer::Own(loc),
            },
    {
        match self {
            BlurRenderElement::Optimized { .. } => Answer::Texture,
            BlurRenderElement::TrueBlur { loc, .. } => Answer::Own(*loc),
        }
    }

    /// The region of the buffer that the element shows.
    pub fn src(&self) -> (r: Answer<BufferRegion>)
        ensures
            r == match *self {
                BlurRenderElement::Optimized { .. } => Answer::Texture,
                BlurRenderElement::TrueBlur { src, transform, size, scale, .. } => Answer::Own(
                    BufferRegion { area: src, scale, transform, bounds: size },
                ),
            },
    {
        match self {
            BlurRenderElement::Optimized { .. } => Answer::Texture,
            BlurRenderElement::TrueBlur { src, transform, size, scale, .. } => Answer::Own(
                BufferRegion { area: *src, scale: *scale, transform: *transform, bounds: *size },
            ),
        }
    }

    /// How the element's buffer is turned.
    pub fn transform(&self) -> (r: Answer<Transform>)
        ensures
            r == match *self {
                BlurRenderElement::Optimized { .. } => Answer::Texture,
                BlurRenderElement::TrueBlur { transform, .. } => Answer::Own(transform),
            },
    {
        match self {
            BlurRenderElement::Optimized { .. } => Answer::Texture,
            BlurRenderElement::TrueBlur { transform, .. } => Answer::Own(*transform),
        }
    }

    /// The area that true blur covers at the given scale.
    pub open spec fn covered(self, scale: Scale) -> Rectangle
        recommends
            self is TrueBlur,
    {
        Rectangle { loc: self->loc, size: self->size.physical(scale) }
    }

    /// The area that the element covers, in physical pixels.
    pub fn geometry(&self, scale: Scale) -> (r: Answer<Rectangle>)
        ensures
            self is Optimized ==> r is Texture,
            self is TrueBlur ==> r == Answer::Own(self.covered(scale)),
    {
        match self {
            BlurRenderElement::Optimized { .. } => Answer::Texture,
            BlurRenderElement::TrueBlur { loc, size, .. } => Answer::Own(
                Rectangle::new(*loc, size.to_physical_precise_round(scale)),
            ),
        }
    }

    /// The area, relative to the element, in which true blur may have changed: the
    /// element itself, and as far around it as it samples.
    pub open spec fn damaged(self, scale: Scale) -> Rectangle
        recommends
            self is TrueBlur,
    {
        Rectangle { loc: Point { x: 0, y: 0 }, size: self.covered(scale).size }.grown(
            self->config.reach(),
        )
    }

    /// The areas, relative to the element, in which true blur may have changed since
    /// `commit`: it does not keep track of changes, so that any may have happened.
    pub open spec fn damage_after(self, scale: Scale, commit: Option<usize>) -> Seq<Rectangle>
        recommends
            self is TrueBlur,
    {
        seq![self.damaged(scale)]
    }

    /// The areas, relative to the element, that have changed since a commit. True blur
    /// does not keep track of changes: any may have happened.
    pub fn damage_since(&self, scale: Scale, _commit: Option<usize>) -> (r: Answer<Vec<Rectangle>>)
        requires
            self matches BlurRenderElement::TrueBlur { config, .. } ==> config.passes != i32::MAX,
        ensures
            self is Optimized ==> r is Texture,
            self is TrueBlur ==> {
                &&& r matches Answer::Own(damage)
                &&& damage@ == self.damage_after(scale, _commit)
            },
    {
        match self {
            BlurRenderElement::Optimized { .. } => Answer::Texture,
            BlurRenderElement::TrueBlur { config, size, .. } => {
                // The blur samples from around itself, so that changes there show in it.
                let geometry: Rectangle = Rectangle::from_size(
                    size.to_physical_precise_round(scale),
                );
                Answer::Own(vec![geometry.grow(config.sampled_reach())])
            },
        }
    }

    /// The parts of the element that nothing shows through. True blur shows what is
    /// behind it everywhere.
    pub fn opaque_regions(&self) -> (r: Answer<Vec<Rectangle>>)
        ensures
            self is Optimized ==> r is Texture,
            self is TrueBlur ==> {
                &&& r matches Answer::Own(regions)
                &&& regions@ == Seq::<Rectangle>::empty()
            },
    {
        match self {
            BlurRenderElement::Optimized { .. } => Answer::Texture,
            BlurRenderElement::TrueBlur { .. } => Answer::Own(Vec::new()),
        }
    }

    /// The element's alpha.
    pub fn alpha(&self) -> (r: Binary32)
        ensures
            r.is_one(),
            r == (Binary32 { bits: 0x3f80_0000 }),
    {
        Binary32::one()
    }

    /// The element's kind.
    pub fn kind(&self) -> (r: Kind)
        ensures
            r == Kind::Unspecified,
    {
        Kind::Unspecified
    }
}

} // verus!
