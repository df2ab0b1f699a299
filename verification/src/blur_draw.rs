//! How a blur element is drawn: the passes, programs and uniforms that the renderer
//! is to use.

use crate::binary_float::{is_zero, truncated, Binary32, Binary64};
use crate::blur_element::{Blur, BlurRenderElement};
use crate::geometry::{Rectangle, Transform};
use vstd::prelude::*;

verus! {

/// The value of a shader uniform.
#[derive(Clone, Copy, PartialEq, Eq, Structural, Debug)]
pub enum UniformValue {
    Float(Binary32),
    Float4(Binary32, Binary32, Binary32, Binary32),
    Int(i32),
}

/// A named value handed to a shader.
#[derive(Clone, Copy, Debug)]
pub struct Uniform {
    pub name: &'static str,
    pub value: UniformValue,
}

impl View for Uniform {
    type V = (Seq<char>, UniformValue);

    open spec fn view(&self) -> (Seq<char>, UniformValue) {
        (self.name@, self.value)
    }
}

/// The names and values of uniforms.
pub open spec fn named(uniforms: Seq<Uniform>) -> Seq<(Seq<char>, UniformValue)> {
    uniforms.map_values(|u: Uniform| u@)
}

/// Which of an output's two effect buffers is the current one.
#[derive(Clone, Copy, PartialEq, Eq, Structural, Debug)]
pub enum CurrentBuffer {
    Normal,
    Swapped,
}

/// The render step that blurs the framebuffer.
#[derive(Clone, Copy, PartialEq, Eq, Structural, Debug)]
pub struct BlurPass {
    /// The buffer that the step starts from.
    pub current_buffer: CurrentBuffer,
    pub config: Blur,
    pub scale: i32,
    pub dst: Rectangle,
    pub is_tty: bool,
}

/// The render step that shows the blurred framebuffer.
#[derive(Debug)]
pub struct FinishPass {
    /// Whether the finishing program is used in place of the default one.
    pub program: bool,
    /// Whether the mask is bound to the second texture unit.
    pub bind_mask: bool,
    pub uniforms: Vec<Uniform>,
    pub dst: Rectangle,
    pub transform: Transform,
    pub alpha: Binary32,
}

/// How an optimized blur is drawn.
#[derive(Debug)]
pub struct OptimizedDraw {
    /// Where the texture goes.
    pub dst: Rectangle,
    /// The uniforms of the finishing program, where it overrides the default one for
    /// this texture.
    pub finish: Option<Vec<Uniform>>,
}

/// How an element is drawn.
#[derive(Debug)]
pub enum DrawPlan {
    Optimized(OptimizedDraw),
    TrueBlur { blur: BlurPass, finish: FinishPass },
}

/// The uniform value of a rectangle: corner, then dimensions.
pub open spec fn rectangle_value(r: Rectangle) -> UniformValue {
    UniformValue::Float4(
        Binary32::of_i32(r.loc.x),
        Binary32::of_i32(r.loc.y),
        Binary32::of_i32(r.size.w),
        Binary32::of_i32(r.size.h),
    )
}

fn rectangle_uniform(name: &'static str, r: Rectangle) -> (u: Uniform)
    ensures
        u@ == (name@, rectangle_value(r)),
{
    Uniform {
        name,
        value: UniformValue::Float4(
            Binary32::from_i32(r.loc.x),
            Binary32::from_i32(r.loc.y),
            Binary32::from_i32(r.size.w),
            Binary32::from_i32(r.size.h),
        ),
    }
}

fn float_uniform(name: &'static str, value: Binary32) -> (u: Uniform)
    ensures
        u@ == (name@, UniformValue::Float(value)),
{
    Uniform { name, value: UniformValue::Float(value) }
}

/// The single-precision number for a truth value.
pub open spec fn flag(b: bool) -> Binary32 {
    if b {
        Binary32 { bits: 0x3f80_0000 }
    } else {
        Binary32 { bits: 0 }
    }
}

/// The uniforms that true blur is finished with, by the finishing program.
pub open spec fn true_blur_uniforms(
    config: Blur,
    dst: Rectangle,
    corner_radius: Binary32,
    alpha: Binary32,
    has_mask: bool,
) -> Seq<(Seq<char>, UniformValue)> {
    seq![
        ("geo"@, rectangle_value(dst)),
        ("alpha"@, UniformValue::Float(alpha)),
        ("noise"@, UniformValue::Float(config.noise.narrowed())),
        ("corner_radius"@, UniformValue::Float(corner_radius)),
        ("min_alpha"@, UniformValue::Float(config.min_alpha.narrowed())),
        ("max_alpha"@, UniformValue::Float(config.max_alpha.narrowed())),
        ("has_mask"@, UniformValue::Float(flag(has_mask))),
    ]
}

/// The uniforms that optimized blur is finished with, by the finishing program.
pub open spec fn optimized_uniforms(
    dst: Rectangle,
    corner_radius: Binary32,
    noise: Binary32,
    alpha: Binary32,
    min_alpha: Binary32,
    max_alpha: Binary32,
) -> Seq<(Seq<char>, UniformValue)> {
    seq![
        ("geo"@, rectangle_value(dst)),
        ("corner_radius"@, UniformValue::Float(corner_radius)),
        ("noise"@, UniformValue::Float(noise)),
        ("alpha"@, UniformValue::Float(alpha)),
        ("min_alpha"@, UniformValue::Float(min_alpha)),
        ("max_alpha"@, UniformValue::Float(max_alpha)),
    ]
}

/// Whether true blur has to be finished by a program of its own.
pub open spec fn needs_shader(corner_radius: Binary32, has_mask: bool) -> bool {
    !is_zero(corner_radius.value()) || has_mask
}

/// Whether `blur` and `finish` draw a true blur as it is to be drawn.
pub open spec fn draws_true_blur(
    blur: BlurPass,
    finish: FinishPass,
    config: Blur,
    scale: Binary64,
    dst: Rectangle,
    corner_radius: Binary32,
    alpha: Binary32,
    is_tty: bool,
    has_mask: bool,
    has_program: bool,
) -> bool {
    let shader = needs_shader(corner_radius, has_mask);
    let uniforms = true_blur_uniforms(config, dst, corner_radius, alpha, has_mask);
    &&& blur == (BlurPass {
        current_buffer: CurrentBuffer::Normal,
        config,
        scale: truncated(scale.value()),
        dst,
        is_tty,
    })
    &&& finish.program == (shader && has_program)
    &&& finish.bind_mask == (has_mask && has_program)
    &&& named(finish.uniforms@) == if !shader {
        Seq::empty()
    } else if has_mask && has_program {
        uniforms.push(("mask"@, UniformValue::Int(1)))
    } else {
        uniforms
    }
    &&& finish.dst == dst
    &&& finish.transform == Transform::Normal
    &&& finish.alpha == alpha
}

/// Plans how a true blur is drawn. `has_mask` says whether the element has an alpha
/// mask, and `has_program` whether the renderer has the finishing program.
pub fn draw_true_blur(
    config: &Blur,
    scale: Binary64,
    dst: Rectangle,
    corner_radius: Binary32,
    alpha: Binary32,
    is_tty: bool,
    has_mask: bool,
    has_program: bool,
) -> (r: (BlurPass, FinishPass))
    ensures
        draws_true_blur(
            r.0,
            r.1,
            *config,
            scale,
            dst,
            corner_radius,
            alpha,
            is_tty,
            has_mask,
            has_program,
        ),
{
    let blur = BlurPass {
        current_buffer: CurrentBuffer::Normal,
        config: *config,
        scale: scale.as_i32(),
        dst,
        is_tty,
    };
    let shader: bool = !corner_radius.equals_zero() || has_mask;
    let mut uniforms: Vec<Uniform> = Vec::new();
    if shader {
        uniforms.push(rectangle_uniform("geo", dst));
        uniforms.push(float_uniform("alpha", alpha));
        uniforms.push(float_uniform("noise", config.noise.narrow()));
        uniforms.push(float_uniform("corner_radius", corner_radius));
        uniforms.push(float_uniform("min_alpha", config.min_alpha.narrow()));
        uniforms.push(float_uniform("max_alpha", config.max_alpha.narrow()));
        let mask_flag: Binary32 = if has_mask {
            Binary32::one()
        } else {
            Binary32::zero()
        };
        uniforms.push(float_uniform("has_mask", mask_flag));
    }
    let bind_mask: bool = has_mask && has_program;
    if bind_mask {
        // The second texture unit.
        uniforms.push(Uniform { name: "mask", value: UniformValue::Int(1) });
    }
    proof {
        let fixed = true_blur_uniforms(*config, dst, corner_radius, alpha, has_mask);
        if !shader {
            assert(named(uniforms@) =~= Seq::empty());
        } else if bind_mask {
            assert(named(uniforms@) =~= fixed.push(("mask"@, UniformValue::Int(1))));
        } else {
            assert(named(uniforms@) =~= fixed);
        }
    }
    (
        blur,
        FinishPass {
            program: shader && has_program,
            bind_mask,
            uniforms,
            dst,
            transform: Transform::Normal,
            alpha,
        },
    )
}

impl<I, T, O> BlurRenderElement<I, T, O> {
    /// Whether `plan` draws the element at `dst` as it is to be drawn.
    pub open spec fn drawn_by(
        self,
        plan: DrawPlan,
        dst: Rectangle,
        is_tty: bool,
        has_program: bool,
    ) -> bool {
        let alpha = Binary32 { bits: 0x3f80_0000 };
        match self {
            BlurRenderElement::Optimized {
                corner_radius,
                noise,
                scale,
                min_alpha,
                max_alpha,
                ..
            } => {
                &&& plan matches DrawPlan::Optimized(draw)
                &&& draw.dst == (Rectangle { loc: dst.loc, size: dst.size.divided(scale) })
                &&& match draw.finish {
                    None => is_zero(corner_radius.value()),
                    Some(uniforms) => {
                        &&& !is_zero(corner_radius.value())
                        &&& named(uniforms@) == optimized_uniforms(
                            dst,
                            corner_radius,
                            noise,
                            alpha,
                            min_alpha,
                            max_alpha,
                        )
                    },
                }
            },
            BlurRenderElement::TrueBlur { scale, corner_radius, config, mask_texture, .. } => {
                &&& plan matches DrawPlan::TrueBlur { blur, finish }
                &&& draws_true_blur(
                    blur,
                    finish,
                    config,
                    scale,
                    dst,
                    corner_radius,
                    alpha,
                    is_tty,
                    mask_texture is Some,
                    has_program,
                )
            },
        }
    }

    /// Plans how the element is drawn at `dst`, by the terminal's renderer or another.
    /// `has_program` says whether the renderer has the finishing program, which an
    /// optimized blur with round corners cannot be drawn without.
    pub fn draw(&self, dst: Rectangle, is_tty: bool, has_program: bool) -> (plan: DrawPlan)
        requires
            self matches BlurRenderElement::Optimized { corner_radius, .. } ==> is_zero(
                corner_radius.value(),
            ) || has_program,
        ensures
            self.drawn_by(plan, dst, is_tty, has_program),
    {
        match self {
            BlurRenderElement::Optimized {
                corner_radius,
                noise,
                scale,
                min_alpha,
                max_alpha,
                ..
            } => {
                let downscaled_dst: Rectangle = Rectangle::new(dst.loc, dst.size.divide(*scale));
                if corner_radius.equals_zero() {
                    DrawPlan::Optimized(OptimizedDraw { dst: downscaled_dst, finish: None })
                } else {
                    let mut uniforms: Vec<Uniform> = Vec::new();
                    uniforms.push(rectangle_uniform("geo", dst));
                    uniforms.push(float_uniform("corner_radius", *corner_radius));
                    uniforms.push(float_uniform("noise", *noise));
                    uniforms.push(float_uniform("alpha", self.alpha()));
                    uniforms.push(float_uniform("min_alpha", *min_alpha));
                    uniforms.push(float_uniform("max_alpha", *max_alpha));
                    assert(named(uniforms@) =~= optimized_uniforms(
                        dst,
                        *corner_radius,
                        *noise,
                        Binary32 { bits: 0x3f80_0000 },
                        *min_alpha,
                        *max_alpha,
                    ));
                    DrawPlan::Optimized(
                        OptimizedDraw { dst: downscaled_dst, finish: Some(uniforms) },
                    )
                }
            },
            BlurRenderElement::TrueBlur { scale, corner_radius, config, mask_texture, .. } => {
                let (blur, finish) = draw_true_blur(
                    config,
                    *scale,
                    dst,
                    *corner_radius,
                    self.alpha(),
                    is_tty,
                    mask_texture.is_some(),
                    has_program,
                );
                DrawPlan::TrueBlur { blur, finish }
            },
        }
    }
}

} // verus!
