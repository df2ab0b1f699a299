//! Blur elements: making them, asking them, drawing them.

use background_blur::binary_float::{Binary32, Binary64};
use background_blur::blur_draw::{draw_true_blur, CurrentBuffer, DrawPlan, FinishPass, Uniform, UniformValue};
use background_blur::blur_element::{Answer, Blur, BlurRenderElement, BufferRegion, Kind};
use background_blur::geometry::{Point, Rectangle, Scale, Size, Transform};

type Element = BlurRenderElement<u32, &'static str, &'static str>;

fn b64(x: f64) -> Binary64 {
    Binary64 { bits: x.to_bits() }
}

fn b32(x: f32) -> Binary32 {
    Binary32 { bits: x.to_bits() }
}

fn rect(x: i32, y: i32, w: i32, h: i32) -> Rectangle {
    Rectangle::new(Point { x, y }, Size { w, h })
}

fn uniform_scale(x: f64) -> Scale {
    Scale { x: b64(x), y: b64(x) }
}

fn config() -> Blur {
    Blur { passes: 3, radius: b64(5.0), noise: b64(0.02), min_alpha: b64(0.0), max_alpha: b64(1.0) }
}

fn element(optimized: bool, corner_radius: f32, scale: f64, config: Blur) -> Element {
    BlurRenderElement::new(
        9,
        "background",
        "DP-1",
        rect(10, 20, 101, 50),
        Point { x: 3, y: 4 },
        b32(corner_radius),
        optimized,
        b64(scale),
        config,
    )
}

fn uniforms(list: &[Uniform]) -> Vec<(&'static str, UniformValue)> {
    list.iter().map(|u| (u.name, u.value)).collect()
}

fn float(x: f32) -> UniformValue {
    UniformValue::Float(b32(x))
}

#[test]
fn optimized_blur_shows_a_scaled_part_of_the_background() {
    let Element::Optimized { tex, corner_radius, noise, scale, min_alpha, max_alpha } =
        element(true, 12.0, 1.25, config())
    else {
        panic!("not an optimized blur");
    };
    assert_eq!(corner_radius, b32(12.0));
    assert_eq!(noise, b32(0.02f64 as f32));
    assert_eq!(scale, b64(1.25));
    assert_eq!(min_alpha, b32(0.0));
    assert_eq!(max_alpha, b32(1.0));
    assert_eq!(tex.id, 9);
    assert_eq!(tex.texture, "background");
    assert_eq!(tex.location, Point { x: 3, y: 4 });
    assert_eq!(tex.buffer_scale, 1);
    assert_eq!(tex.transform, Transform::Normal);
    assert_eq!(tex.alpha, b32(1.0));
    assert_eq!(tex.src, rect(10, 20, 101, 50));
    assert_eq!(tex.src_scale, b64(1.25));
    assert_eq!(tex.size, Size { w: 127, h: 63 });
    assert_eq!(tex.opaque_regions, vec![rect(13, 25, 127, 63)]);
    assert_eq!(tex.kind, Kind::Unspecified);
}

#[test]
fn true_blur_keeps_what_it_is_given() {
    let e = element(false, 12.0, 1.5, config());
    assert_eq!(*e.id(), 9);
    assert_eq!(e.current_commit(), Answer::Own(0));
    assert_eq!(e.location(), Answer::Own(Point { x: 3, y: 4 }));
    assert_eq!(e.transform(), Answer::Own(Transform::Normal));
    assert_eq!(
        e.src(),
        Answer::Own(BufferRegion {
            area: rect(10, 20, 101, 50),
            scale: b64(1.5),
            transform: Transform::Normal,
            bounds: Size { w: 101, h: 50 },
        })
    );
    assert_eq!(e.opaque_regions(), Answer::Own(vec![]));
    assert_eq!(e.alpha(), b32(1.0));
    assert_eq!(e.kind(), Kind::Unspecified);
    let Element::TrueBlur { output, config: own, mask_texture, .. } = e else {
        panic!("not a true blur");
    };
    assert_eq!(output, "DP-1");
    assert_eq!(own, config());
    assert_eq!(mask_texture, None);
}

#[test]
fn optimized_blur_answers_as_its_texture() {
    let e = element(true, 0.0, 1.0, config());
    assert_eq!(*e.id(), 9);
    assert_eq!(e.current_commit(), Answer::Texture);
    assert_eq!(e.location(), Answer::Texture);
    assert_eq!(e.src(), Answer::Texture);
    assert_eq!(e.transform(), Answer::Texture);
    assert_eq!(e.geometry(uniform_scale(2.0)), Answer::Texture);
    assert_eq!(e.damage_since(uniform_scale(2.0), None), Answer::Texture);
    assert_eq!(e.opaque_regions(), Answer::Texture);
    assert_eq!(e.alpha(), b32(1.0));
    assert_eq!(e.kind(), Kind::Unspecified);
}

#[test]
fn geometry_is_rounded_to_physical_pixels() {
    let e = element(false, 0.0, 1.0, config());
    assert_eq!(e.geometry(uniform_scale(1.0)), Answer::Own(rect(3, 4, 101, 50)));
    assert_eq!(e.geometry(uniform_scale(1.5)), Answer::Own(rect(3, 4, 152, 75)));
    let uneven = Scale { x: b64(2.0), y: b64(0.25) };
    assert_eq!(e.geometry(uneven), Answer::Own(rect(3, 4, 202, 13)));
}

#[test]
fn damage_reaches_as_far_as_the_blur_samples() {
    let e = element(false, 0.0, 1.0, config());
    // 2^4 * 5 on every side.
    assert_eq!(e.damage_since(uniform_scale(1.0), None), Answer::Own(vec![rect(-80, -80, 261, 210)]));
    assert_eq!(e.damage_since(uniform_scale(2.0), Some(0)), Answer::Own(vec![rect(-80, -80, 362, 260)]));
}

#[test]
fn reach_is_rounded_up() {
    assert_eq!(Blur { passes: 0, radius: b64(1.1), ..config() }.sampled_reach(), 3);
    assert_eq!(Blur { passes: 1, radius: b64(2.5), ..config() }.sampled_reach(), 10);
    assert_eq!(Blur { passes: 5, radius: b64(0.0), ..config() }.sampled_reach(), 0);
    assert_eq!(Blur { passes: 30, radius: b64(2.0), ..config() }.sampled_reach(), i32::MAX);
    assert_eq!(Blur { passes: 4000, radius: b64(0.5), ..config() }.sampled_reach(), i32::MAX);
    assert_eq!(Blur { passes: 4000, radius: b64(0.0), ..config() }.sampled_reach(), 0);
}

#[test]
fn reach_grows_with_the_passes() {
    let mut last = 0;
    for passes in 0..40 {
        let reach = Blur { passes, radius: b64(0.3), ..config() }.sampled_reach();
        assert!(reach >= last);
        last = reach;
    }
}

#[test]
fn damage_saturates() {
    let e = element(false, 0.0, 1.0, Blur { passes: 40, ..config() });
    assert_eq!(
        e.damage_since(uniform_scale(1.0), None),
        Answer::Own(vec![rect(-i32::MAX, -i32::MAX, i32::MAX, i32::MAX)])
    );
}

#[test]
fn default_alpha_range_needs_no_mask() {
    for optimized in [true, false] {
        assert!(!element(optimized, 3.0, 1.0, config()).needs_mask());
        assert!(!element(optimized, 3.0, 1.0, Blur { min_alpha: b64(-0.0), ..config() }).needs_mask());
        assert!(element(optimized, 3.0, 1.0, Blur { min_alpha: b64(0.1), ..config() }).needs_mask());
        assert!(element(optimized, 3.0, 1.0, Blur { max_alpha: b64(0.9), ..config() }).needs_mask());
        assert!(element(optimized, 3.0, 1.0, Blur { max_alpha: b64(f64::NAN), ..config() }).needs_mask());
    }
}

/// An alpha that is lost in single precision matters to true blur alone.
#[test]
fn tiny_alpha_is_seen_by_true_blur_only() {
    let tiny = Blur { min_alpha: b64(1e-60), ..config() };
    assert!(!element(true, 0.0, 1.0, tiny).needs_mask());
    assert!(element(false, 0.0, 1.0, tiny).needs_mask());
}

#[test]
fn mask_is_kept_by_true_blur_only() {
    let mut e = element(false, 0.0, 1.0, config());
    let before = e.geometry(uniform_scale(1.0));
    e.set_mask_texture("first");
    e.set_mask_texture("mask");
    assert_eq!(e.geometry(uniform_scale(1.0)), before);
    assert!(matches!(e, Element::TrueBlur { mask_texture: Some("mask"), .. }));
    let mut o = element(true, 0.0, 1.0, config());
    o.set_mask_texture("mask");
    assert!(matches!(o, Element::Optimized { .. }));
    assert!(!o.needs_mask());
}

#[test]
fn optimized_blur_with_square_corners_is_drawn_plainly() {
    let DrawPlan::Optimized(draw) = element(true, 0.0, 1.5, config()).draw(rect(5, 6, 151, 90), false, true) else {
        panic!("not an optimized blur");
    };
    assert_eq!(draw.dst, rect(5, 6, 100, 60));
    assert!(draw.finish.is_none());
}

#[test]
fn optimized_blur_with_round_corners_is_finished() {
    let dst = rect(5, 6, 151, 90);
    let DrawPlan::Optimized(draw) = element(true, 12.0, 2.0, config()).draw(dst, true, true) else {
        panic!("not an optimized blur");
    };
    assert_eq!(draw.dst, rect(5, 6, 75, 45));
    assert_eq!(
        uniforms(&draw.finish.unwrap()),
        vec![
            ("geo", UniformValue::Float4(b32(5.0), b32(6.0), b32(151.0), b32(90.0))),
            ("corner_radius", float(12.0)),
            ("noise", float(0.02f64 as f32)),
            ("alpha", float(1.0)),
            ("min_alpha", float(0.0)),
            ("max_alpha", float(1.0)),
        ]
    );
}

fn true_blur(e: &Element, is_tty: bool, has_program: bool) -> FinishPass {
    let dst = rect(5, 6, 151, 90);
    let DrawPlan::TrueBlur { blur, finish } = e.draw(dst, is_tty, has_program) else {
        panic!("not a true blur");
    };
    assert_eq!(blur.current_buffer, CurrentBuffer::Normal);
    assert_eq!(blur.config, config());
    assert_eq!(blur.scale, 1);
    assert_eq!(blur.dst, dst);
    assert_eq!(blur.is_tty, is_tty);
    assert_eq!(finish.dst, dst);
    assert_eq!(finish.transform, Transform::Normal);
    assert_eq!(finish.alpha, b32(1.0));
    finish
}

fn true_blur_uniforms(corner_radius: f32, has_mask: f32) -> Vec<(&'static str, UniformValue)> {
    vec![
        ("geo", UniformValue::Float4(b32(5.0), b32(6.0), b32(151.0), b32(90.0))),
        ("alpha", float(1.0)),
        ("noise", float(0.02f64 as f32)),
        ("corner_radius", float(corner_radius)),
        ("min_alpha", float(0.0)),
        ("max_alpha", float(1.0)),
        ("has_mask", float(has_mask)),
    ]
}

#[test]
fn plain_true_blur_needs_no_program() {
    for has_program in [true, false] {
        let finish = true_blur(&element(false, 0.0, 1.75, config()), false, has_program);
        assert!(!finish.program);
        assert!(!finish.bind_mask);
        assert!(finish.uniforms.is_empty());
    }
}

#[test]
fn round_corners_are_finished_by_the_program() {
    let e = element(false, 8.0, 1.75, config());
    let finish = true_blur(&e, true, true);
    assert!(finish.program);
    assert!(!finish.bind_mask);
    assert_eq!(uniforms(&finish.uniforms), true_blur_uniforms(8.0, 0.0));
    let finish = true_blur(&e, true, false);
    assert!(!finish.program);
    assert_eq!(uniforms(&finish.uniforms), true_blur_uniforms(8.0, 0.0));
}

#[test]
fn mask_is_bound_where_there_is_a_program() {
    let mut e = element(false, 0.0, 1.75, config());
    e.set_mask_texture("mask");
    let finish = true_blur(&e, false, true);
    assert!(finish.program);
    assert!(finish.bind_mask);
    let mut expected = true_blur_uniforms(0.0, 1.0);
    expected.push(("mask", UniformValue::Int(1)));
    assert_eq!(uniforms(&finish.uniforms), expected);
    let finish = true_blur(&e, false, false);
    assert!(!finish.program);
    assert!(!finish.bind_mask);
    assert_eq!(uniforms(&finish.uniforms), true_blur_uniforms(0.0, 1.0));
}

#[test]
fn blur_pass_is_told_the_whole_scale() {
    let dst = rect(0, 0, 1, 1);
    let (blur, _) = draw_true_blur(&config(), b64(2.9), dst, b32(0.0), b32(0.5), true, false, false);
    assert_eq!(blur.scale, 2);
    assert!(blur.is_tty);
    let (_, finish) = draw_true_blur(&config(), b64(2.9), dst, b32(1.0), b32(0.5), true, false, true);
    assert_eq!(finish.alpha, b32(0.5));
    assert_eq!(finish.uniforms[1].value, float(0.5));
}

#[test]
fn scale_one_changes_nothing() {
    let size = Size { w: 1919, h: i32::MAX };
    assert_eq!(size.to_physical_precise_round(uniform_scale(1.0)), size);
    assert_eq!(size.divide(b64(1.0)), size);
    let area = rect(-7, i32::MIN, 12, i32::MAX);
    assert_eq!(area.upscale_ceil(b64(1.0)), area);
}

#[test]
fn rectangles_grow_on_every_side() {
    assert_eq!(rect(10, 20, 30, 40).grow(5), rect(5, 15, 40, 50));
    assert_eq!(rect(i32::MIN, 0, i32::MAX, 1).grow(5), rect(i32::MIN, -5, i32::MAX, 11));
    assert_eq!(Rectangle::from_size(Size { w: 3, h: 4 }), rect(0, 0, 3, 4));
}

#[test]
fn renderers_draw_alike() {
    let dst = rect(5, 6, 151, 90);
    for corner_radius in [0.0, 8.0] {
        let e = element(true, corner_radius, 1.5, config());
        let (DrawPlan::Optimized(a), DrawPlan::Optimized(b)) = (e.draw(dst, true, true), e.draw(dst, false, true))
        else {
            panic!("not optimized blurs");
        };
        assert_eq!(a.dst, b.dst);
        assert_eq!(a.finish.map(|u| uniforms(&u)), b.finish.map(|u| uniforms(&u)));
        let mut t = element(false, corner_radius, 1.5, config());
        t.set_mask_texture("mask");
        let (a, b) = (true_blur(&t, true, true), true_blur(&t, false, true));
        assert_eq!((a.program, a.bind_mask), (b.program, b.bind_mask));
        assert_eq!(uniforms(&a.uniforms), uniforms(&b.uniforms));
    }
}

#[test]
fn identities_stay_apart() {
    for optimized in [true, false] {
        let mut e = element(optimized, 0.0, 1.0, config());
        let mut other = Element::new(
            10,
            "background",
            "DP-1",
            rect(10, 20, 101, 50),
            Point { x: 3, y: 4 },
            b32(0.0),
            optimized,
            b64(1.0),
            config(),
        );
        assert_eq!((*e.id(), *other.id()), (9, 10));
        e.set_mask_texture("mask");
        other.set_mask_texture("mask");
        assert_eq!((*e.id(), *other.id()), (9, 10));
        assert_eq!(e.id(), e.id());
    }
}

fn damage(passes: u32, radius: f64, commit: Option<usize>) -> Rectangle {
    let e = element(false, 0.0, 1.0, Blur { passes, radius: b64(radius), ..config() });
    let Answer::Own(damage) = e.damage_since(uniform_scale(1.5), commit) else {
        panic!("not a true blur");
    };
    assert_eq!(damage.len(), 1);
    damage[0]
}

#[test]
fn damage_does_not_depend_on_the_commit() {
    let since_start = damage(3, 5.0, None);
    for commit in [0, 1, 7, usize::MAX] {
        assert_eq!(damage(3, 5.0, Some(commit)), since_start);
    }
}

#[test]
fn stronger_blur_never_shrinks_the_damage() {
    let radii = [0.0, 1e-60, 0.3, 5.0, 5.5, 1000.0];
    for (i, &smaller) in radii.iter().enumerate() {
        for &larger in &radii[i..] {
            for fewer in 0..12 {
                let (inner, outer) = (damage(fewer, smaller, None), damage(fewer + i as u32, larger, None));
                assert!(outer.loc.x <= inner.loc.x && outer.loc.y <= inner.loc.y);
                assert!(inner.loc.x + inner.size.w <= outer.loc.x + outer.size.w);
                assert!(inner.loc.y + inner.size.h <= outer.loc.y + outer.size.h);
            }
        }
    }
}

#[test]
fn passes_beyond_the_signed_range_count_as_negative() {
    let reach = |passes: u32, radius: f64| Blur { passes, radius: b64(radius), ..config() }.sampled_reach();
    assert_eq!(reach(u32::MAX, 5.5), 6);
    assert_eq!(reach(u32::MAX - 1, 5.5), 3);
    assert_eq!(reach(u32::MAX - 3, 5.5), 1);
    assert_eq!(reach(u32::MAX - 127, 5.5), 1);
    assert_eq!(reach(u32::MAX - 128, 5.5), 0);
    assert_eq!(reach(i32::MAX as u32 + 1, f64::INFINITY), 0);
    assert_eq!(reach(i32::MAX as u32 - 1, 5.5), i32::MAX);
}

#[test]
fn opaque_region_covers_what_is_shown() {
    for scale in [0.3, 0.5, 1.0, 1.1, 1.25, 1.5, 2.75, 1e5] {
        let Element::Optimized { tex, .. } = element(true, 0.0, scale, config()) else {
            panic!("not an optimized blur");
        };
        let region = tex.opaque_regions[0];
        for (covered, shown) in [
            (region.size.w, 101.0 * scale),
            (region.size.h, 50.0 * scale),
            (region.loc.x, 10.0 * scale),
            (region.loc.y, 20.0 * scale),
        ] {
            assert!(covered as f64 >= shown && covered as f64 - 1.0 < shown);
        }
    }
}

#[test]
fn larger_radius_never_shrinks_the_damage() {
    let radii = [
        f64::NEG_INFINITY, -1e39, -2.5, -0.3, -1e-60, -0.0, 0.0, 1e-60, 1e-45, 1e-40, 0.1, 0.3,
        0.30000000000000004, 1.0, 2.5, 1024.0, 1e38, 1e39, f64::INFINITY,
    ];
    for passes in [0, 3, 126, 127, 200, u32::MAX, u32::MAX - 5, u32::MAX - 127, u32::MAX - 128] {
        let mut last: Option<Rectangle> = None;
        for radius in radii {
            let outer = damage(passes, radius, None);
            if let Some(inner) = last {
                assert!(outer.loc.x <= inner.loc.x && outer.loc.y <= inner.loc.y);
                assert!(outer.size.w >= inner.size.w && outer.size.h >= inner.size.h);
            }
            last = Some(outer);
        }
    }
}

fn both_need_mask(min_alpha: f64, max_alpha: f64) -> (bool, bool) {
    let config = Blur { min_alpha: b64(min_alpha), max_alpha: b64(max_alpha), ..config() };
    (element(true, 0.0, 1.0, config).needs_mask(), element(false, 0.0, 1.0, config).needs_mask())
}

#[test]
fn techniques_agree_on_masks() {
    for alpha in [0.0, -0.0, 0.25f32, 0.1, 0.5, 1.0, 1e-45, -1.0, f32::INFINITY, f32::NAN] {
        let (optimized, own) = both_need_mask(alpha as f64, 1.0);
        assert_eq!((optimized, own), (alpha != 0.0, alpha != 0.0));
        let (optimized, own) = both_need_mask(0.0, alpha as f64);
        assert_eq!((optimized, own), (alpha != 1.0, alpha != 1.0));
    }
    for alpha in [0.1, 0.3, 0.7, 0.9999] {
        assert_eq!(both_need_mask(alpha, 1.0), (true, true));
        assert_eq!(both_need_mask(0.0, alpha), (true, true));
    }
}

/// Single precision takes an end of the alpha range for the default up to half a step
/// away from it.
#[test]
fn techniques_differ_only_next_to_the_default() {
    let tiny = 2f64.powi(-150);
    assert_eq!(both_need_mask(tiny, 1.0), (false, true));
    assert_eq!(both_need_mask(-tiny, 1.0), (false, true));
    assert_eq!(both_need_mask(f64::from_bits(tiny.to_bits() + 1), 1.0), (true, true));
    let below = 1.0 - 2f64.powi(-25);
    assert_eq!(both_need_mask(0.0, below), (false, true));
    assert_eq!(both_need_mask(0.0, f64::from_bits(below.to_bits() - 1)), (true, true));
    let above = 1.0 + 2f64.powi(-24);
    assert_eq!(both_need_mask(0.0, above), (false, true));
    assert_eq!(both_need_mask(0.0, f64::from_bits(above.to_bits() + 1)), (true, true));
}
