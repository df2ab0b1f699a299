# background_blur

Background effects for translucent surfaces of a Wayland compositor, verified with
[Verus](https://github.com/verus-lang/verus).

- `src/background_effect.rs`: the protocol by which clients ask for an effect behind a
  surface. It keeps one effect object per surface, answers requests, and says what the
  compositor has to do with its Wayland objects.
- `src/blur_element.rs`, `src/blur_draw.rs`: the render element that blurs what lies
  behind a surface, and the plan by which a renderer draws it.
- `src/geometry.rs`, `src/binary_float.rs`, `src/rounding.rs`: whole pixels, and IEEE 754
  numbers held as bit patterns, with exact contracts for every rounding.
- `src/effect_laws.rs`, `src/blur_laws.rs`, `src/binary_order.rs`: what holds across
  operations, and what the conversions between numbers keep.
- `tests/`: concrete cases, and the bit-pattern arithmetic against the machine's own.
- `app/`: the glue to smithay's Wayland objects and GL renderer. The compositor supplies
  the generated protocol bindings (`Protocol`) and the blur passes (`BlurHost`).
