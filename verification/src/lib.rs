//! Background effects for translucent surfaces of a Wayland compositor.
//!
//! [`background_effect`] is the protocol by which clients ask for an effect behind a
//! surface. [`blur_element`] is the render element that blurs what lies there, and
//! [`blur_draw`] plans how the renderer draws it. Both work on whole pixels
//! ([`geometry`]) and on binary numbers held as bit patterns ([`binary_float`],
//! [`rounding`]), so that everything they decide is exact.
//!
//! [`effect_laws`] and [`blur_laws`] state what holds across operations, and
//! [`binary_order`] what the conversions between binary numbers keep. [`element_laws`]
//! and [`draw_laws`] follow an element from its making to what it answers and how it is
//! drawn, and [`number_laws`] say how results lie to the exact ones.

pub mod background_effect;
pub mod binary_float;
pub mod binary_order;
pub mod blur_draw;
pub mod blur_element;
pub mod blur_laws;
pub mod draw_laws;
pub mod effect_laws;
pub mod element_laws;
pub mod geometry;
pub mod number_laws;
pub mod rounding;
