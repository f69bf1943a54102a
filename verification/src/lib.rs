//! The numbers behind simple statistical charts, in exact arithmetic.
//!
//! Four parts, all of them pure functions: the range of a series
//! ([`utils::get_min_max`]), the planning of an axis with nice tick
//! positions ([`utils::nice_ticks`], [`utils::get_ticks`]), the colors of
//! a series ([`ChartColor`] with [`Palette`], [`Gradient`] and
//! [`CalculatedColor`]), and the layout and geometry of a pie ([`pie`]).
//!
//! Values are whole numbers. A caller with fractional data picks a unit
//! (thousandths, millionths) and passes counts of it; tick spacings finer
//! than the unit are exact all the same, because a spacing is kept as a
//! mantissa and a decimal exponent. Coordinates on the circle count
//! millionths, and linear light counts billionths of full intensity.

pub mod arith;
pub mod color;
pub mod error;
pub mod gamma;
pub mod nice;
pub mod pie;
pub mod point;
pub mod text;
pub mod utils;

pub use color::{CalculatedColor, ChartColor, Color, Gradient, Palette};
pub use error::ChartError;
pub use point::{Point, Series};
