//! Color notations and the conversions between them.
//!
//! A color can be written in hexadecimal, RGB(A), HSL(A) or CMYK notation.
//! Each notation has a parser that reads a string into the value type of that
//! notation, and the value types convert into one another. `classify` tries a
//! string against the notations in their order.
//!
//! All numbers are whole: channels are bytes, hues are degrees, saturation,
//! lightness and inks are percents, and an alpha is a fixed-point fraction
//! (see `color::alpha`). The conversions are stated and computed in exact
//! integer arithmetic.

pub mod classify;
pub mod color;
pub mod error;
