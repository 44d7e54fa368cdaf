pub mod alpha;
pub mod cmyk;
pub mod hex;
pub mod hsl;
pub mod number;
pub mod rgb;
pub mod round_trip;
pub mod text;
pub mod utils;
