//! Terminal text styles and colours: attribute flags, foreground and
//! background colours, their merge, the ANSI SGR escape sequence that
//! selects them, and the parsers for colour names and hex colours.
pub mod text;
pub mod color;
pub mod style;

pub use color::{parse_color, Color, ParseError};
pub use style::Style;
