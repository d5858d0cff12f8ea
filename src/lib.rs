//! Reading FIGlet fonts and rendering text with them.
//!
//! A font file holds a header line, a block of comment lines, a fixed block
//! of glyphs for the printable ASCII characters and seven Latin-1 letters,
//! and an optional block of glyphs tagged with explicit code points.
//! [`FIGfont::from_content`] parses such a file and [`FIGfont::convert`]
//! turns a message into a [`FIGure`] of glyphs placed side by side.

pub mod error;
pub mod figure;
pub mod font;
pub mod glyph;
pub mod header;
pub mod standard;
pub mod text;

pub use error::{FontError, HeaderField};
pub use figure::FIGure;
pub use font::FIGfont;
pub use glyph::FIGcharacter;
pub use header::HeaderLine;
pub use standard::STANDARD_FONT;
