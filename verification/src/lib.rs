//! Renders text as large multi-line ASCII/Unicode-art glyphs taken from a
//! FIGlet font definition, merges adjacent glyphs column by column according
//! to the font's layout rules ("smushing"), and wraps the composed output at
//! a configured width with optional alignment.

use vstd::prelude::*;

pub mod charsmush;
pub mod figfont;
pub mod smusher;
pub mod strsmush;
pub mod wrapper;

pub use figfont::{char_from_u32, u32_from_str, FIGchar, FIGfont};
pub use figfont::{
    SMUSH_BIGX, SMUSH_ENABLE, SMUSH_EQUAL, SMUSH_HARDBLANK, SMUSH_HIERARCHY, SMUSH_KERN,
    SMUSH_PAIR, SMUSH_UNDERLINE,
};
pub use smusher::Smusher;
pub use strsmush::CharExt;
pub use wrapper::{split_tokens, Align, Wrapper};

verus! {

/// Everything that can go wrong in this crate.
///
/// The first four variants are font-loading failures: the whole load fails.
/// `LineFull` is not a failure but a control-flow signal from the line
/// wrapper: the last push did not fit and the caller must flush or clear
/// before continuing.
#[derive(Debug)]
pub enum Error {
    /// The font definition is malformed: wrong magic tag, short header,
    /// empty glyph row, or mismatched glyph row widths.
    FontFormat(&'static str),
    /// A line of the font definition could not be read at all.
    Io,
    /// A header field or code tag is not a valid integer in the expected
    /// base; holds the offending field.
    Parse(String),
    /// A parsed code tag does not correspond to a valid code point.
    CodeTag(u32),
    /// The wrapper's width budget would be exceeded; the rejected text was
    /// not added.
    LineFull,
}

} // verus!
