//! Resolution of PostScript/OpenType glyph names to Unicode code points,
//! following the Adobe Glyph List (AGL) naming convention.
//!
//! A raw glyph name is truncated at its first `.`, split on `_` into
//! segments, and each segment is resolved to zero or more hexadecimal
//! code-point strings: by dictionary lookup first, then by the `uniXXXX...`
//! multi-code-point convention, then by the `uXXXX[XX]` single-code-point
//! convention. A separate decoding step turns a sequence of code-point
//! strings into text, failing if any of them is not a valid Unicode scalar
//! value.

pub mod decode;
pub mod dict;
pub mod hex;
pub mod resolve;
pub mod split;
