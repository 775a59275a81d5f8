//! Text-to-value core of a JSON parser: the simple escape table, the decoder
//! of `\u` escapes (surrogate pairs included) into UTF-8, and the callbacks
//! that build a value tree, borrowing strings from the input, from a stream
//! of parse events.

pub mod de;
pub mod escape;
pub mod unicode;
pub mod value;
