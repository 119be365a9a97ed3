//! A small terminal line editor: a cursor-addressed buffer of text lines,
//! the plain-text file format it is loaded from and saved to, and the
//! per-keystroke dispatch that drives it.

pub mod buffer;
pub mod editor;
pub mod text;
