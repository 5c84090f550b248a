//! Building blocks of a desktop widget toolkit whose behaviour is stated in
//! contracts and proved: the grapheme-aware value of a text input, and the
//! arrangement rules of a few composite widgets.

pub mod theme;
pub mod widget;
