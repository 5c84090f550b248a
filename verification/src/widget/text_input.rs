//! The text input: its value, and the Unicode segmentation that the value
//! rests on.

pub mod model;
pub mod segmentation;
mod strings;
pub mod value;
pub mod words;
