//! The widgets.

pub mod dialog;
pub mod list;
pub mod text_input;
