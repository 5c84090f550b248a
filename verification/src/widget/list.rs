//! Lists.

pub mod button_column;
