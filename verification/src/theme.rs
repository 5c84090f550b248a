//! What the widgets take from a theme.

use vstd::prelude::*;

verus! {

/// The spacing steps of a theme that the widgets are laid out with, from the
/// smallest to the largest.
#[derive(Clone, Copy, Debug, PartialEq, Eq)]
pub struct Spacing {
    pub space_xxs: u16,
    pub space_s: u16,
    pub space_m: u16,
    pub space_l: u16,
}

} // verus!
