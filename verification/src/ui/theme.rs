//! Theme selection. The dark palette is the default; users can swap to light
//! from the Settings screen.
use vstd::prelude::*;

verus! {

/// Light or dark palette.
#[derive(Debug, Clone, Copy, PartialEq, Eq, Structural)]
pub enum ThemeChoice {
    Light,
    Dark,
}

impl Default for ThemeChoice {
    fn default() -> (r: Self)
        ensures
            r == ThemeChoice::Dark,
    {
        ThemeChoice::Dark
    }
}

} // verus!
