//! Visual preferences of the desktop front end.
use vstd::prelude::*;

verus! {

/// User preferences. A missing `dark_mode` key reads as `true`.
#[derive(Debug, Clone, Copy, PartialEq, Eq, Structural)]
pub struct Prefs {
    pub dark_mode: bool,
}

/// Default of `dark_mode`: dark.
pub fn default_dark() -> (r: bool)
    ensures
        r,
{
    true
}

impl Default for Prefs {
    fn default() -> (r: Prefs)
        ensures
            r.dark_mode,
    {
        Prefs { dark_mode: default_dark() }
    }
}

} // verus!
