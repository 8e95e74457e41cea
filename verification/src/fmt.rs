//! Formatting metadata attached to a fragment: whether its content is
//! rendered verbatim (Display) or quoted and escaped (Debug).

use vstd::prelude::*;

verus! {

/// Whether a fragment's content is emitted verbatim (`Yes`) or quoted with
/// byte-level escaping (`No`).
#[derive(Copy, Clone)]
pub enum IsDisplay {
    Yes,
    No,
}

/// Formatting argument handed to fragment constructors; carries the
/// display mode to attach to the constructed fragment.
#[derive(Copy, Clone)]
pub struct FmtArg {
    pub is_display: IsDisplay,
}

impl FmtArg {
    /// The formatting argument for verbatim (Display) rendering.
    pub fn display() -> (r: Self)
        ensures
            r.is_display is Yes,
    {
        FmtArg { is_display: IsDisplay::Yes }
    }

    /// The formatting argument for quoted, escaped (Debug) rendering.
    pub fn debug() -> (r: Self)
        ensures
            r.is_display is No,
    {
        FmtArg { is_display: IsDisplay::No }
    }
}

} // verus!
