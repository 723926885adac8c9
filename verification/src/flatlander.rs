//! The obstacles that cast the shadows.

use vstd::prelude::*;

verus! {

/// An obstacle standing on the line: where it stands and how tall it is.
#[derive(Clone, Copy, Debug, PartialEq, Eq, Structural)]
pub struct Flatlander {
    /// Position on the line.
    pub x: i64,
    /// Height above the line.
    pub h: u64,
}

impl Flatlander {
    /// An obstacle of height `h` standing at `x`.
    pub fn nuevo(x: i64, h: u64) -> (r: Self)
        ensures
            r.x == x,
            r.h == h,
    {
        Self { x, h }
    }
}

} // verus!
