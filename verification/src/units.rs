use vstd::prelude::*;

verus! {

/// Largest magnitude a coordinate may take, in milli-units. Entities may
/// drift past the visible screen before cleanup removes them, but never
/// beyond this bound, which keeps every intermediate `i64` computation far
/// from overflow.
pub const POS_LIMIT: i64 = 10_000_000_000_000;

/// Largest hitbox edge length, in milli-units.
pub const SIZE_LIMIT: i64 = 1_000_000_000;

/// Largest speed, in units per second (equivalently milli-units per
/// millisecond).
pub const SPEED_LIMIT: i64 = 1_000_000;

/// Largest frame time, in milliseconds.
pub const DT_LIMIT: i64 = 1_000_000;

/// Largest screen extent, in milli-units.
pub const SCREEN_LIMIT: i64 = 2_000_000_000;

/// Per-frame clock sample: elapsed time since the previous frame and the
/// informational frame rate.
#[derive(Clone, Copy, PartialEq, Eq, Structural, Debug)]
pub struct Time {
    /// Milliseconds since the previous frame.
    pub dt: i64,
    /// Frames per second as reported by the platform; informational only.
    pub fps: i32,
}

impl Time {
    pub open spec fn wf(self) -> bool {
        0 <= self.dt <= DT_LIMIT
    }
}

/// Current simulation-space extent. It may change between frames (window
/// resize); the simulation re-reads it every frame rather than caching it.
#[derive(Clone, Copy, PartialEq, Eq, Structural, Debug)]
pub struct Screen {
    /// Width in milli-units.
    pub width: i64,
    /// Height in milli-units.
    pub height: i64,
}

impl Screen {
    pub open spec fn wf(self) -> bool {
        0 <= self.width <= SCREEN_LIMIT && 0 <= self.height <= SCREEN_LIMIT
    }
}

} // verus!
