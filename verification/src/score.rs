use crate::units::SIZE_LIMIT;
use vstd::prelude::*;

verus! {

/// Running score for the current run and the best score ever reached.
/// The high score never decreases; the running score resets when a new run
/// starts from the main menu.
#[derive(Clone, Copy, PartialEq, Eq, Structural, Debug)]
pub struct ScoreTracker {
    pub score: u32,
    pub high_score: u32,
}

/// `x` capped at `u32::MAX`.
pub open spec fn spec_saturate_u32(x: int) -> int {
    if x > u32::MAX {
        u32::MAX as int
    } else {
        x
    }
}

/// Points awarded for destroying an obstacle: its edge length in screen
/// units, rounded half-up from milli-units.
pub open spec fn spec_points_for_size(size: int) -> int {
    (size + 500) / 1000
}

impl ScoreTracker {
    pub open spec fn wf(self) -> bool {
        self.score <= self.high_score
    }

    /// A fresh tracker that continues from a persisted high score.
    pub fn new(high_score: u32) -> (t: ScoreTracker)
        ensures
            t.score == 0,
            t.high_score == high_score,
            t.wf(),
    {
        ScoreTracker { score: 0, high_score }
    }

    /// Start a new run: the running score returns to zero, the high score
    /// stays.
    pub fn reset(&mut self)
        ensures
            final(self).score == 0,
            final(self).high_score == old(self).high_score,
            final(self).wf(),
    {
        self.score = 0;
    }

    /// Award points, capping the running score at `u32::MAX`, and raise the
    /// high score to match if the running score passed it.
    pub fn add_points(&mut self, points: u32)
        requires
            old(self).wf(),
        ensures
            final(self).score == spec_saturate_u32(old(self).score + points),
            final(self).high_score == if final(self).score > old(self).high_score {
                final(self).score as int
            } else {
                old(self).high_score as int
            },
            final(self).high_score >= old(self).high_score,
            final(self).wf(),
    {
        if points > u32::MAX - self.score {
            self.score = u32::MAX;
        } else {
            self.score = self.score + points;
        }
        if self.score > self.high_score {
            self.high_score = self.score;
        }
    }
}

/// Points for an obstacle of the given edge length, as a `u32`.
pub fn points_for_size(size: i64) -> (p: u32)
    requires
        0 < size <= SIZE_LIMIT,
    ensures
        p == spec_points_for_size(size as int),
{
    ((size + 500) / 1000) as u32
}

} // verus!
