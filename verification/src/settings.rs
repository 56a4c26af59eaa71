//! The configuration record of one solver job.

use vstd::prelude::*;
use crate::cost::LAMBDA_MAX;

verus! {

/// Which correspondence strategy a job runs.
#[derive(Clone, Copy, PartialEq, Eq, Structural, Debug)]
pub enum Algorithm {
    /// Systematic pairwise improvement until no swap lowers the cost.
    Optimal,
    /// Randomized local search under a fixed iteration budget.
    Heuristic,
}

/// Why a job was rejected before any solver work began.
#[derive(Clone, Copy, PartialEq, Eq, Structural, Debug)]
pub enum SolveError {
    /// Source and target grids differ in size, or the grids do not match
    /// the configured side length.
    SizeMismatch,
    /// A settings field lies outside its recognized range.
    SettingsOutOfRange,
}

/// Smallest recognized grid side for a full job.
pub const MIN_JOB_SIDELEN: u32 = 64;

/// Largest recognized grid side for a full job.
pub const MAX_JOB_SIDELEN: u32 = 256;

/// Largest recognized color weight.
pub const MAX_PROXIMITY: i64 = 50;

/// Configuration of one job, immutable for its duration.
#[derive(Clone, Copy, PartialEq, Eq, Structural, Debug)]
pub struct GenerationSettings {
    /// Side of the particle grid; the job pairs `sidelen * sidelen`
    /// particles.
    pub sidelen: u32,
    /// Non-negative weight of the color distance relative to the spatial
    /// distance, before resolution normalization.
    pub proximity_importance: i64,
    /// The strategy to run.
    pub algorithm: Algorithm,
}

impl GenerationSettings {
    /// Every field lies in its recognized range.
    pub open spec fn valid(self) -> bool {
        &&& MIN_JOB_SIDELEN <= self.sidelen <= MAX_JOB_SIDELEN
        &&& 0 <= self.proximity_importance <= MAX_PROXIMITY
    }

    /// The color weight actually used, normalized by the grid resolution so
    /// that raising the resolution does not silently change the blend: the
    /// configured weight is read as exact at a 128-wide grid.
    pub open spec fn lambda_spec(self) -> int {
        self.proximity_importance * 128 / (self.sidelen as int)
    }

    /// Checks the recognized ranges; a job starts only on `Ok`.
    pub fn validate(&self) -> (r: Result<(), SolveError>)
        ensures
            r is Ok <==> self.valid(),
            r matches Err(e) ==> e == SolveError::SettingsOutOfRange,
    {
        if self.sidelen < MIN_JOB_SIDELEN || self.sidelen > MAX_JOB_SIDELEN {
            return Err(SolveError::SettingsOutOfRange);
        }
        if self.proximity_importance < 0 || self.proximity_importance > MAX_PROXIMITY {
            return Err(SolveError::SettingsOutOfRange);
        }
        Ok(())
    }

    /// The normalized color weight.
    pub fn lambda(&self) -> (l: i64)
        requires
            self.valid(),
        ensures
            l == self.lambda_spec(),
            0 <= l <= LAMBDA_MAX,
    {
        proof {
            let num = self.proximity_importance * 128;
            vstd::arithmetic::div_mod::lemma_div_is_ordered(0, num, self.sidelen as int);
            vstd::arithmetic::div_mod::lemma_div_is_ordered(num, 6400, self.sidelen as int);
            vstd::arithmetic::div_mod::lemma_div_is_ordered_by_denominator(6400, 64, self.sidelen as int);
        }
        (self.proximity_importance * 128) / (self.sidelen as i64)
    }
}

} // verus!
