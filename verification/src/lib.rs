//! Core of an image-morph animation: a correspondence solver that pairs the
//! particles of a source image with those of a target image at minimal cost,
//! a progress channel that streams the solver's status, and a motion
//! simulator that moves every particle from its source to its assigned
//! target under a selectable motion style.
//!
//! All geometry is carried in fixed-point integers: a normalized coordinate
//! in `[0, 1]` is stored as an integer in `[0, UNIT]`.

mod cost;
mod fixed;
mod grid;
mod jobs;
mod perm;
mod progress;
mod settings;
mod sim;
mod solver;
mod ui;

pub use cost::{total_cost_exec, LAMBDA_MAX};
pub use fixed::UNIT;
pub use grid::{GridError, Particle, ParticleGrid, MAX_PARTICLES, MAX_SIDELEN};
pub use jobs::{CancelFlag, JobHandle, JobManager};
pub use perm::{identity_assignment, is_permutation};
pub use progress::{ProgressMsg, PROGRESS_FULL};
pub use settings::{Algorithm, GenerationSettings, SolveError};
pub use sim::{MotionParams, MotionSimulator, MotionStyle, SimError, SimulationState};
pub use solver::{solve, JobState, SolveOutcome, SolveRun, SolverJob};
pub use ui::{get_default_preset_name, CompareView, PlaybackSpeed, RightPanelTab, UiMode};
