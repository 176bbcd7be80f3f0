//! The interface the core exposes to plate-solver adapters.

use vstd::prelude::*;
use crate::common::SkyCoord;
use crate::common::WorldTransform;
use crate::math::Angle;

verus! {

/// Results of plate solving an image: the sky coordinate at the
/// reference pixel, and the pixel-to-sky transform.
#[derive(Clone, Copy, Debug, PartialEq, Eq, Structural)]
pub struct PlateSolveResult {
    pub coord: SkyCoord,
    pub transform: WorldTransform,
}

impl Default for PlateSolveResult {
    fn default() -> (r: PlateSolveResult)
        ensures
            r.coord.wf(),
            r.transform.wf(),
            r.coord.ra@ == (0int, 1int),
            r.coord.dec@ == (0int, 1int),
            r.coord.date@ == (0int, 1int),
            r.transform.m00@ == (0int, 1int),
            r.transform.t0@ == (0int, 1int),
    {
        PlateSolveResult { coord: SkyCoord::default(), transform: WorldTransform::default() }
    }
}

/// Common options to give to plate solvers.
#[derive(Clone, Copy, Debug, PartialEq, Eq, Structural)]
pub struct PlateSolverOptions {
    /// Guess at the field of view, to help seed plate solving.
    /// A very inaccurate value may make solving fail.
    pub fov_guess: Angle,
}

impl Default for PlateSolverOptions {
    fn default() -> (r: PlateSolverOptions)
        ensures
            r.fov_guess@ == (0int, 1int),
            r.fov_guess.wf(),
    {
        PlateSolverOptions { fov_guess: Angle::default() }
    }
}

/// A plate solver: takes the path of an image file and optional options,
/// and returns what the image shows or an adapter-specific error.
/// Implementations live outside the core and may shell out to external
/// programs.
pub trait PlateSolver {
    type E;

    fn solve(&self, img: &String, opts: &Option<PlateSolverOptions>) -> Result<
        PlateSolveResult,
        Self::E,
    >;
}

} // verus!
