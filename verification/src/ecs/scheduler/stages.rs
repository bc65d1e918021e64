//! Pre-defined standard stages for common physics operations

use crate::ecs::scheduler::StageId;
use vstd::prelude::*;

verus! {

/// Stage for force computation and accumulation
#[allow(non_snake_case)]
pub fn FORCE_ACCUMULATION() -> (s: StageId)
    ensures
        s.0 == 0,
{
    StageId(0)
}

/// Stage for computing accelerations from forces
#[allow(non_snake_case)]
pub fn ACCELERATION() -> (s: StageId)
    ensures
        s.0 == 1,
{
    StageId(1)
}

/// Stage for integration (updating velocities and positions)
#[allow(non_snake_case)]
pub fn INTEGRATION() -> (s: StageId)
    ensures
        s.0 == 2,
{
    StageId(2)
}

/// Stage for constraint resolution
#[allow(non_snake_case)]
pub fn CONSTRAINTS() -> (s: StageId)
    ensures
        s.0 == 3,
{
    StageId(3)
}

/// Stage for post-processing and cleanup
#[allow(non_snake_case)]
pub fn POST_PROCESS() -> (s: StageId)
    ensures
        s.0 == 4,
{
    StageId(4)
}

} // verus!
