use vstd::prelude::*;

verus! {

/// What tracing one segment of a light path found.
#[derive(Clone, Copy, Debug, PartialEq, Eq, Structural)]
pub enum PathEvent {
    /// The ray left the scene.
    Missed,
    /// The ray hit a surface that absorbed it.
    Absorbed,
    /// The ray hit a surface that scattered it.
    Scattered,
}

/// What the integrator does next on a light path.
#[derive(Clone, Copy, Debug, PartialEq, Eq, Structural)]
pub enum PathStep {
    /// The path carries no light: black.
    Black,
    /// Intersect the ray with the scene and scatter it where it hits.
    Trace,
    /// The path carries the background seen along the ray.
    Background,
    /// Follow the scattered ray with this depth budget, and attenuate what
    /// it carries.
    Bounce(u32),
}

pub open spec fn spec_radiance_step(depth: u32, event: Option<PathEvent>) -> PathStep {
    if depth == 0 {
        PathStep::Black
    } else {
        match event {
            None => PathStep::Trace,
            Some(PathEvent::Missed) => PathStep::Background,
            Some(PathEvent::Absorbed) => PathStep::Black,
            Some(PathEvent::Scattered) => PathStep::Bounce((depth - 1) as u32),
        }
    }
}

/// The next step of the radiance estimate on a path with `depth` bounces
/// left, given what tracing its ray found (`None` before it is traced). A
/// spent budget gives black whatever the scene holds; otherwise the ray is
/// traced, and a miss gives the background, absorption gives black, and a
/// scatter is followed with one bounce less.
pub fn radiance_step(depth: u32, event: Option<PathEvent>) -> (r: PathStep)
    ensures
        r == spec_radiance_step(depth, event),
        depth == 0 ==> r == PathStep::Black,
{
    if depth == 0 {
        return PathStep::Black;
    }
    match event {
        None => PathStep::Trace,
        Some(PathEvent::Missed) => PathStep::Background,
        Some(PathEvent::Absorbed) => PathStep::Black,
        Some(PathEvent::Scattered) => PathStep::Bounce(depth - 1),
    }
}

/// A path with no budget left is black, whatever tracing it found.
pub proof fn lemma_spent_budget_is_black(event: Option<PathEvent>)
    ensures
        spec_radiance_step(0, event) == PathStep::Black,
{
}

/// Every bounce spends one unit of the budget, so a path of budget `depth`
/// bounces at most `depth` times.
pub proof fn lemma_bounce_spends_budget(depth: u32, event: Option<PathEvent>)
    ensures
        spec_radiance_step(depth, event) matches PathStep::Bounce(d) ==> d + 1 == depth,
{
}

} // verus!
