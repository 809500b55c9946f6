//! The decisions that end or extend a light path: escape to the sky,
//! absorption, or another bounce; and the cap on the draws that sample a
//! point of the unit ball.

use vstd::prelude::*;

verus! {

/// Bounces a path may take before it is absorbed.
pub const MAX_DEPTH: u32 = 50;

/// Draws of a candidate point before sampling the unit ball gives up.
pub const MAX_BALL_DRAWS: u32 = 64;

/// What becomes of a ray after the scene has been queried.
#[derive(Clone, Copy, Debug, PartialEq, Eq, Structural)]
pub enum Step {
    /// Nothing was hit: the ray takes the sky's color.
    Background,
    /// The ray is absorbed, or the bounce budget is spent: it is black.
    Absorbed,
    /// The ray goes on along the scattered ray, tinted by the attenuation.
    Scatter,
}

/// The step a ray at bounce `depth` takes.
pub open spec fn step_of(depth: nat, hit: bool, continues: bool) -> Step {
    if !hit {
        Step::Background
    } else if depth < MAX_DEPTH && continues {
        Step::Scatter
    } else {
        Step::Absorbed
    }
}

/// Decides the fate of a ray at bounce `depth`: `hit` says whether the scene
/// was hit, `continues` what the hit material's scatter reported.
pub fn next_step(depth: u32, hit: bool, continues: bool) -> (r: Step)
    ensures
        r == step_of(depth as nat, hit, continues),
        r == Step::Scatter ==> depth < MAX_DEPTH,
{
    if !hit {
        Step::Background
    } else if depth < MAX_DEPTH && continues {
        Step::Scatter
    } else {
        Step::Absorbed
    }
}

/// What sampling the unit ball does after a draw.
#[derive(Clone, Copy, Debug, PartialEq, Eq, Structural)]
pub enum Draw {
    /// The candidate lies inside the ball: keep it.
    Accept,
    /// The candidate lies outside: draw again.
    Redraw,
    /// The cap on draws is reached with no candidate inside.
    GiveUp,
}

/// The decision after draw number `draws` (counting from one), whose
/// candidate lies inside the ball exactly when `inside`.
pub open spec fn draw_of(draws: nat, inside: bool) -> Draw {
    if inside {
        Draw::Accept
    } else if draws < MAX_BALL_DRAWS {
        Draw::Redraw
    } else {
        Draw::GiveUp
    }
}

/// Decides whether a rejection sampler keeps its candidate, draws again,
/// or stops because the cap is reached.
pub fn ball_draw_step(draws: u32, inside: bool) -> (r: Draw)
    ensures
        r == draw_of(draws as nat, inside),
        r == Draw::Redraw ==> draws < MAX_BALL_DRAWS,
{
    if inside {
        Draw::Accept
    } else if draws < MAX_BALL_DRAWS {
        Draw::Redraw
    } else {
        Draw::GiveUp
    }
}

} // verus!
