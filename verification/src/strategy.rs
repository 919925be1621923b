//! What a caller asks of an intersection test, and what the test then has to produce.
use vstd::prelude::*;

verus! {

/// How much a collision test computes once the shapes are found to overlap.
#[derive(PartialEq, Eq, Structural, Clone, Copy, Debug)]
pub enum CollisionStrategy {
    /// Compute the full contact manifold (normal, penetration depth, contact point).
    FullResolution,
    /// Only report that the shapes collide.
    CollisionOnly,
}

/// What an intersection test of two primitives returns, once GJK has run.
#[derive(PartialEq, Eq, Structural, Clone, Copy, Debug)]
pub enum IntersectionOutcome {
    /// GJK found no enclosing simplex: no contact.
    NoContact,
    /// A contact that only records the strategy (collision only).
    BooleanContact,
    /// The contact manifold computed by EPA from the enclosing simplex.
    ManifoldContact,
}

pub open spec fn spec_intersection_outcome(
    strategy: CollisionStrategy,
    hit: bool,
) -> IntersectionOutcome {
    if !hit {
        IntersectionOutcome::NoContact
    } else {
        match strategy {
            CollisionStrategy::CollisionOnly => IntersectionOutcome::BooleanContact,
            CollisionStrategy::FullResolution => IntersectionOutcome::ManifoldContact,
        }
    }
}

/// Decide what an intersection test returns, given whether GJK found an enclosing
/// simplex: nothing on a miss; on a hit, a bare contact in collision-only mode and the
/// EPA manifold in full-resolution mode.
pub fn intersection_outcome(strategy: CollisionStrategy, hit: bool) -> (r: IntersectionOutcome)
    ensures
        r == spec_intersection_outcome(strategy, hit),
{
    if !hit {
        IntersectionOutcome::NoContact
    } else {
        match strategy {
            CollisionStrategy::CollisionOnly => IntersectionOutcome::BooleanContact,
            CollisionStrategy::FullResolution => IntersectionOutcome::ManifoldContact,
        }
    }
}

} // verus!
