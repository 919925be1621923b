use collision::distance::{DistanceRun, DistanceStep};
use collision::intersect::{IntersectRun, IntersectStep};
use collision::time_of_impact::{ImpactRun, ImpactStep};
use collision::MAX_ITERATIONS;

#[test]
fn iteration_bound_is_one_hundred() {
    assert_eq!(MAX_ITERATIONS, 100);
}

#[test]
fn intersect_misses_when_first_support_is_behind() {
    let mut run = IntersectRun::new();
    assert_eq!(run.step(), IntersectStep::InitialSupport);
    run.report_support(false);
    assert_eq!(run.step(), IntersectStep::Miss);
}

#[test]
fn intersect_hits_when_simplex_encloses_origin() {
    let mut run = IntersectRun::new();
    run.report_support(true);
    assert_eq!(run.step(), IntersectStep::FlipThenSupport);
    run.report_support(true);
    assert_eq!(run.step(), IntersectStep::PushThenReduce);
    run.report_reduction(false);
    assert_eq!(run.step(), IntersectStep::Support);
    run.report_support(true);
    assert_eq!(run.step(), IntersectStep::PushThenReduce);
    run.report_reduction(true);
    assert_eq!(run.step(), IntersectStep::Hit);
}

#[test]
fn intersect_misses_when_a_later_support_is_behind() {
    let mut run = IntersectRun::new();
    run.report_support(true);
    run.report_support(true);
    run.report_reduction(false);
    run.report_support(false);
    assert_eq!(run.step(), IntersectStep::Miss);
}

#[test]
fn intersect_gives_up_after_max_rounds() {
    let mut run = IntersectRun::new();
    run.report_support(true);
    let mut reports = 1;
    let mut rounds = 0;
    while run.step() != IntersectStep::Miss {
        run.report_support(true);
        run.report_reduction(false);
        reports += 2;
        rounds += 1;
    }
    assert_eq!(rounds, 100);
    assert_eq!(reports, 2 * 100 + 1);
}

#[test]
fn distance_stops_at_origin() {
    let mut run = DistanceRun::new();
    assert_eq!(run.step(), DistanceStep::ClosestPoint);
    run.report_closest(true);
    assert_eq!(run.step(), DistanceStep::Overlapping);
}

#[test]
fn distance_found_on_convergence() {
    let mut run = DistanceRun::new();
    run.report_closest(false);
    assert_eq!(run.step(), DistanceStep::Support);
    run.report_support(false);
    assert_eq!(run.step(), DistanceStep::ClosestPoint);
    run.report_closest(false);
    run.report_support(true);
    assert_eq!(run.step(), DistanceStep::Separated);
}

#[test]
fn distance_gives_up_after_max_rounds() {
    let mut run = DistanceRun::new();
    let mut rounds = 0;
    while run.step() == DistanceStep::ClosestPoint {
        run.report_closest(false);
        run.report_support(false);
        rounds += 1;
    }
    assert_eq!(rounds, 100);
    assert_eq!(run.step(), DistanceStep::Exhausted);
}

#[test]
fn time_of_impact_progress_checks() {
    let mut run = ImpactRun::new();
    assert_eq!(run.step(), ImpactStep::CheckProgress);
    run.report_progress(false, true);
    assert_eq!(run.step(), ImpactStep::Impact);

    // a time past the end of the motion is a miss, even with `d` at the origin
    let mut run = ImpactRun::new();
    run.report_progress(true, true);
    assert_eq!(run.step(), ImpactStep::NoImpact);

    let mut run = ImpactRun::new();
    run.report_progress(true, false);
    assert_eq!(run.step(), ImpactStep::NoImpact);

    let mut run = ImpactRun::new();
    run.report_progress(false, false);
    assert_eq!(run.step(), ImpactStep::Support);
}

fn at_support() -> ImpactRun {
    let mut run = ImpactRun::new();
    run.report_progress(false, false);
    run
}

#[test]
fn time_of_impact_support_outcomes() {
    let mut run = at_support();
    run.report_support(true, true);
    assert_eq!(run.step(), ImpactStep::NoImpact);
    let mut run = at_support();
    run.report_support(true, false);
    assert_eq!(run.step(), ImpactStep::Reduce { advance: true });
    let mut run = at_support();
    run.report_support(false, true);
    assert_eq!(run.step(), ImpactStep::Reduce { advance: false });
    run.report_reduction(false, true);
    assert_eq!(run.step(), ImpactStep::Impact);
}

#[test]
fn time_of_impact_past_end_after_advance_is_a_miss() {
    let mut run = at_support();
    run.report_support(true, false);
    run.report_reduction(true, true);
    assert_eq!(run.step(), ImpactStep::NoImpact);
    let mut run = at_support();
    run.report_support(true, false);
    run.report_reduction(true, false);
    assert_eq!(run.step(), ImpactStep::NoImpact);
    let mut run = at_support();
    run.report_support(true, false);
    run.report_reduction(false, false);
    assert_eq!(run.step(), ImpactStep::CheckProgress);
}

#[test]
fn time_of_impact_gives_up_after_max_rounds() {
    let mut run = ImpactRun::new();
    let mut rounds = 0;
    while run.step() == ImpactStep::CheckProgress {
        run.report_progress(false, false);
        run.report_support(false, false);
        run.report_reduction(false, false);
        rounds += 1;
    }
    assert_eq!(rounds, 100);
    assert_eq!(run.step(), ImpactStep::NoImpact);
}
