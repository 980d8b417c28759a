use raymarcher::params::{
    Nudge, RenderParams, DEFAULT_DETAIL, DEFAULT_ITERATIONS, MAX_DETAIL, MAX_ITERATIONS,
    MIN_DETAIL, MIN_ITERATIONS,
};

#[test]
fn fresh_parameters() {
    let params = RenderParams::default();
    assert_eq!(params.iterations(), 12);
    assert_eq!(params.detail(), 1);
    assert_eq!(DEFAULT_ITERATIONS, 12);
    assert_eq!(DEFAULT_DETAIL, 1);
}

#[test]
fn stepper_ranges() {
    assert_eq!((MIN_ITERATIONS, MAX_ITERATIONS), (1, 40));
    assert_eq!((MIN_DETAIL, MAX_DETAIL), (1, 100));
}

#[test]
fn new_keeps_values_in_the_domain() {
    let params = RenderParams::new(25, 60);
    assert_eq!(params.iterations(), 25);
    assert_eq!(params.detail(), 60);
    let large = RenderParams::new(u32::MAX, i32::MAX);
    assert_eq!(large.iterations(), u32::MAX);
    assert_eq!(large.detail(), i32::MAX);
}

#[test]
fn new_lifts_values_below_one() {
    let params = RenderParams::new(0, 0);
    assert_eq!(params.iterations(), 1);
    assert_eq!(params.detail(), 1);
    let negative = RenderParams::new(3, -7);
    assert_eq!(negative.iterations(), 3);
    assert_eq!(negative.detail(), 1);
    let lowest = RenderParams::new(1, i32::MIN);
    assert_eq!(lowest.detail(), 1);
}

#[test]
fn nudging_iterations_moves_by_one() {
    let mut params = RenderParams::default();
    params.nudge_iterations(Nudge::Up);
    assert_eq!(params.iterations(), 13);
    params.nudge_iterations(Nudge::Down);
    params.nudge_iterations(Nudge::Down);
    assert_eq!(params.iterations(), 11);
    assert_eq!(params.detail(), 1);
}

#[test]
fn nudging_iterations_stops_at_the_ends() {
    let mut params = RenderParams::new(1, 5);
    params.nudge_iterations(Nudge::Down);
    assert_eq!(params.iterations(), 1);
    let mut top = RenderParams::new(40, 5);
    top.nudge_iterations(Nudge::Up);
    assert_eq!(top.iterations(), 40);
    top.nudge_iterations(Nudge::Down);
    assert_eq!(top.iterations(), 39);
    assert_eq!(top.detail(), 5);
}

#[test]
fn nudging_iterations_from_beyond_the_range_returns_into_it() {
    let mut params = RenderParams::new(41, 1);
    params.nudge_iterations(Nudge::Down);
    assert_eq!(params.iterations(), 40);
    let mut far = RenderParams::new(1000, 1);
    far.nudge_iterations(Nudge::Down);
    assert_eq!(far.iterations(), 40);
    let mut most = RenderParams::new(u32::MAX, 1);
    most.nudge_iterations(Nudge::Up);
    assert_eq!(most.iterations(), 40);
}

#[test]
fn nudging_detail_moves_by_one() {
    let mut params = RenderParams::default();
    params.nudge_detail(Nudge::Up);
    params.nudge_detail(Nudge::Up);
    assert_eq!(params.detail(), 3);
    params.nudge_detail(Nudge::Down);
    assert_eq!(params.detail(), 2);
    assert_eq!(params.iterations(), 12);
}

#[test]
fn nudging_detail_stops_at_the_ends() {
    let mut params = RenderParams::default();
    params.nudge_detail(Nudge::Down);
    assert_eq!(params.detail(), 1);
    let mut top = RenderParams::new(12, 100);
    top.nudge_detail(Nudge::Up);
    assert_eq!(top.detail(), 100);
    let mut beyond = RenderParams::new(12, 101);
    beyond.nudge_detail(Nudge::Down);
    assert_eq!(beyond.detail(), 100);
    let mut most = RenderParams::new(12, i32::MAX);
    most.nudge_detail(Nudge::Up);
    assert_eq!(most.detail(), 100);
}

#[test]
fn every_walk_of_the_steppers_stays_in_range() {
    let mut params = RenderParams::default();
    for round in 0..300u32 {
        let nudge = if round % 7 < 4 { Nudge::Up } else { Nudge::Down };
        params.nudge_iterations(nudge);
        params.nudge_detail(nudge);
        assert!((1..=40).contains(&params.iterations()));
        assert!((1..=100).contains(&params.detail()));
    }
    // Four up, three down: the count made it to the top and is two clicks
    // below it; the detail level has gained one per round of seven.
    assert_eq!(params.iterations(), 38);
    assert_eq!(params.detail(), 45);
    for _ in 0..300u32 {
        params.nudge_iterations(Nudge::Down);
        params.nudge_detail(Nudge::Down);
    }
    assert_eq!((params.iterations(), params.detail()), (1, 1));
}

#[test]
fn parameters_are_a_plain_snapshot() {
    let mut params = RenderParams::new(8, 9);
    let snapshot = params;
    params.nudge_iterations(Nudge::Up);
    assert_eq!(snapshot, RenderParams::new(8, 9));
    assert_ne!(snapshot, params);
}
