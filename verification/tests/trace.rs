use raytracer::trace::{advance, start, Bounce, PathState};

fn outcome(depth: usize, events: &[Bounce]) -> (PathState, usize) {
    let mut state = start(depth);
    let mut used = 0;
    while let PathState::Tracing(r) = state {
        state = advance(r, events[used]);
        used += 1;
    }
    (state, used)
}

#[test]
fn depth_zero_has_no_colour() {
    assert_eq!(start(0), PathState::Dark);
}

#[test]
fn start_keeps_the_budget() {
    assert_eq!(start(16), PathState::Tracing(16));
}

#[test]
fn each_event() {
    assert_eq!(advance(3, Bounce::Miss), PathState::Sky);
    assert_eq!(advance(3, Bounce::Absorbed), PathState::Dark);
    assert_eq!(advance(3, Bounce::Scattered), PathState::Tracing(2));
    assert_eq!(advance(1, Bounce::Scattered), PathState::Dark);
}

#[test]
fn a_miss_within_depth_reaches_the_sky() {
    let ev = [Bounce::Scattered, Bounce::Scattered, Bounce::Miss];
    assert_eq!(outcome(3, &ev), (PathState::Sky, 3));
}

#[test]
fn too_many_bounces_go_dark() {
    let ev = [Bounce::Scattered, Bounce::Scattered, Bounce::Miss];
    assert_eq!(outcome(2, &ev), (PathState::Dark, 2));
}

#[test]
fn absorbed_goes_dark() {
    let ev = [Bounce::Scattered, Bounce::Absorbed, Bounce::Miss];
    assert_eq!(outcome(16, &ev), (PathState::Dark, 2));
}
