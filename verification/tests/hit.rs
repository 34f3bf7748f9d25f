use raytracer::hit::{closest_hit, select_root, Hit, Root, RootPair};
use raytracer::param::RayParam;

fn key(x: f32) -> RayParam {
    RayParam::from_bits(x.to_bits())
}

fn pair(near: f32, far: f32) -> Option<RootPair> {
    Some(RootPair { near: key(near), far: key(far) })
}

fn t_min() -> RayParam {
    key(0.001)
}

fn t_max() -> RayParam {
    key(f32::INFINITY)
}

#[test]
fn near_root_preferred() {
    let p = RootPair { near: key(1.0), far: key(3.0) };
    assert_eq!(select_root(&p, t_min(), t_max()), Some(Root::Near));
}

#[test]
fn far_root_when_near_is_behind() {
    let p = RootPair { near: key(-1.0), far: key(3.0) };
    assert_eq!(select_root(&p, t_min(), t_max()), Some(Root::Far));
}

#[test]
fn no_root_when_both_outside() {
    let p = RootPair { near: key(-3.0), far: key(-1.0) };
    assert_eq!(select_root(&p, t_min(), t_max()), None);
    let q = RootPair { near: key(5.0), far: key(6.0) };
    assert_eq!(select_root(&q, t_min(), key(4.0)), None);
}

#[test]
fn nearest_object_wins() {
    let cands = vec![pair(2.0, 4.0), None, pair(1.0, 3.0), pair(1.5, 1.7)];
    assert_eq!(
        closest_hit(&cands, t_min(), t_max()),
        Some(Hit { object: 2, root: Root::Near, t: key(1.0) })
    );
}

#[test]
fn equal_distance_goes_to_the_last_object() {
    let cands = vec![pair(2.0, 4.0), pair(2.0, 5.0)];
    assert_eq!(
        closest_hit(&cands, t_min(), t_max()),
        Some(Hit { object: 1, root: Root::Near, t: key(2.0) })
    );
}

#[test]
fn inside_a_sphere_the_far_root_counts() {
    let cands = vec![pair(-1.0, 0.5), pair(0.7, 2.0)];
    assert_eq!(
        closest_hit(&cands, t_min(), t_max()),
        Some(Hit { object: 0, root: Root::Far, t: key(0.5) })
    );
}

#[test]
fn nothing_in_front() {
    let cands = vec![pair(-2.0, -1.0), None];
    assert_eq!(closest_hit(&cands, t_min(), t_max()), None);
    let empty: Vec<Option<RootPair>> = Vec::new();
    assert_eq!(closest_hit(&empty, t_min(), t_max()), None);
}

#[test]
fn t_max_limits_the_scan() {
    let cands = vec![pair(5.0, 6.0), pair(1.0, 2.0)];
    assert_eq!(
        closest_hit(&cands, t_min(), key(1.5)),
        Some(Hit { object: 1, root: Root::Near, t: key(1.0) })
    );
    assert_eq!(closest_hit(&cands, t_min(), key(0.5)), None);
}

#[test]
fn a_nan_root_is_taken_as_a_float_comparison_would() {
    // `NaN < t_min` and `t_max < NaN` are both false, so the root passes
    let cands = vec![Some(RootPair { near: RayParam::Unordered, far: key(2.0) })];
    assert_eq!(
        closest_hit(&cands, t_min(), t_max()),
        Some(Hit { object: 0, root: Root::Near, t: RayParam::Unordered })
    );
}

#[test]
fn narrowing_keeps_or_loses_the_hit() {
    let p = RootPair { near: key(-1.0), far: key(3.0) };
    assert_eq!(select_root(&p, t_min(), t_max()), Some(Root::Far));
    assert_eq!(select_root(&p, t_min(), key(3.0)), Some(Root::Far));
    assert_eq!(select_root(&p, t_min(), key(10.0)), Some(Root::Far));
    assert_eq!(select_root(&p, t_min(), key(2.9)), None);
    let q = RootPair { near: key(1.0), far: key(3.0) };
    assert_eq!(select_root(&q, t_min(), key(1.0)), Some(Root::Near));
    assert_eq!(select_root(&q, t_min(), key(0.5)), None);
}
