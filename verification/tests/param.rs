use raytracer::param::RayParam;

fn key(x: f32) -> RayParam {
    RayParam::from_bits(x.to_bits())
}

#[test]
fn keys_follow_float_order() {
    let xs: [f32; 9] = [f32::NEG_INFINITY, -3.5, -1.0, -1e-30, 0.0, 1e-30, 0.001, 2.0, f32::INFINITY];
    for i in 0..xs.len() {
        for j in 0..xs.len() {
            assert_eq!(key(xs[i]).less_than(&key(xs[j])), xs[i] < xs[j], "{} {}", xs[i], xs[j]);
        }
    }
}

#[test]
fn both_zeros_share_a_key() {
    assert_eq!(key(0.0), key(-0.0));
    assert_eq!(key(0.0), RayParam::Ordered(0x8000_0000));
    assert!(!key(-0.0).less_than(&key(0.0)));
}

#[test]
fn exact_keys() {
    // 1.0 is 0x3f80_0000; -1.0 is 0xbf80_0000
    assert_eq!(key(1.0), RayParam::Ordered(0xbf80_0000));
    assert_eq!(key(-1.0), RayParam::Ordered(0x407f_ffff));
}

#[test]
fn nan_is_unordered() {
    let n = key(f32::NAN);
    assert_eq!(n, RayParam::Unordered);
    assert_eq!(RayParam::from_bits(0xffc0_0001), RayParam::Unordered);
    assert!(!n.less_than(&key(1.0)));
    assert!(!key(1.0).less_than(&n));
    assert!(n.is_within(&key(0.001), &key(f32::INFINITY)));
}

#[test]
fn infinity_is_not_a_nan() {
    assert_eq!(RayParam::from_bits(0x7f80_0000), RayParam::Ordered(0xff80_0000));
}

#[test]
fn within_is_closed() {
    let lo = key(1.0);
    let hi = key(2.0);
    assert!(key(1.0).is_within(&lo, &hi));
    assert!(key(2.0).is_within(&lo, &hi));
    assert!(key(1.5).is_within(&lo, &hi));
    assert!(!key(0.5).is_within(&lo, &hi));
    assert!(!key(2.5).is_within(&lo, &hi));
}
