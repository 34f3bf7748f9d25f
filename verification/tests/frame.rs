use raytracer::frame::{pixel_position, rgba};

#[test]
fn first_chunk_is_top_left() {
    assert_eq!(pixel_position(0, 400, 225), (0, 224));
}

#[test]
fn last_chunk_is_bottom_right() {
    assert_eq!(pixel_position(400 * 225 - 1, 400, 225), (399, 0));
}

#[test]
fn second_row() {
    assert_eq!(pixel_position(401, 400, 225), (1, 223));
}

#[test]
fn every_pixel_once() {
    let (w, h) = (7u32, 5u32);
    let mut seen = vec![false; (w * h) as usize];
    for i in 0..(w * h) as usize {
        let (x, r) = pixel_position(i, w, h);
        assert!(x < w && r < h);
        let back = ((h - 1 - r) * w + x) as usize;
        assert_eq!(back, i);
        assert!(!seen[back]);
        seen[back] = true;
    }
    assert!(seen.iter().all(|s| *s));
}

#[test]
fn pixel_bytes() {
    assert_eq!(rgba(10, 20, 30), [10, 20, 30, 255]);
    assert_eq!(rgba(0, 0, 0), [0, 0, 0, 255]);
}
