use wasmtools::{rgb2hsv, HSV};

fn triple(c: HSV) -> (i32, i32, i32) {
    (c.h, c.s, c.v)
}

#[test]
fn primary_colors_convert_exactly() {
    assert_eq!(triple(rgb2hsv(255, 0, 0)), (0, 255, 255));
    assert_eq!(triple(rgb2hsv(0, 255, 0)), (85, 255, 255));
    assert_eq!(triple(rgb2hsv(0, 0, 255)), (170, 255, 255));
}

#[test]
fn mixed_colors_round_down() {
    assert_eq!(triple(rgb2hsv(255, 0, 255)), (212, 255, 255));
    assert_eq!(triple(rgb2hsv(100, 50, 25)), (14, 191, 100));
}

#[test]
fn gray_has_no_hue_and_no_saturation() {
    for level in 0..=255 {
        assert_eq!(triple(rgb2hsv(level, level, level)), (0, 0, level));
    }
}

#[test]
fn black_is_all_zero() {
    assert_eq!(triple(rgb2hsv(0, 0, 0)), (0, 0, 0));
}

#[test]
fn conversion_stays_in_range() {
    for r in (0..=255).step_by(15) {
        for g in (0..=255).step_by(15) {
            for b in (0..=255).step_by(15) {
                let c = rgb2hsv(r, g, b);
                assert!((0..=255).contains(&c.h));
                assert!((0..=255).contains(&c.s));
                assert!((0..=255).contains(&c.v));
                assert_eq!(c.v, r.max(g).max(b));
            }
        }
    }
}

#[test]
fn distance_to_itself_is_zero() {
    let a = HSV { h: 17, s: 200, v: 93 };
    assert_eq!(a.distance(&a), 0);
    assert!(a.equals(&a, 0));
    assert!(a.within(&a, 0));
}

#[test]
fn distance_is_symmetric() {
    let a = HSV { h: 10, s: 20, v: 30 };
    let b = HSV { h: 20, s: 25, v: 40 };
    assert_eq!(a.distance(&b), 525);
    assert_eq!(b.distance(&a), 525);
}

#[test]
fn hue_wraps_round() {
    let zero = HSV { h: 0, s: 0, v: 0 };
    let top = HSV { h: 255, s: 0, v: 0 };
    let one = HSV { h: 1, s: 0, v: 0 };
    let far = HSV { h: 128, s: 0, v: 0 };
    assert_eq!(zero.distance(&top), 0);
    assert_eq!(zero.distance(&one), 4);
    assert_eq!(top.distance(&one), 4);
    assert_eq!(zero.distance(&far), 254 * 254);
}

#[test]
fn largest_distance_fits() {
    let a = HSV { h: 0, s: 0, v: 0 };
    let b = HSV { h: 127, s: 255, v: 255 };
    assert_eq!(a.distance(&b), 254 * 254 + 2 * 255 * 255);
}

#[test]
fn equals_compares_with_the_squared_threshold() {
    let a = HSV { h: 10, s: 20, v: 30 };
    let b = HSV { h: 20, s: 25, v: 40 };
    assert!(a.equals(&b, 525));
    assert!(!a.equals(&b, 524));
}

#[test]
fn within_squares_the_threshold() {
    let a = HSV { h: 10, s: 20, v: 30 };
    let b = HSV { h: 20, s: 25, v: 40 };
    assert!(a.within(&b, 23));
    assert!(!a.within(&b, 22));
    assert!(a.within(&b, -23));
    assert!(a.within(&b, i32::MAX));
    assert!(a.within(&b, i32::MIN));
}
