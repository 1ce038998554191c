use wasmtools::geometry::directions;
use wasmtools::{point2index, Dimensions, Image, Mask, NodeState, Point, Scale, Vector, VectorError};

#[test]
fn index_is_row_major() {
    assert_eq!(point2index(3, 2, 5, 4, 1), Ok(13));
    assert_eq!(point2index(3, 2, 5, 4, 4), Ok(52));
    assert_eq!(point2index(0, 0, 1, 1, 1), Ok(0));
}

#[test]
fn index_outside_the_grid_is_an_error() {
    assert_eq!(point2index(5, 0, 5, 4, 1), Err(VectorError::IndexError));
    assert_eq!(point2index(0, 4, 5, 4, 1), Err(VectorError::IndexError));
    assert_eq!(point2index(usize::MAX, 0, 5, 4, 1), Err(VectorError::IndexError));
    assert_eq!(point2index(0, 0, 0, 0, 1), Err(VectorError::IndexError));
}

#[test]
fn error_kinds_differ() {
    assert_ne!(VectorError::IndexError, VectorError::IncompatibleDimensions);
}

#[test]
fn directions_are_north_west_south_east() {
    let all = directions();
    let offsets: Vec<(i32, i32, i32)> = all.iter().map(|v| (v.dx, v.dy, v.di)).collect();
    assert_eq!(offsets, vec![(0, -1, 0), (-1, 0, 1), (0, 1, 2), (1, 0, 3)]);
}

#[test]
fn add_moves_a_point() {
    let p = Point { x: 4, y: 7 };
    let moved = p.add(&Vector { dx: 3, dy: -2, di: 0 });
    assert_eq!((moved.x, moved.y), (7, 5));
}

#[test]
fn add_wraps_below_zero() {
    let p = Point { x: 0, y: 0 };
    let moved = p.add(&Vector { dx: -1, dy: -1, di: 0 });
    assert_eq!((moved.x, moved.y), (usize::MAX, usize::MAX));
    let back = moved.add(&Vector { dx: 1, dy: 2, di: 0 });
    assert_eq!((back.x, back.y), (0, 1));
    let low = Point { x: 5, y: 0 }.add(&Vector { dx: i32::MIN, dy: i32::MAX, di: 0 });
    assert_eq!(low.x, usize::MAX - (1usize << 31) + 6);
    assert_eq!(low.y, i32::MAX as usize);
}

#[test]
fn rescale_rounds_down() {
    let image = Dimensions { width: 3, height: 10 };
    let mask = Dimensions { width: 4, height: 5 };
    let scale = Scale::between(image, mask);
    let p = scale.rescale(&Point { x: 3, y: 4 }, image).unwrap();
    assert_eq!((p.x, p.y), (2, 8));
    let q = scale.rescale(&Point { x: 1, y: 0 }, image).unwrap();
    assert_eq!((q.x, q.y), (0, 0));
}

#[test]
fn rescale_rejects_what_leaves_the_grid() {
    let image = Dimensions { width: 3, height: 10 };
    let mask = Dimensions { width: 4, height: 5 };
    let scale = Scale::between(image, mask);
    assert!(scale.rescale(&Point { x: 4, y: 0 }, image).is_none());
    assert!(scale.rescale(&Point { x: 0, y: 5 }, image).is_none());
    assert!(scale.rescale(&Point { x: usize::MAX, y: usize::MAX }, image).is_none());
    let none = Scale::between(image, Dimensions { width: 0, height: 0 });
    assert!(none.rescale(&Point { x: 0, y: 0 }, image).is_none());
}

fn sample_image() -> Image {
    // 2 x 2: red, green / blue, gray
    let raw: Vec<u8> = vec![255, 0, 0, 9, 0, 255, 0, 9, 0, 0, 255, 9, 128, 128, 128, 9];
    Image::new(Some(raw), 2, 2)
}

#[test]
fn image_converts_each_pixel_and_ignores_alpha() {
    let image = sample_image();
    let same = Scale::between(image.dimensions(), image.dimensions());
    let at = |x: usize, y: usize| {
        let c = image.get(x, y, &same).ok().unwrap();
        (c.h, c.s, c.v)
    };
    assert_eq!(at(0, 0), (0, 255, 255));
    assert_eq!(at(1, 0), (85, 255, 255));
    assert_eq!(at(0, 1), (170, 255, 255));
    assert_eq!(at(1, 1), (0, 0, 128));
    assert!(image.has_colors());
    assert_eq!(image.dimensions().width, 2);
    assert_eq!(image.dimensions().height, 2);
}

#[test]
fn image_lookup_goes_through_the_scale() {
    let image = sample_image();
    let scale = Scale::between(image.dimensions(), Dimensions { width: 4, height: 4 });
    let at = |x: usize, y: usize| image.get(x, y, &scale).ok().map(|c| (c.h, c.s, c.v));
    assert_eq!(at(1, 1), Some((0, 255, 255)));
    assert_eq!(at(2, 1), Some((85, 255, 255)));
    assert_eq!(at(3, 3), Some((0, 0, 128)));
    assert_eq!(at(4, 0), None);
}

#[test]
fn image_lookup_outside_is_an_index_error() {
    let image = sample_image();
    let same = Scale::between(image.dimensions(), image.dimensions());
    assert!(matches!(image.get(2, 0, &same), Err(VectorError::IndexError)));
    assert!(matches!(image.get(0, 2, &same), Err(VectorError::IndexError)));
    assert!(matches!(image.get(usize::MAX, 0, &same), Err(VectorError::IndexError)));
}

#[test]
fn image_without_colors_fails_every_lookup() {
    let image = Image::new(None, 2, 2);
    let same = Scale::between(image.dimensions(), image.dimensions());
    assert!(!image.has_colors());
    assert!(matches!(image.get(0, 0, &same), Err(VectorError::IndexError)));
}

#[test]
fn empty_mask_is_all_zero() {
    let mask = Mask::new(None, 3, 2);
    assert_eq!(mask.contents(), vec![0u8; 6]);
    assert_eq!(mask.dimensions().width, 3);
    assert_eq!(mask.dimensions().height, 2);
}

#[test]
fn mask_keeps_given_bytes() {
    let mask = Mask::new(Some(vec![1, 2, 3, 4, 5, 6]), 3, 2);
    assert_eq!(mask.contents(), vec![1, 2, 3, 4, 5, 6]);
    assert_eq!(mask.get(0, 0), 1);
    assert_eq!(mask.get(2, 0), 3);
    assert_eq!(mask.get(1, 1), 5);
}

#[test]
fn fill_inplace_paints_a_rectangle() {
    let mut mask = Mask::new(None, 4, 3);
    mask.fill_inplace(1, 1, 2, 1, 7);
    assert_eq!(mask.contents(), vec![0, 0, 0, 0, 0, 7, 7, 0, 0, 0, 0, 0]);
}

#[test]
fn fill_inplace_clamps_to_the_mask() {
    let mut mask = Mask::new(None, 4, 3);
    mask.fill_inplace(2, 1, 10, 10, 9);
    assert_eq!(mask.contents(), vec![0, 0, 0, 0, 0, 0, 9, 9, 0, 0, 9, 9]);
    mask.fill_inplace(4, 0, 3, 3, 1);
    mask.fill_inplace(0, 3, 3, 3, 1);
    mask.fill_inplace(17, 23, 3, 3, 1);
    mask.fill_inplace(usize::MAX, usize::MAX, usize::MAX, usize::MAX, 1);
    mask.fill_inplace(0, 0, 0, 5, 1);
    assert_eq!(mask.contents(), vec![0, 0, 0, 0, 0, 0, 9, 9, 0, 0, 9, 9]);
    mask.fill_inplace(0, 0, usize::MAX, usize::MAX, 5);
    assert_eq!(mask.contents(), vec![5u8; 12]);
}

#[test]
fn fill_leaves_the_mask_untouched() {
    let mask = Mask::new(Some(vec![1, 1, 1, 1]), 2, 2);
    let filled = mask.fill(1, 0, 1, 2, 255);
    assert_eq!(mask.contents(), vec![1, 1, 1, 1]);
    assert_eq!(filled.contents(), vec![1, 255, 1, 255]);
    assert_eq!(filled.dimensions().width, 2);
}

#[test]
fn visit_reports_matched_and_changes_nothing() {
    let mut mask = Mask::new(Some(vec![255, 0]), 2, 1);
    for direction in [-5, 0, 1, 2, 3, 7, 40] {
        let state = mask.visit(&Point { x: 0, y: 0 }, direction);
        assert!(matches!(state, Ok(NodeState::Matched)));
        assert_eq!(mask.contents(), vec![255, 0]);
    }
}

#[test]
fn visit_sets_the_bit_of_its_direction_once() {
    let mut mask = Mask::new(None, 2, 1);
    let p = Point { x: 1, y: 0 };
    assert!(matches!(mask.visit(&p, 1), Ok(NodeState::Unknown)));
    assert_eq!(mask.contents(), vec![0, 2]);
    assert!(matches!(mask.visit(&p, 1), Ok(NodeState::Visited)));
    assert!(matches!(mask.visit(&p, 3), Ok(NodeState::Unknown)));
    assert_eq!(mask.contents(), vec![0, 10]);
    assert!(matches!(mask.visit(&p, 2), Ok(NodeState::Unknown)));
    assert_eq!(mask.contents(), vec![0, 14]);
    assert!(matches!(mask.visit(&p, 2), Ok(NodeState::Visited)));
    assert!(matches!(mask.visit(&p, 3), Ok(NodeState::Visited)));
    assert_eq!(mask.contents(), vec![0, 14]);
}

#[test]
fn visit_from_the_seed_direction_keeps_no_record() {
    let mut mask = Mask::new(None, 2, 1);
    let p = Point { x: 1, y: 0 };
    assert!(matches!(mask.visit(&p, 0), Ok(NodeState::Unknown)));
    assert!(matches!(mask.visit(&p, 0), Ok(NodeState::Unknown)));
    assert_eq!(mask.contents(), vec![0, 0]);
}

#[test]
fn visit_outside_is_an_index_error() {
    let mut mask = Mask::new(None, 2, 1);
    assert!(matches!(mask.visit(&Point { x: 2, y: 0 }, 1), Err(VectorError::IndexError)));
    assert!(matches!(mask.visit(&Point { x: 0, y: usize::MAX }, 1), Err(VectorError::IndexError)));
    assert_eq!(mask.contents(), vec![0, 0]);
}

#[test]
fn set_overwrites_one_byte() {
    let mut mask = Mask::new(Some(vec![0, 14, 0, 0]), 2, 2);
    assert!(mask.set(&Point { x: 1, y: 0 }, 255).is_ok());
    assert!(mask.set(&Point { x: 0, y: 1 }, 3).is_ok());
    assert_eq!(mask.contents(), vec![0, 255, 3, 0]);
}

#[test]
fn set_outside_is_an_index_error() {
    let mut mask = Mask::new(None, 2, 2);
    assert!(matches!(mask.set(&Point { x: 2, y: 0 }, 255), Err(VectorError::IndexError)));
    assert!(matches!(mask.set(&Point { x: 0, y: 2 }, 255), Err(VectorError::IndexError)));
    assert_eq!(mask.contents(), vec![0u8; 4]);
}
