use wasmtools::{flood, Dimensions, Image, Mask};

fn uniform(width: usize, height: usize) -> Image {
    Image::new(Some(vec![0u8; width * height * 4]), width, height)
}

/// Black pixels where `dark` is true, white elsewhere.
fn two_tone(dark: &[bool], width: usize, height: usize) -> Image {
    let mut raw: Vec<u8> = Vec::new();
    for d in dark {
        let level = if *d { 0 } else { 255 };
        raw.extend_from_slice(&[level, level, level, 255]);
    }
    Image::new(Some(raw), width, height)
}

fn rect_only_10() -> Vec<u8> {
    let mut expected = vec![0u8; 100];
    for y in 4..6 {
        for x in 4..6 {
            expected[y * 10 + x] = 255;
        }
    }
    expected
}

#[test]
fn uniform_image_floods_fully() {
    let image = uniform(10, 10);
    let (mask, truncated) = Mask::from_flood(&image, 4, 4, 2, 2, 10, 1000);
    assert_eq!(mask.contents(), vec![255u8; 100]);
    assert!(!truncated);
    assert_eq!(mask.dimensions().width, 10);
    assert_eq!(mask.dimensions().height, 10);
}

#[test]
fn negative_threshold_gives_the_rectangle_alone() {
    let image = uniform(10, 10);
    let (mask, truncated) = Mask::from_flood(&image, 4, 4, 2, 2, -1, 1000);
    assert_eq!(mask.contents(), rect_only_10());
    assert!(!truncated);
    let mut plain = Mask::new(None, 10, 10);
    plain.fill_inplace(4, 4, 2, 2, 255);
    assert_eq!(mask.contents(), plain.contents());
}

#[test]
fn image_without_colors_gives_the_rectangle_alone() {
    let image = Image::new(None, 10, 10);
    let (mask, truncated) = Mask::from_flood(&image, 4, 4, 2, 2, 10, 1000);
    assert_eq!(mask.contents(), rect_only_10());
    assert!(!truncated);
}

#[test]
fn limit_zero_gives_the_rectangle_alone_and_is_cut_short() {
    let image = uniform(10, 10);
    let (mask, truncated) = Mask::from_flood(&image, 4, 4, 2, 2, 10, 0);
    assert_eq!(mask.contents(), rect_only_10());
    assert!(truncated);
}

#[test]
fn limit_zero_without_seeds_is_not_cut_short() {
    let image = uniform(10, 10);
    let (mask, truncated) = Mask::from_flood(&image, 4, 4, 0, 0, 10, 0);
    assert_eq!(mask.contents(), vec![0u8; 100]);
    assert!(!truncated);
}

#[test]
fn growth_stops_at_a_colour_edge_and_records_the_visit() {
    let image = two_tone(&[true, true, false, false], 4, 1);
    let (mask, truncated) = Mask::from_flood(&image, 0, 0, 1, 1, 10, 1000);
    assert_eq!(mask.contents(), vec![255, 255, 8, 0]);
    assert!(!truncated);
}

#[test]
fn each_step_expands_one_node() {
    let image = two_tone(&[true, true, true, true], 4, 1);
    let (first, cut) = Mask::from_flood(&image, 0, 0, 1, 1, 10, 1);
    assert_eq!(first.contents(), vec![255, 255, 0, 0]);
    assert!(cut);
    let (third, cut) = Mask::from_flood(&image, 0, 0, 1, 1, 10, 3);
    assert_eq!(third.contents(), vec![255, 255, 255, 0]);
    assert!(cut);
    let (all, cut) = Mask::from_flood(&image, 0, 0, 1, 1, 10, 100);
    assert_eq!(all.contents(), vec![255, 255, 255, 255]);
    assert!(!cut);
}

#[test]
fn a_wide_threshold_crosses_the_edge() {
    let image = two_tone(&[true, true, false, false], 4, 1);
    let (mask, _) = Mask::from_flood(&image, 0, 0, 1, 1, 255, 1000);
    assert_eq!(mask.contents(), vec![255u8; 4]);
    let (narrow, _) = Mask::from_flood(&image, 0, 0, 1, 1, 254, 1000);
    assert_eq!(narrow.contents(), vec![255, 255, 8, 0]);
}

#[test]
fn growth_follows_connected_pixels_only() {
    // three dark pixels round the top left corner, and a dark pixel cut off
    // from them in the opposite corner
    let dark = [true, true, false, true, false, false, false, false, true];
    let image = two_tone(&dark, 3, 3);
    let (mask, truncated) = Mask::from_flood(&image, 0, 0, 1, 1, 10, 1000);
    let selected: Vec<bool> = mask.contents().iter().map(|b| *b == 255).collect();
    assert_eq!(selected, vec![true, true, false, true, false, false, false, false, false]);
    assert!(!truncated);
}

#[test]
fn a_seed_beside_the_rectangle_grows_its_own_colour() {
    let image = two_tone(&[true, false, false, false], 4, 1);
    let (mask, truncated) = Mask::from_flood(&image, 0, 0, 1, 1, 10, 1000);
    assert_eq!(mask.contents(), vec![255u8; 4]);
    assert!(!truncated);
}

#[test]
fn incremental_flood_keeps_what_was_selected() {
    let image = two_tone(&[true, true, false, false], 4, 1);
    let prior = Mask::new(Some(vec![0, 0, 4, 255]), 4, 1);
    let (mask, truncated) = prior.flood(&image, 0, 0, 1, 1, 10, 1000);
    assert_eq!(mask.contents(), vec![255, 255, 8, 255]);
    assert!(!truncated);
    assert_eq!(prior.contents(), vec![0, 0, 4, 255]);
    let (plain, _) = prior.flood(&image, 0, 0, 1, 1, -1, 1000);
    assert_eq!(plain.contents(), vec![255, 0, 0, 255]);
}

#[test]
fn mask_and_image_may_differ_in_size() {
    let image = two_tone(&[true, false], 2, 1);
    let (mask, truncated) = flood(&image, Dimensions { width: 4, height: 2 }, 0, 0, 1, 1, 10, 1000);
    let selected: Vec<bool> = mask.contents().iter().map(|b| *b == 255).collect();
    assert_eq!(selected, vec![true, true, false, false, true, true, false, false]);
    assert!(!truncated);
}

#[test]
fn seed_rectangle_past_the_mask_is_clamped() {
    let image = uniform(3, 3);
    let (mask, truncated) = Mask::from_flood(&image, 2, 2, 5, 5, -1, 10);
    assert_eq!(mask.contents(), vec![0, 0, 0, 0, 0, 0, 0, 0, 255]);
    assert!(!truncated);
    let (grown, _) = Mask::from_flood(&image, 2, 2, 5, 5, 0, 100);
    assert_eq!(grown.contents(), vec![255u8; 9]);
}

#[test]
fn empty_mask_floods_to_nothing() {
    let image = uniform(3, 3);
    let (mask, truncated) = flood(&image, Dimensions { width: 0, height: 0 }, 0, 0, 2, 2, 10, 100);
    assert_eq!(mask.contents(), Vec::<u8>::new());
    assert!(!truncated);
}

#[test]
fn uniform_image_floods_fully_within_the_step_bound() {
    let image = uniform(10, 10);
    let limit = 2 * (2 + 2) + 100;
    let (mask, truncated) = Mask::from_flood(&image, 4, 4, 2, 2, 10, limit);
    assert_eq!(mask.contents(), vec![255u8; 100]);
    assert!(!truncated);
    let (corner, truncated) = Mask::from_flood(&image, 9, 9, 1, 1, 0, 2 * (1 + 1) + 100);
    assert_eq!(corner.contents(), vec![255u8; 100]);
    assert!(!truncated);
}

#[test]
fn similar_colours_flood_fully_on_a_smaller_mask() {
    let mut raw: Vec<u8> = Vec::new();
    for i in 0..36u8 {
        raw.extend_from_slice(&[100 + i % 3, 100 + i % 3, 100 + i % 3, 0]);
    }
    let image = Image::new(Some(raw), 6, 6);
    let (mask, truncated) = flood(&image, Dimensions { width: 3, height: 4 }, 1, 1, 1, 2, 2, 18);
    assert_eq!(mask.contents(), vec![255u8; 12]);
    assert!(!truncated);
}

#[test]
fn an_empty_rectangle_on_a_single_pixel_selects_nothing() {
    let image = uniform(1, 1);
    let (mask, truncated) = Mask::from_flood(&image, 0, 0, 0, 1, 10, 100);
    assert_eq!(mask.contents(), vec![0u8]);
    assert!(!truncated);
}
