use print_catalog::compute_image_placement;
use print_catalog::placement::{contain_dims, cover_dims};

#[test]
fn cover_alignment_crops_wide_source_from_requested_side() {
    let left = compute_image_placement(
        "cover",
        "center-left",
        400,
        200,
        10,
        20,
        100,
        100,
        50_000,
        50_000,
    );
    let right = compute_image_placement(
        "cover",
        "center-right",
        400,
        200,
        10,
        20,
        100,
        100,
        50_000,
        50_000,
    );

    assert_eq!(left, (0, 0, 200, 200, 10, 20, 100, 100));
    assert_eq!(right, (200, 0, 200, 200, 10, 20, 100, 100));
}

#[test]
fn contain_alignment_places_narrow_source_in_requested_position() {
    let bottom_right = compute_image_placement(
        "contain",
        "bottom-right",
        100,
        200,
        10,
        20,
        100,
        100,
        50_000,
        50_000,
    );

    assert_eq!(bottom_right, (0, 0, 100, 200, 60, 20, 50, 100));
}

#[test]
fn unknown_alignment_defaults_to_center() {
    let centered = compute_image_placement(
        "contain",
        "unexpected",
        400,
        200,
        10,
        20,
        100,
        100,
        50_000,
        50_000,
    );

    assert_eq!(centered, (0, 0, 400, 200, 10, 45, 100, 50));
}

#[test]
fn cover_tall_source_crops_height_by_vertical_alignment() {
    let top = compute_image_placement("cover", "top-center", 200, 400, 0, 0, 100, 100, 50_000, 50_000);
    let middle = compute_image_placement("cover", "center", 200, 400, 0, 0, 100, 100, 50_000, 50_000);
    let bottom = compute_image_placement("cover", "bottom-left", 200, 400, 0, 0, 100, 100, 50_000, 50_000);
    assert_eq!(top, (0, 0, 200, 200, 0, 0, 100, 100));
    assert_eq!(middle, (0, 100, 200, 200, 0, 0, 100, 100));
    assert_eq!(bottom, (0, 200, 200, 200, 0, 0, 100, 100));
}

#[test]
fn contain_wide_source_shrinks_height_and_aligns_vertically() {
    let top = compute_image_placement("contain", "top-left", 400, 200, 5, 7, 100, 100, 50_000, 50_000);
    let bottom = compute_image_placement("contain", "bottom-left", 400, 200, 5, 7, 100, 100, 50_000, 50_000);
    assert_eq!(top, (0, 0, 400, 200, 5, 7, 100, 50));
    assert_eq!(bottom, (0, 0, 400, 200, 5, 57, 100, 50));
}

#[test]
fn any_fit_other_than_contain_covers() {
    let a = compute_image_placement("fill", "center-left", 400, 200, 10, 20, 100, 100, 50_000, 50_000);
    let b = compute_image_placement("cover", "center-left", 400, 200, 10, 20, 100, 100, 50_000, 50_000);
    assert_eq!(a, b);
}

#[test]
fn placement_rounds_halves_away_from_zero() {
    // 100 * 3 / 200 = 1.5 rows of destination: rounds to 2
    let r = compute_image_placement("contain", "top-left", 200, 3, 0, 0, 100, 100, 1, 1);
    assert_eq!(r, (0, 0, 200, 3, 0, 0, 100, 2));
    // centre of 99 free rows: 49.5 rounds to 50
    let c = compute_image_placement("contain", "center", 200, 2, 0, 0, 100, 100, 1, 1);
    assert_eq!(c, (0, 0, 200, 2, 0, 50, 100, 1));
}

#[test]
fn placement_cell_ratio_uses_both_sides() {
    // A 2:1 cell: a 2:1 photo is not wider than it, so contain keeps the full height.
    let r = compute_image_placement("contain", "center", 400, 200, 0, 0, 200, 100, 60_000, 30_000);
    assert_eq!(r, (0, 0, 400, 200, 0, 0, 200, 100));
}

#[test]
fn empty_source_follows_ratio_limits() {
    // a source without height is infinitely wide: contain gives it no height
    let r = compute_image_placement("contain", "center", 10, 0, 0, 0, 100, 100, 1, 1);
    assert_eq!(r, (0, 0, 10, 0, 0, 50, 100, 0));
}

#[test]
fn contain_dims_fit_inside_cell() {
    assert_eq!(contain_dims(4, 2, 20, 20), (20, 10));
    assert_eq!(contain_dims(2, 4, 20, 20), (10, 20));
    assert_eq!(contain_dims(3, 2, 10, 10), (10, 7));
}

#[test]
fn cover_dims_cover_cell() {
    assert_eq!(cover_dims(4, 2, 20, 20), (40, 20));
    assert_eq!(cover_dims(2, 4, 20, 20), (20, 40));
    assert_eq!(cover_dims(3, 2, 10, 10), (15, 10));
}

#[test]
fn negative_and_zero_sizes_follow_float_rules() {
    // a negative cell ratio (-1) is exceeded by the photo's ratio 2: cover crops width
    let p = compute_image_placement("cover", "center", 400, 200, 10, 20, 100, 100, -50_000, 50_000);
    assert_eq!(p, (300, 0, -200, 200, 10, 20, 100, 100));
    // a zero-width photo over a negative height has ratio -0: contain draws it with width 0
    let q = compute_image_placement("contain", "center", 0, -5, 10, 20, 100, 100, 50_000, 50_000);
    assert_eq!(q, (0, 0, 0, -5, 60, 20, 0, 100));
}
