use stereo_disparity::model::{DisparityError, DisparityGrid};
use stereo_disparity::visual::{hsv_to_rgb, hue_for_disparity, visualize};

#[test]
fn hsv_primary_sectors() {
    assert_eq!(hsv_to_rgb(0, 255, 255), vec![255, 0, 0]);
    assert_eq!(hsv_to_rgb(50, 255, 255), vec![210, 255, 0]);
    assert_eq!(hsv_to_rgb(100, 255, 255), vec![0, 255, 90]);
    assert_eq!(hsv_to_rgb(128, 255, 255), vec![0, 252, 255]);
    assert_eq!(hsv_to_rgb(170, 255, 255), vec![0, 0, 255]);
    assert_eq!(hsv_to_rgb(200, 255, 255), vec![180, 0, 255]);
    assert_eq!(hsv_to_rgb(212, 255, 255), vec![252, 0, 255]);
}

#[test]
fn hsv_top_hue_wraps_to_first_sector() {
    assert_eq!(hsv_to_rgb(255, 255, 255), vec![255, 0, 0]);
}

#[test]
fn hsv_partial_saturation_and_value() {
    assert_eq!(hsv_to_rgb(123, 0, 77), vec![77, 77, 77]);
    assert_eq!(hsv_to_rgb(0, 128, 200), vec![200, 99, 99]);
    assert_eq!(hsv_to_rgb(30, 100, 150), vec![150, 132, 91]);
    assert_eq!(hsv_to_rgb(90, 255, 0), vec![0, 0, 0]);
}

#[test]
fn hue_of_extreme_disparities() {
    assert_eq!(hue_for_disparity(0, 8), 200);
    assert_eq!(hue_for_disparity(7, 8), 25);
    assert_eq!(hue_for_disparity(0, 1), 200);
    assert_eq!(hue_for_disparity(0, usize::MAX), 200);
    assert_eq!(hue_for_disparity(usize::MAX - 1, usize::MAX), 0);
    assert_eq!(hue_for_disparity(1, 3), 133);
    assert_eq!(hue_for_disparity(3, 4), 50);
    assert_eq!(hue_for_disparity(8, 8), 0);
    assert_eq!(hue_for_disparity(100, 8), 0);
}

#[test]
fn extremes_render_through_the_formula() {
    // offset 0 -> hue 200 -> sector 4, f = 60/85
    assert_eq!(hsv_to_rgb(hue_for_disparity(0, 11), 255, 255), vec![180, 0, 255]);
    // last offset of 11 -> hue 18 -> sector 0, f = 36/85
    assert_eq!(hue_for_disparity(10, 11), 18);
    assert_eq!(hsv_to_rgb(18, 255, 255), vec![255, 108, 0]);
}

#[test]
fn visualize_renders_each_cell() {
    let grid = DisparityGrid { width: 3, height: 1, cells: vec![0, 4, 7] };
    let img = visualize(&grid, 8).unwrap();
    assert_eq!((img.width, img.height), (3, 1));
    let mut expected = hsv_to_rgb(200, 255, 255);
    expected.extend(hsv_to_rgb(100, 255, 255));
    expected.extend(hsv_to_rgb(25, 255, 255));
    assert_eq!(img.pixels, expected);
    assert_eq!(img.pixels, vec![180, 0, 255, 0, 255, 90, 255, 150, 0]);
}

#[test]
fn visualize_refuses_zero_range() {
    let grid = DisparityGrid { width: 1, height: 1, cells: vec![0] };
    assert_eq!(visualize(&grid, 0), Err(DisparityError::InvalidInput));
}

#[test]
fn visualize_empty_grid() {
    let grid = DisparityGrid { width: 0, height: 2, cells: vec![] };
    let img = visualize(&grid, 5).unwrap();
    assert_eq!((img.width, img.height, img.pixels.len()), (0, 2, 0));
}
