//! Pixel kernel behavior: mirroring and box blur on concrete images.

use image_plugins::blur::run_box_blur;
use image_plugins::mirror::{mirror_horizontal, mirror_vertical};

/// An image whose pixel at `(x, y)` holds the bytes `(x, y, 0, 255)`.
fn create_test_image(width: u32, height: u32) -> Vec<u8> {
    let mut pixels = Vec::with_capacity((width * height * 4) as usize);
    for y in 0..height {
        for x in 0..width {
            pixels.push(x as u8);
            pixels.push(y as u8);
            pixels.push(0);
            pixels.push(255);
        }
    }
    pixels
}

#[test]
fn test_mirror_horizontal_2x2() {
    let width = 2;
    let height = 2;

    let mut pixels = create_test_image(width, height);

    let expected = vec![1, 0, 0, 255, 0, 0, 0, 255, 1, 1, 0, 255, 0, 1, 0, 255];
    mirror_horizontal(width, height, &mut pixels);
    assert_eq!(pixels, expected);
}

#[test]
fn test_mirror_horizontal_3x1() {
    let width = 3;
    let height = 1;

    let mut pixels = create_test_image(width, height);

    let expected = vec![2, 0, 0, 255, 1, 0, 0, 255, 0, 0, 0, 255];
    mirror_horizontal(width, height, &mut pixels);
    assert_eq!(pixels, expected);
}

#[test]
fn test_mirror_horizontal_single_pixel() {
    let width = 1;
    let height = 1;
    let mut pixels = create_test_image(width, height);
    let original_pixels = pixels.clone();
    mirror_horizontal(width, height, &mut pixels);
    assert_eq!(pixels, original_pixels);
}

#[test]
fn test_mirror_vertical_2x2() {
    let width = 2;
    let height = 2;

    let mut pixels = create_test_image(width, height);

    let expected = vec![0, 1, 0, 255, 1, 1, 0, 255, 0, 0, 0, 255, 1, 0, 0, 255];
    mirror_vertical(width, height, &mut pixels);
    assert_eq!(pixels, expected);
}

#[test]
fn test_mirror_vertical_1x3() {
    let width = 1;
    let height = 3;

    let mut pixels = create_test_image(width, height);

    let expected = vec![0, 2, 0, 255, 0, 1, 0, 255, 0, 0, 0, 255];
    mirror_vertical(width, height, &mut pixels);
    assert_eq!(pixels, expected);
}

#[test]
fn test_mirror_vertical_single_pixel() {
    let width = 1;
    let height = 1;
    let mut pixels = create_test_image(width, height);
    let original_pixels = pixels.clone();
    mirror_vertical(width, height, &mut pixels);
    assert_eq!(pixels, original_pixels);
}

#[test]
fn test_mirror_horizontal_width_one_is_noop() {
    let mut pixels = create_test_image(1, 5);
    let original_pixels = pixels.clone();
    mirror_horizontal(1, 5, &mut pixels);
    assert_eq!(pixels, original_pixels);
}

#[test]
fn test_mirror_vertical_height_one_is_noop() {
    let mut pixels = create_test_image(5, 1);
    let original_pixels = pixels.clone();
    mirror_vertical(5, 1, &mut pixels);
    assert_eq!(pixels, original_pixels);
}

#[test]
fn test_mirror_horizontal_twice_restores() {
    let mut pixels = create_test_image(3, 2);
    let original_pixels = pixels.clone();
    mirror_horizontal(3, 2, &mut pixels);
    assert_ne!(pixels, original_pixels);
    mirror_horizontal(3, 2, &mut pixels);
    assert_eq!(pixels, original_pixels);
}

#[test]
fn test_mirror_vertical_twice_restores() {
    let mut pixels = create_test_image(2, 3);
    let original_pixels = pixels.clone();
    mirror_vertical(2, 3, &mut pixels);
    assert_ne!(pixels, original_pixels);
    mirror_vertical(2, 3, &mut pixels);
    assert_eq!(pixels, original_pixels);
}

#[test]
fn test_box_blur_zero_radius_is_noop() {
    let mut pixels = create_test_image(4, 3);
    let original_pixels = pixels.clone();
    run_box_blur(4, 3, &mut pixels, 0, 5);
    assert_eq!(pixels, original_pixels);
}

#[test]
fn test_box_blur_zero_iterations_is_noop() {
    let mut pixels = create_test_image(4, 3);
    let original_pixels = pixels.clone();
    run_box_blur(4, 3, &mut pixels, 3, 0);
    assert_eq!(pixels, original_pixels);
}

#[test]
fn test_box_blur_uniform_10x10_unchanged() {
    // Every pixel holds the same color, so every neighborhood average equals
    // that color, at the corners and edges as much as in the interior.
    let mut pixels = Vec::new();
    for _ in 0..100 {
        pixels.extend_from_slice(&[100, 150, 200, 255]);
    }
    let original_pixels = pixels.clone();
    run_box_blur(10, 10, &mut pixels, 1, 1, );
    assert_eq!(pixels, original_pixels);
}

#[test]
fn test_box_blur_preserves_alpha() {
    let mut pixels = create_test_image(3, 3);
    // Give each pixel its own alpha.
    for p in 0..9 {
        pixels[p * 4 + 3] = (40 + p * 20) as u8;
    }
    let alphas: Vec<u8> = (0..9).map(|p| pixels[p * 4 + 3]).collect();
    run_box_blur(3, 3, &mut pixels, 1, 2);
    for p in 0..9 {
        assert_eq!(pixels[p * 4 + 3], alphas[p]);
    }
}

#[test]
fn test_box_blur_3x1_exact_averages() {
    // Pixels with red 10, 40, 100: truncating neighbor averages with radius 1
    // are 25, 50, 70.
    let mut pixels = vec![10, 0, 0, 255, 40, 0, 0, 255, 100, 0, 0, 255];
    run_box_blur(3, 1, &mut pixels, 1, 1);
    let expected = vec![25, 0, 0, 255, 50, 0, 0, 255, 70, 0, 0, 255];
    assert_eq!(pixels, expected);
}
