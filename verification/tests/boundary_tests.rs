//! The boundary guards of both plugins: null pointers, parameter decoding,
//! and the overflow-checked buffer size, in the order the kernels apply them.

use image_plugins::blur::{plan, run_box_blur, BlurAction};
use image_plugins::mirror::process_image;
use image_plugins::params::{BlurParams, MirrorParams};
use image_plugins::status::PluginError;

fn create_test_image(width: u32, height: u32) -> Vec<u8> {
    let mut pixels = Vec::with_capacity((width * height * 4) as usize);
    for y in 0..height {
        for x in 0..width {
            pixels.push(x as u8);
            pixels.push(y as u8);
            pixels.push(0);
            pixels.push(255);
        }
    }
    pixels
}

#[test]
fn test_process_image_null_rgba_data() {
    let params = br#"{ "horizontal": true, "vertical": false }"#.to_vec();
    let mut rgba_data = create_test_image(1, 1);
    let result = process_image(1, 1, true, false, &mut rgba_data, &params);
    assert_eq!(result, PluginError::NullPointer.code());
}

#[test]
fn test_process_image_null_params() {
    let width = 1;
    let height = 1;
    let mut rgba_data = create_test_image(width, height);
    let params = Vec::new();
    let result = process_image(width, height, false, true, &mut rgba_data, &params);
    assert_eq!(result, PluginError::NullPointer.code());
}

#[test]
fn test_process_image_invalid_json_params() {
    let width = 1;
    let height = 1;
    let mut rgba_data = create_test_image(width, height);
    // Trailing comma makes the document invalid
    let params = br#"{ "horizontal": true, "vertical": false, }"#.to_vec();
    let result = process_image(width, height, false, false, &mut rgba_data, &params);
    assert_eq!(result, PluginError::InvalidParams.code());
}

#[test]
fn test_process_image_missing_fields_in_params() {
    let width = 10;
    let height = 10;
    let mut rgba_data = create_test_image(width, height);
    // Missing vertical
    let params = br#"{ "horizontal": true }"#.to_vec();
    let result = process_image(width, height, false, false, &mut rgba_data, &params);
    assert_eq!(result, PluginError::InvalidParams.code());
}

#[test]
fn test_size_too_big() {
    let mut rgba_data = vec![0u8; 4];
    let params = br#"{ "horizontal": true, "vertical": true }"#.to_vec();
    let result = process_image(u32::MAX, u32::MAX, false, false, &mut rgba_data, &params);
    assert_eq!(result, PluginError::SizeIsTooBig.code());
}

#[test]
fn test_process_image_does_something_if_no_errors() {
    let width = 2;
    let height = 2;
    let mut rgba_data = create_test_image(width, height);
    let original_data = rgba_data.clone();
    let params = br#"{ "horizontal": true, "vertical": true }"#.to_vec();
    let result = process_image(width, height, false, false, &mut rgba_data, &params);

    assert_eq!(result, PluginError::Success.code());
    assert_ne!(rgba_data, original_data)
}

#[test]
fn test_mirror_scenario_2x2_horizontal_only() {
    // Distinct per-pixel channel values: columns must swap within each row,
    // rows must stay, alpha must stay with its pixel.
    let width = 2;
    let height = 2;
    let mut rgba_data = create_test_image(width, height);
    let params = br#"{ "horizontal": true, "vertical": false }"#.to_vec();
    let result = process_image(width, height, false, false, &mut rgba_data, &params);

    assert_eq!(result, PluginError::Success.code());
    let expected = vec![1, 0, 0, 255, 0, 0, 0, 255, 1, 1, 0, 255, 0, 1, 0, 255];
    assert_eq!(rgba_data, expected);
}

#[test]
fn test_mirror_both_axes_2x2_exact() {
    // Horizontal first, then vertical: the 2x2 image ends up rotated by a
    // half turn.
    let mut rgba_data = create_test_image(2, 2);
    let params = br#"{ "horizontal": true, "vertical": true }"#.to_vec();
    let result = process_image(2, 2, false, false, &mut rgba_data, &params);

    assert_eq!(result, PluginError::Success.code());
    let expected = vec![1, 1, 0, 255, 0, 1, 0, 255, 1, 0, 0, 255, 0, 0, 0, 255];
    assert_eq!(rgba_data, expected);
}

#[test]
fn test_mirror_pipeline_width_one_is_noop() {
    let mut rgba_data = create_test_image(1, 4);
    let original_data = rgba_data.clone();
    let params = br#"{ "horizontal": true, "vertical": false }"#.to_vec();
    let result = process_image(1, 4, false, false, &mut rgba_data, &params);

    assert_eq!(result, PluginError::Success.code());
    assert_eq!(rgba_data, original_data);
}

#[test]
fn lib_test_process_image_null_rgba_data() {
    let params = br#"{ "radius": 1, "iterations": 1, "weighted": false }"#.to_vec();
    let action = plan(1, 1, true, false, &params);
    assert_eq!(action, BlurAction::Reject(PluginError::NullPointer));
}

#[test]
fn lib_test_process_image_null_params() {
    let params = Vec::new();
    let action = plan(1, 1, false, true, &params);
    assert_eq!(action, BlurAction::Reject(PluginError::NullPointer));
}

#[test]
fn lib_test_process_image_invalid_json_params() {
    // Trailing comma makes the document invalid
    let params = br#"{ "radius": 1, "iterations": 1, "weighted": false, }"#.to_vec();
    let action = plan(1, 1, false, false, &params);
    assert_eq!(action, BlurAction::Reject(PluginError::InvalidParams));
}

#[test]
fn lib_test_process_image_missing_fields_in_params() {
    // Missing iterations and weighted
    let params = br#"{ "radius": 1 }"#.to_vec();
    let action = plan(1, 1, false, false, &params);
    assert_eq!(action, BlurAction::Reject(PluginError::InvalidParams));
}

#[test]
fn lib_test_size_too_big() {
    let params = br#"{ "radius": 1, "iterations": 1, "weighted": false }"#.to_vec();
    let action = plan(u32::MAX, u32::MAX, false, false, &params);
    assert_eq!(action, BlurAction::Reject(PluginError::SizeIsTooBig));
}

#[test]
fn lib_test_process_image_does_something_if_no_errors() {
    let width = 10;
    let height = 10;
    let mut rgba_data = vec![0u8; (width * height * 4) as usize];
    for i in 0..rgba_data.len() {
        rgba_data[i] = (i & 0xff) as u8;
    }
    let original_data = rgba_data.clone();
    let params = br#"{ "radius": 1, "iterations": 1, "weighted": false }"#.to_vec();
    let action = plan(width, height, false, false, &params);

    let config = BlurParams { radius: 1, iterations: 1, weighted: false };
    assert_eq!(action, BlurAction::RunBox(config));
    run_box_blur(width, height, &mut rgba_data, config.radius, config.iterations);
    assert_ne!(rgba_data, original_data);
}

#[test]
fn test_blur_zero_radius_plan_is_identity() {
    let params = br#"{ "radius": 0, "iterations": 5, "weighted": true }"#.to_vec();
    let action = plan(8, 8, false, false, &params);
    assert_eq!(action, BlurAction::Identity);
}

#[test]
fn test_blur_zero_iterations_plan_is_identity() {
    let params = br#"{ "radius": 5, "iterations": 0, "weighted": false }"#.to_vec();
    let action = plan(8, 8, false, false, &params);
    assert_eq!(action, BlurAction::Identity);
}

#[test]
fn test_blur_size_check_wins_over_zero_radius() {
    // The overflow check runs before any algorithm, the defined no-op
    // included: oversized dimensions are rejected even when the
    // configuration asks for no work.
    let params = br#"{ "radius": 0, "iterations": 1, "weighted": false }"#.to_vec();
    let action = plan(u32::MAX, u32::MAX, false, false, &params);
    assert_eq!(action, BlurAction::Reject(PluginError::SizeIsTooBig));
}

#[test]
fn test_blur_weighted_plan_selects_weighted_kernel() {
    let params = br#"{ "radius": 2, "iterations": 3, "weighted": true }"#.to_vec();
    let action = plan(8, 8, false, false, &params);
    let config = BlurParams { radius: 2, iterations: 3, weighted: true };
    assert_eq!(action, BlurAction::RunWeighted(config));
}

#[test]
fn test_null_pointer_wins_over_invalid_params() {
    // A null pointer reports null-pointer regardless of the parameter text.
    let params = br#"not a config at all"#.to_vec();
    let action = plan(1, 1, true, false, &params);
    assert_eq!(action, BlurAction::Reject(PluginError::NullPointer));

    let mut rgba_data = create_test_image(1, 1);
    let result = process_image(1, 1, true, true, &mut rgba_data, &params);
    assert_eq!(result, PluginError::NullPointer.code());
}

#[test]
fn test_blur_params_parse_accepts_any_field_order() {
    let params = br#"{"weighted":true,"radius":7,"iterations":2}"#.to_vec();
    let config = BlurParams::parse(&params);
    assert_eq!(config, Some(BlurParams { radius: 7, iterations: 2, weighted: true }));
}

#[test]
fn test_blur_params_parse_rejects_duplicate_field() {
    let params = br#"{ "radius": 1, "radius": 2, "iterations": 1, "weighted": false }"#.to_vec();
    assert_eq!(BlurParams::parse(&params), None);
}

#[test]
fn test_blur_params_parse_rejects_unknown_field() {
    let params = br#"{ "radius": 1, "iterations": 1, "weighted": false, "extra": 3 }"#.to_vec();
    assert_eq!(BlurParams::parse(&params), None);
}

#[test]
fn test_blur_params_parse_rejects_wrong_type() {
    let params = br#"{ "radius": true, "iterations": 1, "weighted": false }"#.to_vec();
    assert_eq!(BlurParams::parse(&params), None);
}

#[test]
fn test_blur_params_parse_rejects_number_out_of_range() {
    let params = br#"{ "radius": 4294967296, "iterations": 1, "weighted": false }"#.to_vec();
    assert_eq!(BlurParams::parse(&params), None);
}

#[test]
fn test_blur_params_parse_accepts_largest_radius() {
    let params = br#"{ "radius": 4294967295, "iterations": 1, "weighted": false }"#.to_vec();
    let config = BlurParams::parse(&params);
    assert_eq!(config, Some(BlurParams { radius: 4294967295, iterations: 1, weighted: false }));
}

#[test]
fn test_blur_params_parse_rejects_leading_zero() {
    let params = br#"{ "radius": 01, "iterations": 1, "weighted": false }"#.to_vec();
    assert_eq!(BlurParams::parse(&params), None);
}

#[test]
fn test_blur_params_parse_rejects_trailing_text() {
    let params = br#"{ "radius": 1, "iterations": 1, "weighted": false } x"#.to_vec();
    assert_eq!(BlurParams::parse(&params), None);
}

#[test]
fn test_mirror_params_parse_roundtrip() {
    let params = b"{\n\t\"vertical\": false ,\r\n \"horizontal\" : true }".to_vec();
    let config = MirrorParams::parse(&params);
    assert_eq!(config, Some(MirrorParams { horizontal: true, vertical: false }));
}

#[test]
fn test_mirror_params_parse_rejects_empty_object() {
    let params = b"{}".to_vec();
    assert_eq!(MirrorParams::parse(&params), None);
}

#[test]
fn test_mirror_params_parse_rejects_garbage() {
    assert_eq!(MirrorParams::parse(&b"".to_vec()), None);
    assert_eq!(MirrorParams::parse(&b"null".to_vec()), None);
    assert_eq!(MirrorParams::parse(&b"{ \"horizontal\": true".to_vec()), None);
    assert_eq!(MirrorParams::parse(&b"[1, 2]".to_vec()), None);
}
