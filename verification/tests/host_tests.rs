//! The host's side of the boundary: status codes, the host error domain, and
//! the argument checks.

use image_plugins::args::Args;
use image_plugins::error::AppError;
use image_plugins::status::PluginError;

fn args() -> Args {
    Args {
        input: String::from("in.png"),
        output: String::from("out.png"),
        plugin: String::from("blur"),
        params: String::from("params.json"),
        plugin_path: String::from("target/debug"),
    }
}

#[test]
fn test_plugin_error_codes_are_stable() {
    assert_eq!(PluginError::Success.code(), 0);
    assert_eq!(PluginError::InvalidParams.code(), 1);
    assert_eq!(PluginError::NullPointer.code(), 2);
    assert_eq!(PluginError::SizeIsTooBig.code(), 3);
    assert_eq!(PluginError::Panic.code(), 4);
}

#[test]
fn test_plugin_error_from_known_codes() {
    for code in 0..5 {
        let e = PluginError::from(code);
        assert!(e.is_some());
        assert_eq!(e.unwrap().code(), code);
    }
}

#[test]
fn test_plugin_error_from_unknown_codes() {
    assert!(PluginError::from(-1).is_none());
    assert!(PluginError::from(5).is_none());
    assert!(PluginError::from(i32::MAX).is_none());
}

#[test]
fn test_app_error_from_plugin_error_code() {
    assert!(AppError::from_plugin_error_code(0).is_none());
    assert!(matches!(
        AppError::from_plugin_error_code(1),
        Some(AppError::PluginInvalidParams)
    ));
    assert!(matches!(
        AppError::from_plugin_error_code(2),
        Some(AppError::NullPointer)
    ));
    assert!(matches!(
        AppError::from_plugin_error_code(3),
        Some(AppError::PluginSizeTooBig)
    ));
    assert!(matches!(
        AppError::from_plugin_error_code(4),
        Some(AppError::PluginPanic)
    ));
}

#[test]
fn test_app_error_from_unknown_code_keeps_raw_code() {
    assert!(matches!(
        AppError::from_plugin_error_code(99),
        Some(AppError::PluginUnknownErrorCode(99))
    ));
    assert!(matches!(
        AppError::from_plugin_error_code(-7),
        Some(AppError::PluginUnknownErrorCode(-7))
    ));
}

#[test]
fn test_check_basic_paths_exists_all_present() {
    assert!(args().check_basic_paths_exists(true, true, true).is_ok());
}

#[test]
fn test_check_basic_paths_exists_reports_first_missing() {
    let a = args();
    let e = a.check_basic_paths_exists(false, false, false);
    assert!(matches!(e, Err(AppError::InputFileNotFound(p)) if p == "in.png"));
    let e = a.check_basic_paths_exists(true, false, false);
    assert!(matches!(e, Err(AppError::ParamsFileNotFound(p)) if p == "params.json"));
    let e = a.check_basic_paths_exists(true, true, false);
    assert!(matches!(e, Err(AppError::PluginDirectoryNotFound(p)) if p == "target/debug"));
}

#[test]
fn test_plugin_file_resolves_platform_name() {
    let a = args();
    let found = a.plugin_file("/", "lib", ".so", true);
    assert!(matches!(found, Ok(p) if p == "target/debug/libblur.so"));
    let missing = a.plugin_file("/", "lib", ".so", false);
    assert!(matches!(missing, Err(AppError::PluginNotFound(p)) if p == "target/debug/libblur.so"));
}
