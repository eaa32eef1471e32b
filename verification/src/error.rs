//! The host's error domain, and the mapping from raw plugin status codes
//! into it.
//!
//! A raw code outside the published set is surfaced as a distinguishable
//! unknown-code failure with the integer preserved for diagnostics; it is
//! never coerced to success or to a known error kind.

use vstd::prelude::*;

use crate::status::PluginError;

verus! {

/// Everything that can go wrong on the host's side of a plugin invocation,
/// as a typed error. Path-shaped variants carry the offending path.
#[derive(Debug)]
pub enum AppError {
    /// Input file not found.
    InputFileNotFound(String),
    /// Params file not found.
    ParamsFileNotFound(String),
    /// Plugin directory not found.
    PluginDirectoryNotFound(String),
    /// Plugin not found in the plugin directory.
    PluginNotFound(String),
    /// A null pointer was passed to the plugin for image data or parameters.
    NullPointer,
    /// The plugin was unable to decode its parameters.
    PluginInvalidParams,
    /// The requested pixel buffer size does not fit in the address space.
    PluginSizeTooBig,
    /// The plugin returned a status code outside the published set.
    PluginUnknownErrorCode(i32),
    /// An abnormal termination happened inside the plugin.
    PluginPanic,
}

impl AppError {
    /// Translate a plugin's raw return code into the host's error domain:
    /// `None` when the plugin reports success, and otherwise the typed
    /// failure the code stands for.
    pub fn from_plugin_error_code(code: i32) -> (result: Option<AppError>)
        ensures
            (result is None) <==> code == 0,
            code == 1 ==> result == Some(AppError::PluginInvalidParams),
            code == 2 ==> result == Some(AppError::NullPointer),
            code == 3 ==> result == Some(AppError::PluginSizeTooBig),
            code == 4 ==> result == Some(AppError::PluginPanic),
            !(0 <= code <= 4) ==> result == Some(AppError::PluginUnknownErrorCode(code)),
    {
        let plugin_error = PluginError::from(code);

        match plugin_error {
            Some(PluginError::Success) => None,
            Some(PluginError::InvalidParams) => Some(AppError::PluginInvalidParams),
            Some(PluginError::NullPointer) => Some(AppError::NullPointer),
            Some(PluginError::SizeIsTooBig) => Some(AppError::PluginSizeTooBig),
            Some(PluginError::Panic) => Some(AppError::PluginPanic),
            None => Some(AppError::PluginUnknownErrorCode(code)),
        }
    }
}

} // verus!
