//! The status-code vocabulary shared by the host and every plugin.
//!
//! A plugin call returns a plain `i32` across the binary boundary. The set of
//! known codes is a fixed, append-only contract: both sides are compiled
//! independently, so an existing code must never be renumbered, and an integer
//! outside the known set must be treated as a failure, never as success.

use vstd::prelude::*;

verus! {

/// Outcome of a plugin invocation, as both sides of the boundary understand it.
///
/// `from` recovers a variant from the raw integer; `code` produces the integer
/// a plugin returns. The two are inverse on the known codes.
#[derive(Clone, Copy, Debug, PartialEq, Eq, Structural)]
pub enum PluginError {
    /// No error.
    Success,
    /// The plugin was unable to decode its parameter text.
    InvalidParams,
    /// A null pointer was handed to the plugin.
    NullPointer,
    /// `width * height * 4` does not fit in the machine's address space.
    SizeIsTooBig,
    /// An abnormal termination inside the plugin was caught at the boundary.
    Panic,
}

impl PluginError {
    /// The integer this status crosses the boundary as.
    pub open spec fn code_spec(self) -> i32 {
        match self {
            PluginError::Success => 0,
            PluginError::InvalidParams => 1,
            PluginError::NullPointer => 2,
            PluginError::SizeIsTooBig => 3,
            PluginError::Panic => 4,
        }
    }

    /// Encode this status as the raw integer of the boundary contract.
    pub fn code(self) -> (code: i32)
        ensures
            code == self.code_spec(),
    {
        match self {
            PluginError::Success => 0,
            PluginError::InvalidParams => 1,
            PluginError::NullPointer => 2,
            PluginError::SizeIsTooBig => 3,
            PluginError::Panic => 4,
        }
    }

    /// Map a raw code to the status it stands for, if the code is known.
    pub fn from(code: i32) -> (result: Option<PluginError>)
        ensures
            result matches Some(e) ==> e.code_spec() == code,
            result is Some <==> 0 <= code <= 4,
    {
        if code == 0 {
            Some(PluginError::Success)
        } else if code == 1 {
            Some(PluginError::InvalidParams)
        } else if code == 2 {
            Some(PluginError::NullPointer)
        } else if code == 3 {
            Some(PluginError::SizeIsTooBig)
        } else if code == 4 {
            Some(PluginError::Panic)
        } else {
            None
        }
    }
}

} // verus!
