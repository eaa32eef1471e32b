//! Host invocation arguments and the decisions made over them.
//!
//! The unverified rim parses the command line and answers the filesystem
//! questions (does this path exist?); every decision taken over those answers
//! is made here, so that which error is raised, and with which path inside
//! it, is pinned down by contract.

use vstd::prelude::*;

use crate::error::AppError;

verus! {

/// The host's invocation arguments.
pub struct Args {
    /// Path to input image.
    pub input: String,
    /// Path to save result.
    pub output: String,
    /// Name of image conversion plugin.
    pub plugin: String,
    /// Path to file with params of conversion plugin.
    pub params: String,
    /// Path to plugins directory.
    pub plugin_path: String,
}

impl Args {
    /// The file the plugin name resolves to: the platform's library file
    /// name (`prefix + name + suffix`) inside the plugin directory, joined
    /// with the platform's separator.
    pub open spec fn plugin_file_path_spec(
        &self,
        separator: Seq<char>,
        prefix: Seq<char>,
        suffix: Seq<char>,
    ) -> Seq<char> {
        self.plugin_path@ + separator + prefix + self.plugin@ + suffix
    }

    /// Verify all required files and directories exist, going by the caller's
    /// report of what the filesystem holds. The first missing path — input
    /// image, then parameter file, then plugin directory — is returned as the
    /// typed error carrying that path.
    pub fn check_basic_paths_exists(
        &self,
        input_exists: bool,
        params_exists: bool,
        plugin_path_exists: bool,
    ) -> (result: Result<(), AppError>)
        ensures
            !input_exists ==> (result matches Err(e)
                && e == AppError::InputFileNotFound(self.input)),
            input_exists && !params_exists ==> (result matches Err(e)
                && e == AppError::ParamsFileNotFound(self.params)),
            input_exists && params_exists && !plugin_path_exists ==> (result matches Err(e)
                && e == AppError::PluginDirectoryNotFound(self.plugin_path)),
            input_exists && params_exists && plugin_path_exists ==> result is Ok,
    {
        if !input_exists {
            return Err(AppError::InputFileNotFound(self.input.clone()));
        }

        if !params_exists {
            return Err(AppError::ParamsFileNotFound(self.params.clone()));
        }

        if !plugin_path_exists {
            return Err(AppError::PluginDirectoryNotFound(self.plugin_path.clone()));
        }

        Ok(())
    }

    /// Resolve the plugin name to its library file under the plugin
    /// directory and return that path, or the typed not-found error carrying
    /// it. The caller supplies the platform's path separator and library file
    /// name affixes, and reports whether the resolved file exists.
    pub fn plugin_file(
        &self,
        separator: &str,
        dll_prefix: &str,
        dll_suffix: &str,
        plugin_file_exists: bool,
    ) -> (result: Result<String, AppError>)
        ensures
            plugin_file_exists ==> (result matches Ok(p)
                && p@ == self.plugin_file_path_spec(separator@, dll_prefix@, dll_suffix@)),
            !plugin_file_exists ==> (result matches Err(e)
                && e matches AppError::PluginNotFound(p)
                && p@ == self.plugin_file_path_spec(separator@, dll_prefix@, dll_suffix@)),
    {
        let mut plugin_file = self.plugin_path.clone();
        plugin_file.append(separator);
        plugin_file.append(dll_prefix);
        plugin_file.append(self.plugin.as_str());
        plugin_file.append(dll_suffix);

        if !plugin_file_exists {
            return Err(AppError::PluginNotFound(plugin_file));
        }

        Ok(plugin_file)
    }
}

} // verus!
