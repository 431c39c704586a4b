//! The options of a run.

use vstd::prelude::*;

use crate::ts_flavor::TsFlavor;

verus! {

/// Which artifacts to emit.
#[derive(Debug, Clone, Copy, PartialEq, Eq, Structural)]
pub struct EmitConfig {
    /// The description of the exports, as JSON.
    pub json: bool,
    /// The JavaScript module that re-exports the root module.
    pub js: bool,
}

/// The options of a run.
#[derive(Debug, Clone, PartialEq, Eq)]
pub struct CompileOpt {
    /// The root module, as given.
    pub input_path: String,
    /// The directory that takes the artifacts.
    pub output_dir: String,
    /// The name of the artifacts without their extensions, where it is not
    /// to be taken from the root module.
    pub file_stem: Option<String>,
    pub emit_config: EmitConfig,
    pub ts_flavor: TsFlavor,
    /// Whether to report the annotations that are taken for `any` because
    /// they stand for nothing that is supported.
    pub strict: bool,
}

/// Checks the output argument: `is_dir` tells whether it names a
/// directory that exists.
pub fn output_directory_validator(is_dir: bool) -> (r: Result<(), String>)
    ensures
        match r {
            Ok(()) => is_dir,
            Err(message) => !is_dir && message@ == "Expected output argument to be a directory"@,
        },
{
    if is_dir {
        Ok(())
    } else {
        Err(String::from_str("Expected output argument to be a directory"))
    }
}

} // verus!
