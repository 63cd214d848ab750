//! The command-line configuration the proxy starts with.

use vstd::prelude::*;

verus! {

/// The configuration: the command that starts the wrapped server, and
/// the explicitly configured workspace paths, if any.
#[derive(Debug, PartialEq, Eq)]
pub struct Args {
    /// Command to start the wrapped language-analysis server.
    pub cmd: String,
    /// Absolute path to a solution file.
    pub solution_path: Option<String>,
    /// Absolute paths to project files; ignored when a solution path
    /// is given.
    pub project_paths: Option<Vec<String>>,
}

} // verus!
