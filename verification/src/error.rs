//! Errors raised by the script callbacks.
use vstd::prelude::*;

verus! {

/// Errors that can occur within the callbacks that a script calls.
#[derive(Debug, Clone)]
pub enum ScriptError {
    /// No data block was registered under this namespace.
    NamespaceNotFound(String),
    /// The namespace (first) has no data block of this name (second).
    DataBlockNotFound(String, String),
    /// A string argument was unusable.
    BadString(String),
    /// The context lines given to the patcher were not found.
    PatternNotFound {
        before_context: String,
        select_context: String,
        after_context: String,
        before_found: bool,
        select_found: bool,
    },
    /// The staged patches could not be applied.
    BadPatch(String),
}

} // verus!
