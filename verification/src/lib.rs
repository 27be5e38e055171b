//! The verified core of a SCRIPT block runtime: scripts read data blocks,
//! patch texts line by line, and answer with a response of commits.
//!
//! - `store`: the data blocks a script reads, by namespace and name.
//! - `patcher`: line-oriented patching of a text in one forward pass.
//! - `model`: commits and responses as a script builds them and as they are handed out.
//! - `lua_string`: the byte-string operations of the script's `string` library.
//! - `eval`: the decisions of an evaluation loop and its failure report.
//! - `text`: line splitting, joining and rendering.
//! - `error`: the errors the script callbacks raise.
pub mod error;
pub mod eval;
pub mod lua_string;
pub mod model;
pub mod patcher;
pub mod store;
pub mod text;
