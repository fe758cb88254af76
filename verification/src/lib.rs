//! Resolution of module specifiers against a precomputed module-graph
//! description, and rewriting of import source strings to local cache
//! paths.
//!
//! The graph description maps module specifiers to local paths and
//! records specifier redirects.  The library answers three queries
//! against it (local path to specifier, redirect resolution, specifier
//! to local path) and decides, per import source string, which rewrite
//! rule applies: relative references are joined against the importing
//! file's own specifier and looked up, registry specifiers are looked up
//! directly, remote URLs are escaped to a fixed local-looking path, and
//! anything else stays as it is.

pub mod graph;
pub mod json;
pub mod parse;
pub mod resolve;
pub mod rewrite;
mod strutil;

pub use graph::GraphError;
pub use graph::Module;
pub use graph::ModuleGraph;
pub use graph::Redirect;
pub use graph::RedirectTable;
pub use parse::from_local_to_specifier;
pub use parse::get_local_path;
pub use parse::parse_graph;
pub use resolve::follow_redirects;
pub use rewrite::Rewrite;
pub use rewrite::rewrite_all;
pub use rewrite::rewrite_import;
pub use rewrite::rewrite_remote;
