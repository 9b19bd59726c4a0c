//! Verified core of a git diff viewer: the data model shared by the GUI and the
//! remote agent, the line-delimited JSON-RPC protocol that connects them, and
//! the decisions that the git, watcher, review and window layers take.

pub mod agent;
pub mod contents;
pub mod gui;
pub mod json;
pub mod order;
pub mod paths;
pub mod protocol;
pub mod remote;
pub mod review;
pub mod repo_ops;
pub mod status;
pub mod text;
pub mod types;
pub mod wire;
