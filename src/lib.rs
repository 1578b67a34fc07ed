//! Declaration inventory for source trees: a classifier that turns a file's
//! syntax tree into normalized declarations, the aggregation of those
//! declarations into per-file and per-directory reports, and the policy that
//! decides which files of a directory tree are examined.

pub mod text;
pub mod model;
pub mod syntax;
pub mod language;
pub mod classify;
pub mod aggregate;
pub mod walk;
pub mod config;
pub mod frontend;
pub mod render;
pub mod rust_front;
pub mod test_utils;
pub mod external;
