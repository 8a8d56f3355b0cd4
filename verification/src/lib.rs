//! Supertag: a tag-based view of files, presented as directories.
//!
//! The library holds the tag-path engine: the path grammar, the relational
//! model of files, tags, tag groups and pins, the intersection queries, the
//! mutation rules and the short-lived operation cache. Beside it stand the
//! answers of the file system to the kernel's calls, the options of a
//! mount, and what the platform needs: the list of mounted collections and
//! the files that give a volume its icon.

pub mod cli;
pub mod common;
pub mod constants;
pub mod err;
pub mod fsops;
pub mod fuse;
pub mod iter;
pub mod managed_file;
pub mod notify;
pub mod num;
pub mod path;
pub mod platform;
pub mod settings;
pub mod sql;
pub mod text;
pub mod types;

pub use cli::{ln, rename, rm, rmdir};
