//! The file system surface: what each call answers from the store and the
//! operation cache, and what it changes.

pub mod conf;
pub mod fs;
pub mod laws;
pub mod names;
pub mod opcache;
pub mod util;
