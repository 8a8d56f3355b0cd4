//! Extended attributes: they are those of the managed file behind a
//! path.

use crate::err::Errno;
use crate::fuse::fs::alias::{alias_file_answer, alias_file_or};
use crate::fuse::fs::TagFilesystem;
use crate::fuse::opcache::Request;
use vstd::prelude::*;

verus! {

impl TagFilesystem {
    /// The managed file on which an attribute of the path is set. A path
    /// without a managed file is not found.
    pub fn setxattr_impl(&self, req: &Request, path: &str) -> (r: Result<String, Errno>)
        requires
            self.wf(),
        ensures
            alias_file_or(*self, path@, Errno::ENOENT, r),
    {
        match self.resolve_to_alias_file(path) {
            Some(file_path) => Ok(file_path),
            None => Err(Errno::ENOENT),
        }
    }

    /// The managed file from which an attribute of the path is read. A
    /// path without a managed file has no attribute.
    pub fn getxattr_impl(&self, req: &Request, path: &str) -> (r: Result<String, Errno>)
        requires
            self.wf(),
        ensures
            alias_file_or(*self, path@, Errno::ENODATA, r),
    {
        match self.resolve_to_alias_file(path) {
            Some(file_path) => Ok(file_path),
            None => Err(Errno::ENODATA),
        }
    }

    /// The managed file whose attributes are listed for the path. A path
    /// without a managed file has none to list.
    pub fn listxattr_impl(&self, req: &Request, path: &str) -> (r: Option<String>)
        requires
            self.wf(),
        ensures
            alias_file_answer(*self, path@, crate::sql::types::opt_view(r)),
    {
        self.resolve_to_alias_file(path)
    }

    /// The managed file from which an attribute of the path is removed.
    /// A path without a managed file is not found.
    pub fn removexattr_impl(&self, req: &Request, path: &str) -> (r: Result<String, Errno>)
        requires
            self.wf(),
        ensures
            alias_file_or(*self, path@, Errno::ENOENT, r),
    {
        match self.resolve_to_alias_file(path) {
            Some(file_path) => Ok(file_path),
            None => Err(Errno::ENOENT),
        }
    }
}

} // verus!
