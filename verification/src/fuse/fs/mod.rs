//! The file system of one collection: the store, the operation cache and
//! the settings, and the calls that the kernel makes.

pub mod alias;
pub mod getattr;
pub mod ops;
pub mod readdir;
pub mod xattr;

use crate::fuse::opcache::OpCache;
use crate::settings::Settings;
use crate::sql::Store;
use vstd::prelude::*;

verus! {

/// The file system of one collection.
pub struct TagFilesystem {
    pub store: Store,
    pub op_cache: OpCache,
    pub settings: Settings,
    /// Whether the file system behaves as on macOS: files created in a
    /// tag directory are taken as alias files, and the files that keep
    /// the indexers of macOS out always exist.
    pub alias_files: bool,
}

impl TagFilesystem {
    /// The store is well formed, the caches can hold entries, and the
    /// caches go by the symbols of the settings.
    pub open spec fn wf(&self) -> bool {
        &&& self.store@.wf()
        &&& self.op_cache.inv()
        &&& self.op_cache.symbols@ == self.settings.config.symbols@
        &&& self.settings.collection is Some
    }

    /// A file system over a store, with empty caches.
    pub fn new(settings: Settings, store: Store, alias_files: bool) -> (fs: Self)
        requires
            store@.wf(),
            settings.collection is Some,
        ensures
            fs.wf(),
            fs.store@ == store@,
            fs.settings == settings,
            fs.alias_files == alias_files,
    {
        let op_cache = OpCache::new(settings.config.symbols.clone());
        TagFilesystem { store, op_cache, settings, alias_files }
    }
}

} // verus!
