//! The operations on paths that change the store: link, make directory,
//! move or merge, remove. The file system and the command line both go
//! through them.

pub mod ln;
pub mod mkdir;
pub mod mv;
pub mod rm;
pub mod rmdir;

pub use ln::ln;
pub use mkdir::mkdir;
pub use mv::move_or_merge;
pub use rm::rm;
pub use rmdir::rmdir;
use crate::err::{STagErrorView, StoreError};
use crate::settings::Symbols;
use crate::sql::model::StoreView;
use crate::text::views_of;
use crate::types::{collect_regular_names, regular_names};
use vstd::prelude::*;

verus! {

/// The outcome of a store operation as the outcome of a path operation:
/// an error of the store becomes a database error.
pub open spec fn wrapped(r: Result<StoreView, StoreError>) -> Result<StoreView, STagErrorView> {
    match r {
        Ok(s) => Ok(s),
        Err(e) => Err(STagErrorView::DatabaseError(e)),
    }
}

/// The paths under which the tags of `rel_path` stand at the top of the
/// mount: each is to be probed with the sync character so that its
/// caches are flushed.
pub open spec fn flush_targets(rel_path: Seq<char>, syms: crate::settings::SymbolsView) -> Seq<
    Seq<char>,
> {
    regular_names(crate::settings::path_tags(rel_path, syms))
}

/// The names of the tags in `rel_path`: after a change, the path of each
/// under the mount point is to be probed with the sync character.
pub fn flush_tags(rel_path: &str, symbols: &Symbols) -> (names: Vec<String>)
    ensures
        views_of(names@) == flush_targets(rel_path@, symbols@),
{
    let tags = symbols.path_to_tags(rel_path);
    collect_regular_names(tags.as_slice())
}

/// A path with the sync character at its end.
pub fn suffix_sync_char(path: &str, symbols: &Symbols) -> (r: String)
    ensures
        r@ == path@.push(symbols.sync_char),
{
    let mut v = crate::text::chars_of(path);
    v.push(symbols.sync_char);
    crate::text::string_of(v.as_slice())
}

} // verus!
