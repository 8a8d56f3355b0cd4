//! Making a tag, a tag group, or a pinned path.

use crate::err::{STagError, STagErrorView};
use crate::fsops::wrapped;
use crate::settings::{path_tags, Symbols, SymbolsView};
use crate::sql::model::StoreView;
use crate::sql::Store;
use crate::types::file_perms::Permissions;
use crate::types::{
    collect_pinnable, pinnable, tag_views, Micros, TagCollection, TagType, TagTypeView,
};
use vstd::prelude::*;

verus! {

/// What making the directory at a path does. A path of one component
/// makes sure of the tag or tag group it names; a longer path is pinned.
pub open spec fn mkdir_outcome(
    s: StoreView,
    syms: SymbolsView,
    dir: Seq<char>,
    uid: u32,
    gid: u32,
    permissions: Permissions,
    now: Micros,
) -> Result<StoreView, STagErrorView> {
    let tags = path_tags(dir, syms);
    if tags.len() == 1 {
        match tags[0] {
            TagTypeView::Group(g) => wrapped(s.ensured_group(g, uid, gid, permissions, now)),
            TagTypeView::Regular(t) => wrapped(s.ensured_tag(t, uid, gid, permissions, now)),
            _ => Ok(s),
        }
    } else {
        let p = pinnable(tags);
        if p.len() > 0 {
            wrapped(s.pinned_with(p, uid, gid, permissions, now))
        } else {
            Ok(s)
        }
    }
}

/// Makes the directory at `dir`, a path below the mount point. On an
/// error the store is as it was.
pub fn mkdir(
    symbols: &Symbols,
    store: &mut Store,
    dir: &str,
    uid: u32,
    gid: u32,
    permissions: &Permissions,
    now: Micros,
) -> (r: Result<(), STagError>)
    requires
        old(store)@.wf(),
    ensures
        final(store)@.wf(),
        match r {
            Ok(_) => mkdir_outcome(old(store)@, symbols@, dir@, uid, gid, *permissions, now) == Ok::<
                StoreView,
                STagErrorView,
            >(final(store)@),
            Err(e) => mkdir_outcome(old(store)@, symbols@, dir@, uid, gid, *permissions, now)
                == Err::<StoreView, STagErrorView>(e@) && final(store)@ == old(store)@,
        },
{
    let tags = TagCollection::new(symbols, dir);
    if tags.len() == 1 {
        assert(tag_views(tags.tags@)[0] == tags.tags@[0]@);
        match &tags.as_slice()[0] {
            TagType::Group(tag) => match store.ensure_tag_group(
                tag.as_str(),
                uid,
                gid,
                permissions,
                now,
            ) {
                Ok(_) => Ok(()),
                Err(e) => Err(STagError::DatabaseError(e)),
            },
            TagType::Regular(tag) => match store.ensure_tag(
                tag.as_str(),
                uid,
                gid,
                permissions,
                now,
            ) {
                Ok(_) => Ok(()),
                Err(e) => Err(STagError::DatabaseError(e)),
            },
            _ => Ok(()),
        }
    } else {
        let pins = collect_pinnable(tags.as_slice());
        if pins.len() > 0 {
            match store.pin_tags(pins.as_slice(), uid, gid, permissions, now) {
                Ok(_) => Ok(()),
                Err(e) => Err(STagError::DatabaseError(e)),
            }
        } else {
            Ok(())
        }
    }
}

} // verus!
