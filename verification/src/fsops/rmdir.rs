//! Removing a tag or a tag group, at the top or from an intersection.

use crate::err::{STagError, STagErrorView};
use crate::fsops::wrapped;
use crate::settings::{path_tags, Symbols, SymbolsView};
use crate::sql::model::StoreView;
use crate::sql::Store;
use crate::types::{
    collect_tags_and_groups, tag_views, tags_and_groups, Micros, TagCollection, TagType,
    TagTypeView,
};
use vstd::prelude::*;

verus! {

/// What removing the directory at a path does. A tag group at the top
/// goes with its memberships; below other components, the tags that show
/// below the path leave it. A tag at the top goes with its links; below
/// other components, the files at the path lose it. Any other path is
/// refused.
pub open spec fn rmdir_outcome(s: StoreView, syms: SymbolsView, path: Seq<char>, now: Micros) -> Result<
    StoreView,
    STagErrorView,
> {
    let tags = path_tags(path, syms);
    if tags.len() == 0 {
        Err(STagErrorView::NotEnoughTags)
    } else {
        let parts = tags_and_groups(tags);
        match tags.last() {
            TagTypeView::Group(group) => if parts.len() == 0 {
                Err(STagErrorView::InvalidPath(path))
            } else if parts.len() == 1 {
                Ok(s.without_group(group).with_root(now))
            } else {
                wrapped(s.group_removed_from_intersection(group, tags, now))
            },
            TagTypeView::Regular(tag) => if parts.len() == 0 {
                Err(STagErrorView::InvalidPath(path))
            } else if parts.len() == 1 {
                Ok(s.without_tag(tag).with_root(now))
            } else {
                wrapped(s.removed_from_intersection(tag, parts, now))
            },
            _ => Err(STagErrorView::InvalidPath(path)),
        }
    }
}

/// Removes the tag or tag group at `path`, a path below the mount point.
/// On an error the store is as it was.
pub fn rmdir(symbols: &Symbols, store: &mut Store, path: &str, now: Micros) -> (r: Result<
    (),
    STagError,
>)
    requires
        old(store)@.wf(),
    ensures
        final(store)@.wf(),
        match r {
            Ok(_) => rmdir_outcome(old(store)@, symbols@, path@, now) == Ok::<
                StoreView,
                STagErrorView,
            >(final(store)@),
            Err(e) => rmdir_outcome(old(store)@, symbols@, path@, now) == Err::<
                StoreView,
                STagErrorView,
            >(e@) && final(store)@ == old(store)@,
        },
{
    let tags = TagCollection::new(symbols, path);
    let pt = match tags.primary_type() {
        Ok(pt) => pt,
        Err(e) => {
            return Err(e);
        },
    };
    assert(tag_views(tags.tags@).last() == pt@);
    let parts = collect_tags_and_groups(tags.as_slice());
    match pt {
        TagType::Group(group) => {
            if parts.len() == 0 {
                Err(STagError::InvalidPath(String::from_str(path)))
            } else if parts.len() == 1 {
                store.remove_taggroup(group.as_str(), now);
                Ok(())
            } else {
                match store.remove_taggroup_from_itersection(group.as_str(), tags.as_slice(), now) {
                    Ok(_) => Ok(()),
                    Err(e) => Err(STagError::DatabaseError(e)),
                }
            }
        },
        TagType::Regular(tag) => {
            if parts.len() == 0 {
                Err(STagError::InvalidPath(String::from_str(path)))
            } else if parts.len() == 1 {
                store.remove_tag(tag.as_str(), now, true);
                Ok(())
            } else {
                match store.remove_tag_from_intersection(tag.as_str(), parts.as_slice(), now) {
                    Ok(_) => Ok(()),
                    Err(e) => Err(STagError::DatabaseError(e)),
                }
            }
        },
        _ => Err(STagError::InvalidPath(String::from_str(path))),
    }
}

} // verus!
