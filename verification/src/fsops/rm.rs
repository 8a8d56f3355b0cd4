//! Removing a file from the tags of a path.

use crate::err::{STagError, STagErrorView};
use crate::fsops::wrapped;
use crate::settings::{path_tags, Symbols, SymbolsView};
use crate::sql::model::StoreView;
use crate::sql::query::{first_wanted, FileWantedView};
use crate::sql::Store;
use crate::text::views_of;
use crate::types::{
    collect_regular, collect_regular_names, regular_names, regulars, tag_views, Micros,
    TagCollection, TagType, TagTypeView,
};
use vstd::prelude::*;

verus! {

/// What removing the file at a path does. A file named with device and
/// inode loses its link to the last tag of the path; a file named plainly
/// is looked up under that tag and loses its link to it. Any other path
/// is refused.
pub open spec fn rm_outcome(s: StoreView, syms: SymbolsView, file: Seq<char>, now: Micros) -> Result<
    StoreView,
    STagErrorView,
> {
    let tags = path_tags(file, syms);
    if tags.len() == 0 {
        Err(STagErrorView::NotEnoughTags)
    } else {
        match tags.last() {
            TagTypeView::DeviceFileSymlink(df) => {
                let r = regular_names(tags);
                if r.len() == 0 {
                    Err(STagErrorView::InvalidPath(file))
                } else {
                    wrapped(s.removed_devicefile(df.device, df.inode, seq![r.last()], now))
                }
            },
            TagTypeView::Symlink(name) => {
                let r = regulars(tags);
                if r.len() == 0 {
                    Err(STagErrorView::InvalidPath(file))
                } else {
                    Ok(s.removed_links(name, seq![r.last()], now))
                }
            },
            _ => Err(STagErrorView::InvalidPath(file)),
        }
    }
}

/// The ids that removing the file at a path returns: where the file is
/// found, the id of the last tag of the path, if the file was linked to
/// it; nothing else.
pub open spec fn rm_removed(s: StoreView, syms: SymbolsView, file: Seq<char>) -> Seq<i64> {
    let tags = path_tags(file, syms);
    if tags.len() == 0 {
        Seq::empty()
    } else {
        match tags.last() {
            TagTypeView::DeviceFileSymlink(df) => {
                let r = regular_names(tags);
                match s.file_at(df.device, df.inode) {
                    Some(f) => if r.len() == 0 {
                        Seq::empty()
                    } else {
                        s.linked_ids(f.id, seq![r.last()])
                    },
                    None => Seq::empty(),
                }
            },
            TagTypeView::Symlink(name) => {
                let r = regulars(tags);
                if r.len() == 0 {
                    Seq::empty()
                } else {
                    match first_wanted(s.files_at(seq![r.last()]), FileWantedView::Named(name)) {
                        Some(tf) => s.linked_ids(tf.id, regular_names(seq![r.last()])),
                        None => Seq::empty(),
                    }
                }
            },
            _ => Seq::empty(),
        }
    }
}

/// Removes the file at `file`, a path below the mount point, from the
/// last tag of the path. Returns the ids of the tags that it was linked
/// to. On an error the store is as it was.
pub fn rm(symbols: &Symbols, store: &mut Store, file: &str, now: Micros) -> (r: Result<
    Vec<i64>,
    STagError,
>)
    requires
        old(store)@.wf(),
    ensures
        final(store)@.wf(),
        match r {
            Ok(ids) => rm_outcome(old(store)@, symbols@, file@, now) == Ok::<
                StoreView,
                STagErrorView,
            >(final(store)@) && ids@ == rm_removed(old(store)@, symbols@, file@),
            Err(e) => rm_outcome(old(store)@, symbols@, file@, now) == Err::<
                StoreView,
                STagErrorView,
            >(e@) && final(store)@ == old(store)@,
        },
{
    let tags = TagCollection::new(symbols, file);
    let pt = match tags.primary_type() {
        Ok(pt) => pt,
        Err(e) => {
            return Err(e);
        },
    };
    assert(tag_views(tags.tags@).last() == pt@);
    match pt {
        TagType::DeviceFileSymlink(device_file) => {
            let mut names = collect_regular_names(tags.as_slice());
            let ghost all = views_of(names@);
            match names.pop() {
                Some(last_tag) => {
                    let one: Vec<String> = vec![last_tag];
                    assert(views_of(one@) =~= seq![all.last()]);
                    match store.remove_devicefile(device_file, one.as_slice(), now) {
                        Ok(removed) => Ok(removed),
                        Err(e) => Err(STagError::DatabaseError(e)),
                    }
                },
                None => Err(STagError::InvalidPath(String::from_str(file))),
            }
        },
        TagType::Symlink(filename) => {
            let mut regs = collect_regular(tags.as_slice());
            let ghost all = tag_views(regs@);
            match regs.pop() {
                Some(last_tag) => {
                    let one: Vec<TagType> = vec![last_tag];
                    assert(tag_views(one@) =~= seq![all.last()]);
                    Ok(store.remove_links(filename.as_str(), one.as_slice(), now))
                },
                None => Err(STagError::InvalidPath(String::from_str(file))),
            }
        },
        _ => Err(STagError::InvalidPath(String::from_str(file))),
    }
}

} // verus!
