//! Renaming: a file gets a new name, a tag is renamed, merged into
//! others or put into a tag group, a tag group is renamed.

use crate::common::{creatable_tag_group, group_name_ok, primary_tag, primary_tag_of};
use crate::err::{STagError, STagErrorView, StoreError};
use crate::fsops::wrapped;
use crate::notify::{note_view, Note, NoteView};
use crate::path::{file_name, get_filename};
use crate::settings::{path_tags, Symbols, SymbolsView};
use crate::sql::model::StoreView;
use crate::sql::query::{first_wanted, FileWanted, FileWantedView};
use crate::sql::types::file_rows;
use crate::sql::Store;
use crate::types::file_perms::{perms_of, UMask};
use crate::types::{
    collect_pinnable, collect_regular_names, pinnable, regular_names, tag_views, Micros,
    TagCollection, TagType, TagTypeView,
};
use vstd::prelude::*;

verus! {

/// The destination of a tag that is moved: the path without its last
/// component where that is the source tag itself, as when a file browser
/// drops a directory into another.
pub open spec fn tag_destination(src_tags: Seq<TagTypeView>, dst_tags: Seq<TagTypeView>) -> Seq<
    TagTypeView,
> {
    if src_tags.len() > 0 && dst_tags.len() > 0 && src_tags.last() == dst_tags.last() {
        dst_tags.drop_last()
    } else {
        dst_tags
    }
}

/// What moving a tag does. A tag that does not exist is refused. Onto a
/// tag name that is free, the tag is renamed; onto a tag that exists, the
/// files at the source path are merged into the tags of the destination.
/// Onto a tag group that does not exist, a tag without files becomes the
/// group, and a tag with files is refused with a note; into a tag group
/// that exists, the tag becomes a member, and a tag without files is
/// pinned below the destination.
pub open spec fn mv_tag_outcome(
    s: StoreView,
    syms: SymbolsView,
    src_tag: Seq<char>,
    src_tags: Seq<TagTypeView>,
    dst_tags: Seq<TagTypeView>,
    uid: u32,
    gid: u32,
    umask: UMask,
    now: Micros,
) -> (Result<StoreView, STagErrorView>, Option<NoteView>) {
    let d = tag_destination(src_tags, dst_tags);
    let dir_perms = perms_of((0o777u32 & !umask.0) as nat);
    if s.tag_named(src_tag) is None {
        (Err(STagErrorView::BadTag(src_tag)), None)
    } else if d.len() == 0 {
        (Err(STagErrorView::NotEnoughTags), None)
    } else {
        match d.last() {
            TagTypeView::Regular(new_name) => if s.tag_named(new_name) is None {
                (wrapped(s.renamed_tag(src_tag, new_name, now)), None)
            } else {
                (wrapped(s.merged(src_tag, src_tags, regular_names(d), now)), None)
            },
            TagTypeView::Group(new_name) => if !group_name_ok(
                new_name,
                syms.tag_group_str,
                syms.filedir_str,
            ) {
                (Err(STagErrorView::BadTagGroup(new_name)), None)
            } else {
                let tagged = s.files_at(seq![TagTypeView::Regular(src_tag)]);
                if s.group_named(new_name) is None {
                    if tagged.len() == 0 {
                        (
                            wrapped(
                                s.without_tag(src_tag).with_root(now).ensured_group(
                                    new_name,
                                    uid,
                                    gid,
                                    dir_perms,
                                    now,
                                ),
                            ),
                            None,
                        )
                    } else {
                        (
                            Err(STagErrorView::BadTagGroup(new_name)),
                            Some(NoteView::TagToTagGroup(src_tag)),
                        )
                    }
                } else {
                    let s1 = s.with_member(src_tag, new_name, uid, gid, dir_perms, now);
                    let p = pinnable(d);
                    if tagged.len() == 0 && p.len() > 0 {
                        (
                            wrapped(
                                s1.pinned_with(
                                    p.push(TagTypeView::Regular(src_tag)),
                                    uid,
                                    gid,
                                    dir_perms,
                                    now,
                                ),
                            ),
                            None,
                        )
                    } else {
                        (Ok(s1), None)
                    }
                }
            },
            _ => (Err(STagErrorView::BadTag("unknown"@)), None),
        }
    }
}

/// The outcome of a rename in the store as the outcome of a rename of
/// paths: a name that is taken already becomes a path that exists, any
/// other error of the store a database error.
pub open spec fn wrapped_rename(r: Result<StoreView, StoreError>, dst: Seq<char>) -> Result<
    StoreView,
    STagErrorView,
> {
    match r {
        Ok(s) => Ok(s),
        Err(StoreError::Constraint) => Err(STagErrorView::PathExists(dst)),
        Err(e) => Err(STagErrorView::DatabaseError(e)),
    }
}

/// What renaming `src` to `dst` does, by what the source names. A file
/// gets the name in the destination as its primary tag. A tag is moved.
/// A tag group is renamed to the name of a tag or tag group in the
/// destination. Any other source is refused.
pub open spec fn mv_outcome(
    s: StoreView,
    syms: SymbolsView,
    src: Seq<char>,
    dst: Seq<char>,
    uid: u32,
    gid: u32,
    umask: UMask,
    now: Micros,
) -> (Result<StoreView, STagErrorView>, Option<NoteView>) {
    let src_tags = path_tags(src, syms);
    let dst_tags = path_tags(dst, syms);
    if src_tags.len() == 0 {
        (Err(STagErrorView::NotEnoughTags), None)
    } else {
        match src_tags.last() {
            TagTypeView::DeviceFileSymlink(df) => match primary_tag_of(dst, syms.device_char) {
                Some(new_name) => (Ok(s.renamed_file(df.device, df.inode, new_name, now)), None),
                None => (Err(STagErrorView::InvalidPath(dst)), None),
            },
            TagTypeView::Symlink(name) => match file_name(dst) {
                None => (Err(STagErrorView::InvalidPath(dst)), None),
                Some(new_name) => match first_wanted(
                    s.files_at(src_tags),
                    FileWantedView::Named(name),
                ) {
                    Some(tf) => (Ok(s.renamed_file(tf.device, tf.inode, new_name, now)), None),
                    None => (Err(STagErrorView::InvalidPath(src)), None),
                },
            },
            TagTypeView::Regular(src_tag) => mv_tag_outcome(
                s,
                syms,
                src_tag,
                src_tags,
                dst_tags,
                uid,
                gid,
                umask,
                now,
            ),
            TagTypeView::Group(group) => if dst_tags.len() == 0 {
                (Err(STagErrorView::NotEnoughTags), None)
            } else {
                match dst_tags.last() {
                    TagTypeView::Group(new_name) => (
                        wrapped_rename(s.renamed_group(group, new_name, now), dst),
                        None,
                    ),
                    TagTypeView::Regular(new_name) => (
                        wrapped_rename(s.renamed_group(group, new_name, now), dst),
                        None,
                    ),
                    _ => (Err(STagErrorView::InvalidPath(dst)), None),
                }
            },
            _ => (Err(STagErrorView::InvalidPath(src)), None),
        }
    }
}

/// Moves the tag `src_tag`, named by the path with components `src_tags`,
/// to the destination with components `dst_tags`.
fn move_tag(
    symbols: &Symbols,
    store: &mut Store,
    src_tag: &str,
    src_tags: &TagCollection,
    dst_tags: TagCollection,
    uid: u32,
    gid: u32,
    umask: &UMask,
    now: Micros,
) -> (r: (Result<(), STagError>, Option<Note>))
    requires
        old(store)@.wf(),
    ensures
        final(store)@.wf(),
        note_view(r.1) == mv_tag_outcome(
            old(store)@,
            symbols@,
            src_tag@,
            src_tags.tag_seq(),
            dst_tags.tag_seq(),
            uid,
            gid,
            *umask,
            now,
        ).1,
        match r.0 {
            Ok(_) => mv_tag_outcome(
                old(store)@,
                symbols@,
                src_tag@,
                src_tags.tag_seq(),
                dst_tags.tag_seq(),
                uid,
                gid,
                *umask,
                now,
            ).0 == Ok::<StoreView, STagErrorView>(final(store)@),
            Err(e) => mv_tag_outcome(
                old(store)@,
                symbols@,
                src_tag@,
                src_tags.tag_seq(),
                dst_tags.tag_seq(),
                uid,
                gid,
                *umask,
                now,
            ).0 == Err::<StoreView, STagErrorView>(e@) && final(store)@ == old(store)@,
        },
{
    let mut dst_tags = dst_tags;
    let ghost d0 = dst_tags.tag_seq();
    if !store.tag_exists(src_tag) {
        return (Err(STagError::BadTag(String::from_str(src_tag))), None);
    }
    let same_name = match (src_tags.last(), dst_tags.last()) {
        (Some(a), Some(b)) => a.same_as(b),
        _ => false,
    };
    proof {
        if src_tags.tags@.len() > 0 {
            assert(src_tags.tag_seq().last() == src_tags.tags@.last()@);
        }
        if dst_tags.tags@.len() > 0 {
            assert(d0.last() == dst_tags.tags@.last()@);
        }
    }
    if same_name {
        dst_tags.pop();
        assert(dst_tags.tag_seq() =~= d0.drop_last());
    }
    let ghost d = dst_tags.tag_seq();
    assert(d == tag_destination(src_tags.tag_seq(), d0));
    let dir_perms = umask.dir_perms();
    let pt = match dst_tags.primary_type() {
        Ok(pt) => pt,
        Err(e) => {
            return (Err(e), None);
        },
    };
    assert(d.last() == pt@);
    match pt {
        TagType::Regular(new_name) => {
            if !store.tag_exists(new_name.as_str()) {
                match store.rename_tag(src_tag, new_name.as_str(), now) {
                    Ok(_) => (Ok(()), None),
                    Err(e) => (Err(STagError::DatabaseError(e)), None),
                }
            } else {
                let names = collect_regular_names(dst_tags.as_slice());
                match store.merge_tags(src_tag, src_tags.as_slice(), names.as_slice(), now) {
                    Ok(_) => (Ok(()), None),
                    Err(e) => (Err(STagError::DatabaseError(e)), None),
                }
            }
        },
        TagType::Group(new_name) => {
            if !creatable_tag_group(
                new_name.as_str(),
                symbols.tag_group_str.as_str(),
                symbols.filedir_str.as_str(),
            ) {
                return (Err(STagError::BadTagGroup(new_name.clone())), None);
            }
            let only: Vec<TagType> = vec![TagType::Regular(String::from_str(src_tag))];
            assert(tag_views(only@) =~= seq![TagTypeView::Regular(src_tag@)]);
            let tagged_files = store.files_tagged_with(only.as_slice());
            assert(file_rows(tagged_files@).len() == tagged_files@.len());
            if !store.tag_group_exists(new_name.as_str()) {
                if tagged_files.len() == 0 {
                    let snapshot = store.clone();
                    store.remove_tag(src_tag, now, true);
                    match store.ensure_tag_group(new_name.as_str(), uid, gid, &dir_perms, now) {
                        Ok(_) => (Ok(()), None),
                        Err(e) => {
                            *store = snapshot;
                            (Err(STagError::DatabaseError(e)), None)
                        },
                    }
                } else {
                    (
                        Err(STagError::BadTagGroup(new_name.clone())),
                        Some(Note::TagToTagGroup(String::from_str(src_tag))),
                    )
                }
            } else {
                let snapshot = store.clone();
                store.add_tag_to_group(src_tag, new_name.as_str(), uid, gid, &dir_perms, now);
                let mut pins = collect_pinnable(dst_tags.as_slice());
                if tagged_files.len() == 0 && pins.len() > 0 {
                    let ghost before = tag_views(pins@);
                    pins.push(TagType::Regular(String::from_str(src_tag)));
                    assert(tag_views(pins@) =~= before.push(TagTypeView::Regular(src_tag@)));
                    match store.pin_tags(pins.as_slice(), uid, gid, &dir_perms, now) {
                        Ok(_) => (Ok(()), None),
                        Err(e) => {
                            *store = snapshot;
                            (Err(STagError::DatabaseError(e)), None)
                        },
                    }
                } else {
                    (Ok(()), None)
                }
            }
        },
        _ => (Err(STagError::BadTag(String::from_str("unknown"))), None),
    }
}

/// Renames `src` to `dst`, both paths below the mount point. Returns the
/// note to post, if any. On an error the store is as it was.
pub fn move_or_merge(
    symbols: &Symbols,
    store: &mut Store,
    src: &str,
    dst: &str,
    uid: u32,
    gid: u32,
    umask: &UMask,
    now: Micros,
) -> (r: (Result<(), STagError>, Option<Note>))
    requires
        old(store)@.wf(),
    ensures
        final(store)@.wf(),
        note_view(r.1) == mv_outcome(old(store)@, symbols@, src@, dst@, uid, gid, *umask, now).1,
        match r.0 {
            Ok(_) => mv_outcome(old(store)@, symbols@, src@, dst@, uid, gid, *umask, now).0 == Ok::<
                StoreView,
                STagErrorView,
            >(final(store)@),
            Err(e) => mv_outcome(old(store)@, symbols@, src@, dst@, uid, gid, *umask, now).0
                == Err::<StoreView, STagErrorView>(e@) && final(store)@ == old(store)@,
        },
{
    let src_tags = TagCollection::new(symbols, src);
    let dst_tags = TagCollection::new(symbols, dst);
    let src_pt = match src_tags.primary_type() {
        Ok(pt) => pt,
        Err(e) => {
            return (Err(e), None);
        },
    };
    assert(src_tags.tag_seq().last() == src_pt@);
    match src_pt {
        TagType::DeviceFileSymlink(device_file) => {
            let new_name = match primary_tag(dst, symbols.device_char) {
                Ok(Some(n)) => n,
                _ => {
                    return (Err(STagError::InvalidPath(String::from_str(dst))), None);
                },
            };
            store.rename_file(device_file, new_name.as_str(), now);
            (Ok(()), None)
        },
        TagType::Symlink(primary) => {
            let new_name = match get_filename(dst) {
                Some(n) => n,
                None => {
                    return (Err(STagError::InvalidPath(String::from_str(dst))), None);
                },
            };
            let want = FileWanted::Named(primary.clone());
            match store.contains_file(src_tags.as_slice(), &want) {
                Some(tf) => {
                    let df = tf.to_device_file();
                    store.rename_file(&df, new_name.as_str(), now);
                    (Ok(()), None)
                },
                None => (Err(STagError::InvalidPath(String::from_str(src))), None),
            }
        },
        TagType::Regular(src_tag) => move_tag(
            symbols,
            store,
            src_tag.as_str(),
            &src_tags,
            dst_tags,
            uid,
            gid,
            umask,
            now,
        ),
        TagType::Group(tag_group) => {
            let dst_pt = match dst_tags.primary_type() {
                Ok(pt) => pt,
                Err(e) => {
                    return (Err(e), None);
                },
            };
            assert(dst_tags.tag_seq().last() == dst_pt@);
            match dst_pt {
                TagType::Group(new_name) | TagType::Regular(new_name) => {
                    match store.rename_tag_group(tag_group.as_str(), new_name.as_str(), now) {
                        Ok(_) => (Ok(()), None),
                        Err(StoreError::Constraint) => (
                            Err(STagError::PathExists(String::from_str(dst))),
                            None,
                        ),
                        Err(e) => (Err(STagError::DatabaseError(e)), None),
                    }
                },
                _ => (Err(STagError::InvalidPath(String::from_str(dst))), None),
            }
        },
        _ => (Err(STagError::InvalidPath(String::from_str(src))), None),
    }
}

} // verus!
