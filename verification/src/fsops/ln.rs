//! Linking a file under the tags of a path.

use crate::err::{STagError, STagErrorView};
use crate::notify::{note_view, Note, NoteView};
use crate::path::{components, components_of};
use crate::settings::{collection_of, path_tags, Settings};
use crate::sql::files::{added_record, str_opt_view};
use crate::sql::model::StoreView;
use crate::sql::types::TaggedFile;
use crate::sql::Store;
use crate::types::file_perms::UMask;
use crate::types::{collect_regular_names, regular_names, Micros, TagCollection};
use vstd::prelude::*;

verus! {

/// The device in a pair of device and inode.
pub open spec fn device_of(src_id: Option<(u64, u64)>) -> u64 {
    match src_id {
        Some((d, _)) => d,
        None => 0,
    }
}

/// The inode in a pair of device and inode.
pub open spec fn inode_of(src_id: Option<(u64, u64)>) -> u64 {
    match src_id {
        Some((_, i)) => i,
        None => 0,
    }
}

/// Whether the source of a link lies in the collection that is mounted.
pub open spec fn is_recursive(settings: &Settings, src: Seq<char>) -> bool {
    settings.collection is Some && collection_of(src, settings.config.mount.base_dir@) == Some(
        settings.collection->0@,
    )
}

/// What linking a file under a path does. A source inside the collection
/// itself is refused. A path without components is refused, with a note
/// that the file was dragged to the root. A source whose device and inode
/// are not known is refused. Else the file is added under the tags of
/// the path.
pub open spec fn ln_outcome(
    s: StoreView,
    settings: &Settings,
    src: Seq<char>,
    rel_dst: Seq<char>,
    primary_tag: Seq<char>,
    uid: u32,
    gid: u32,
    umask: UMask,
    alias_file: Option<Seq<char>>,
    src_id: Option<(u64, u64)>,
    now: Micros,
) -> (Result<StoreView, STagErrorView>, Option<NoteView>) {
    if is_recursive(settings, src) {
        (Err(STagErrorView::RecursiveLink(src)), None)
    } else if components(rel_dst).len() == 0 {
        (Err(STagErrorView::InvalidPath(rel_dst)), Some(NoteView::DraggedToRoot))
    } else {
        match src_id {
            None => (Err(STagErrorView::Other(src)), None),
            Some((device, inode)) => (
                crate::fsops::wrapped(
                    s.added_file(
                        device,
                        inode,
                        src,
                        primary_tag,
                        regular_names(path_tags(rel_dst, settings.config.symbols@)),
                        uid,
                        gid,
                        umask,
                        now,
                        alias_file,
                    ),
                ),
                None,
            ),
        }
    }
}

/// Links the file `src` under the tags of `rel_dst`, a path below the
/// mount point. `src_id` holds the device and inode of the source, where
/// they could be read. Returns one record for each tag, and the note to
/// post, if any. On an error the store is as it was.
pub fn ln(
    settings: &Settings,
    store: &mut Store,
    src: &str,
    rel_dst: &str,
    primary_tag: &str,
    uid: u32,
    gid: u32,
    umask: &UMask,
    alias_file: Option<&str>,
    src_id: Option<(u64, u64)>,
    now: Micros,
) -> (r: (Result<Vec<TaggedFile>, STagError>, Option<Note>))
    requires
        old(store)@.wf(),
    ensures
        final(store)@.wf(),
        note_view(r.1) == ln_outcome(
            old(store)@,
            settings,
            src@,
            rel_dst@,
            primary_tag@,
            uid,
            gid,
            *umask,
            str_opt_view(alias_file),
            src_id,
            now,
        ).1,
        match r.0 {
            Ok(tagged) => ln_outcome(
                old(store)@,
                settings,
                src@,
                rel_dst@,
                primary_tag@,
                uid,
                gid,
                *umask,
                str_opt_view(alias_file),
                src_id,
                now,
            ).0 == Ok::<StoreView, STagErrorView>(final(store)@) && src_id is Some
                && tagged@.len() == regular_names(
                path_tags(rel_dst@, settings.config.symbols@),
            ).len() && forall|k: int|
                0 <= k < tagged@.len() ==> (#[trigger] tagged@[k])@ == added_record(
                    device_of(src_id),
                    inode_of(src_id),
                    src@,
                    primary_tag@,
                    uid,
                    gid,
                    *umask,
                    now,
                    str_opt_view(alias_file),
                ),
            Err(e) => ln_outcome(
                old(store)@,
                settings,
                src@,
                rel_dst@,
                primary_tag@,
                uid,
                gid,
                *umask,
                str_opt_view(alias_file),
                src_id,
                now,
            ).0 == Err::<StoreView, STagErrorView>(e@) && final(store)@ == old(store)@,
        },
{
    if settings.in_own_collection(src) {
        return (Err(STagError::RecursiveLink(String::from_str(src))), None);
    }
    let parts = components_of(rel_dst);
    if parts.len() == 0 {
        return (Err(STagError::InvalidPath(String::from_str(rel_dst))), Some(Note::DraggedToRoot));
    }
    let (device, inode) = match src_id {
        Some(id) => id,
        None => {
            return (Err(STagError::Other(String::from_str(src))), None);
        },
    };
    let tag_parts = TagCollection::new(&settings.config.symbols, rel_dst);
    let tags = collect_regular_names(tag_parts.as_slice());
    match store.add_file(
        device,
        inode,
        src,
        primary_tag,
        tags.as_slice(),
        uid,
        gid,
        umask,
        now,
        alias_file,
    ) {
        Ok(tagged) => (Ok(tagged), None),
        Err(e) => (Err(STagError::DatabaseError(e)), None),
    }
}

} // verus!
