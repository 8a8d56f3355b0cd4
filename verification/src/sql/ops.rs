//! The changes that the file system asks of the store: adding a file
//! under tags, unlinking it, removing a tag from an intersection, merging
//! tags, pinning a path.

use crate::err::StoreError;
use crate::sql::files::{added_record, lemma_linked_all_prefix, str_opt_view};
use crate::sql::model::{
    file_ids, find_first, group_ids, group_names, lemma_find_first, linked, step_exists, tag_ids,
    tag_names, Link, StoreView,
};
use crate::sql::mutate::lemma_with_link_wf;
use crate::sql::query::{contains_id, first_wanted, FileWanted, FileWantedView};
use crate::sql::types::{file_rows, tag_rows, TaggedFile, TaggedFileView};
use crate::sql::{pin_views, Store};
use crate::text::views_of;
use crate::types::file_perms::{Permissions, UMask};
use crate::types::{
    collect_regular_names, regular_names, tag_views, DeviceFile, Micros, TagType, TagTypeView,
};
use vstd::prelude::*;

verus! {

/// The ids of the files.
pub open spec fn ids_of_files(files: Seq<TaggedFileView>) -> Seq<i64> {
    files.map_values(|f: TaggedFileView| f.id)
}

impl StoreView {
    /// What unlinking a device file from tags does: the file of that
    /// device and inode loses its links to the named tags. Refused where
    /// no such file exists.
    pub open spec fn removed_devicefile(
        self,
        device: u64,
        inode: u64,
        tags: Seq<Seq<char>>,
        now: Micros,
    ) -> Result<StoreView, StoreError> {
        match self.file_at(device, inode) {
            None => Err(StoreError::NoRows),
            Some(f) => Ok(
                self.without_links(Some(seq![f.id]), Some(self.ids_of_names(tags))).with_root(now),
            ),
        }
    }

    /// What unlinking a file by name does: the first file of that name at
    /// the path loses its links to the tags of the path. Nothing changes
    /// where no such file stands there.
    pub open spec fn removed_links(
        self,
        primary_tag: Seq<char>,
        tags: Seq<TagTypeView>,
        now: Micros,
    ) -> StoreView {
        match first_wanted(self.files_at(tags), FileWantedView::Named(primary_tag)) {
            Some(tf) => self.without_links(
                Some(seq![tf.id]),
                Some(self.ids_of_names(regular_names(tags))),
            ).with_root(now),
            None => self,
        }
    }

    /// What removing a tag from an intersection does: every file at the
    /// path loses its link to the tag. Refused where the tag does not
    /// exist.
    pub open spec fn removed_from_intersection(
        self,
        tag: Seq<char>,
        intersect: Seq<TagTypeView>,
        now: Micros,
    ) -> Result<StoreView, StoreError> {
        match self.tag_named(tag) {
            None => Err(StoreError::NoRows),
            Some(t) => Ok(
                self.without_links(
                    Some(ids_of_files(self.files_at(intersect))),
                    Some(seq![t.id]),
                ).with_root(now),
            ),
        }
    }

    /// What removing a tag group from an intersection does: every tag
    /// that shows below the path leaves the group. Refused where the
    /// group does not exist.
    pub open spec fn group_removed_from_intersection(
        self,
        group: Seq<char>,
        intersect: Seq<TagTypeView>,
        now: Micros,
    ) -> Result<StoreView, StoreError> {
        match self.group_named(group) {
            None => Err(StoreError::NoRows),
            Some(g) => Ok(
                self.without_members(
                    Some(seq![g.id]),
                    Some(tag_ids(self.tags_below(intersect, true))),
                ).with_root(now),
            ),
        }
    }

    /// What linking each of the files to a tag does. A file that is
    /// linked to it already, or that is no file of the store, is passed
    /// over. Each link gets the owner and permissions that the file shows.
    pub open spec fn with_links_of(
        self,
        files: Seq<TaggedFileView>,
        tag_id: i64,
        now: Micros,
    ) -> Result<StoreView, StoreError>
        decreases files.len(),
    {
        if files.len() == 0 {
            Ok(self)
        } else {
            match self.with_links_of(files.drop_last(), tag_id, now) {
                Err(e) => Err(e),
                Ok(s) => {
                    let f = files.last();
                    if linked(s.links, f.id, tag_id) || !file_ids(s.files).contains(f.id)
                        || !tag_ids(s.tags).contains(tag_id) {
                        Ok(s)
                    } else if s.links.len() >= i64::MAX {
                        Err(StoreError::Full)
                    } else {
                        Ok(s.with_link(f.id, tag_id, f.uid, f.gid, f.permissions, now))
                    }
                },
            }
        }
    }

    /// What linking each of the files to each of the named tags does. A
    /// name that no tag has is passed over. Each tag is touched.
    pub open spec fn merged_into(
        self,
        files: Seq<TaggedFileView>,
        dst: Seq<Seq<char>>,
        now: Micros,
    ) -> Result<StoreView, StoreError>
        decreases dst.len(),
    {
        if dst.len() == 0 {
            Ok(self)
        } else {
            match self.merged_into(files, dst.drop_last(), now) {
                Err(e) => Err(e),
                Ok(s) => match s.tag_named(dst.last()) {
                    Some(t) => match s.with_links_of(files, t.id, now) {
                        Err(e) => Err(e),
                        Ok(s2) => Ok(s2.touch_tag(dst.last(), now)),
                    },
                    None => Ok(s),
                },
            }
        }
    }

    /// What merging a tag into others does: every file at the source path
    /// loses the source tag and gains each of the destination tags.
    /// Refused where the source tag does not exist.
    pub open spec fn merged(
        self,
        src_tag: Seq<char>,
        src_tags: Seq<TagTypeView>,
        dst_tags: Seq<Seq<char>>,
        now: Micros,
    ) -> Result<StoreView, StoreError> {
        match self.removed_from_intersection(src_tag, src_tags, now) {
            Err(e) => Err(e),
            Ok(cut) => match cut.merged_into(self.files_at(src_tags), dst_tags, now) {
                Err(e) => Err(e),
                Ok(s) => Ok(s.with_root(now)),
            },
        }
    }

    /// What making sure of every tag and tag group of a path does.
    pub open spec fn ensured_all(
        self,
        tags: Seq<TagTypeView>,
        uid: u32,
        gid: u32,
        permissions: Permissions,
        now: Micros,
    ) -> Result<StoreView, StoreError>
        decreases tags.len(),
    {
        if tags.len() == 0 {
            Ok(self)
        } else {
            match self.ensured_all(tags.drop_last(), uid, gid, permissions, now) {
                Err(e) => Err(e),
                Ok(s) => match tags.last() {
                    TagTypeView::Regular(n) => s.ensured_tag(n, uid, gid, permissions, now),
                    TagTypeView::Group(n) => s.ensured_group(n, uid, gid, permissions, now),
                    _ => Ok(s),
                },
            }
        }
    }

    /// Where a path ends in a tag group and then a tag, the tag joins the
    /// group.
    pub open spec fn with_tail_grouped(
        self,
        tags: Seq<TagTypeView>,
        uid: u32,
        gid: u32,
        permissions: Permissions,
        now: Micros,
    ) -> StoreView {
        if tags.len() >= 2 && tags.last() is Regular && tags[tags.len() - 2] is Group {
            self.with_member(
                tags.last()->Regular_0,
                tags[tags.len() - 2]->Group_0,
                uid,
                gid,
                permissions,
                now,
            )
        } else {
            self
        }
    }

    /// What pinning a path does: every tag and tag group of the path is
    /// made sure of; where the path ends in a tag group and then a tag,
    /// the tag joins the group; the steps of the path are kept as a pin.
    pub open spec fn pinned_with(
        self,
        tags: Seq<TagTypeView>,
        uid: u32,
        gid: u32,
        permissions: Permissions,
        now: Micros,
    ) -> Result<StoreView, StoreError> {
        match self.ensured_all(tags, uid, gid, permissions, now) {
            Err(e) => Err(e),
            Ok(s) => {
                let s2 = s.with_tail_grouped(tags, uid, gid, permissions, now);
                match s2.pin_steps(tags) {
                    Some(steps) => Ok(
                        StoreView { pins: s2.pins.push(steps), root_mtime: now, ..s2 },
                    ),
                    None => Ok(s2.with_root(now)),
                }
            },
        }
    }
}

/// Linking files fails where linking the first of them does.
pub proof fn lemma_with_links_prefix(
    s: StoreView,
    files: Seq<TaggedFileView>,
    tag_id: i64,
    now: Micros,
    k: int,
)
    requires
        0 <= k <= files.len(),
        s.with_links_of(files.take(k), tag_id, now) is Err,
    ensures
        s.with_links_of(files, tag_id, now) == s.with_links_of(files.take(k), tag_id, now),
    decreases files.len() - k,
{
    if k < files.len() {
        assert(files.take(k + 1).drop_last() =~= files.take(k));
        lemma_with_links_prefix(s, files, tag_id, now, k + 1);
    } else {
        assert(files.take(k) =~= files);
    }
}

/// Merging into tags fails where merging into the first of them does.
pub proof fn lemma_merged_into_prefix(
    s: StoreView,
    files: Seq<TaggedFileView>,
    dst: Seq<Seq<char>>,
    now: Micros,
    k: int,
)
    requires
        0 <= k <= dst.len(),
        s.merged_into(files, dst.take(k), now) is Err,
    ensures
        s.merged_into(files, dst, now) == s.merged_into(files, dst.take(k), now),
    decreases dst.len() - k,
{
    if k < dst.len() {
        assert(dst.take(k + 1).drop_last() =~= dst.take(k));
        lemma_merged_into_prefix(s, files, dst, now, k + 1);
    } else {
        assert(dst.take(k) =~= dst);
    }
}

/// Making sure of a path fails where making sure of its beginning does.
pub proof fn lemma_ensured_all_prefix(
    s: StoreView,
    tags: Seq<TagTypeView>,
    uid: u32,
    gid: u32,
    permissions: Permissions,
    now: Micros,
    k: int,
)
    requires
        0 <= k <= tags.len(),
        s.ensured_all(tags.take(k), uid, gid, permissions, now) is Err,
    ensures
        s.ensured_all(tags, uid, gid, permissions, now) == s.ensured_all(
            tags.take(k),
            uid,
            gid,
            permissions,
            now,
        ),
    decreases tags.len() - k,
{
    if k < tags.len() {
        assert(tags.take(k + 1).drop_last() =~= tags.take(k));
        lemma_ensured_all_prefix(s, tags, uid, gid, permissions, now, k + 1);
    } else {
        assert(tags.take(k) =~= tags);
    }
}

/// Every step of a path names a row that exists.
pub proof fn lemma_pin_steps_exist(s: StoreView, tags: Seq<TagTypeView>)
    requires
        s.pin_steps(tags) is Some,
    ensures
        forall|k: int|
            0 <= k < s.pin_steps(tags)->0.len() ==> step_exists(
                #[trigger] s.pin_steps(tags)->0[k],
                s.tags,
                s.groups,
            ),
    decreases tags.len(),
{
    if tags.len() > 0 {
        lemma_pin_steps_exist(s, tags.drop_last());
        let head = s.pin_steps(tags.drop_last())->0;
        let all = s.pin_steps(tags)->0;
        match tags.last() {
            TagTypeView::Regular(n) => {
                lemma_find_first(tag_names(s.tags), n);
                let i = find_first(tag_names(s.tags), n)->0;
                assert(tag_ids(s.tags)[i] == s.tags[i].id);
            },
            TagTypeView::Group(n) => {
                lemma_find_first(group_names(s.groups), n);
                let i = find_first(group_names(s.groups), n)->0;
                assert(group_ids(s.groups)[i] == s.groups[i].id);
            },
            _ => {},
        }
        assert forall|k: int| 0 <= k < all.len() implies step_exists(
            #[trigger] all[k],
            s.tags,
            s.groups,
        ) by {
            if k < head.len() {
                assert(all[k] == head[k]);
            }
        }
    }
}

impl Store {
    /// The ids of the tags of the given names, for those that exist.
    pub fn ids_of_names(&self, names: &[String]) -> (ids: Vec<i64>)
        ensures
            ids@ == self@.ids_of_names(views_of(names@)),
    {
        let ghost f = |n: Seq<char>|
            match self@.tag_named(n) {
                Some(t) => Some(t.id),
                None => None,
            };
        let ghost all = views_of(names@);
        let mut ids: Vec<i64> = Vec::new();
        let mut i: usize = 0;
        assert(all.take(0).filter_map(f) =~= Seq::<i64>::empty());
        while i < names.len()
            invariant
                i <= names.len(),
                all == views_of(names@),
                f == (|n: Seq<char>|
                    match self@.tag_named(n) {
                        Some(t) => Some(t.id),
                        None => None,
                    }),
                ids@ == all.take(i as int).filter_map(f),
            decreases names.len() - i,
        {
            assert(all.take(i + 1).drop_last() =~= all.take(i as int));
            assert(all.take(i + 1).last() == names@[i as int]@);
            match self.find_tag(names[i].as_str()) {
                Some(t) => {
                    ids.push(self.tags[t].id);
                },
                None => {},
            }
            assert(ids@ =~= all.take(i + 1).filter_map(f));
            i += 1;
        }
        assert(all.take(names.len() as int) =~= all);
        ids
    }

    /// The ids of those of the named tags that the file is linked to.
    pub fn linked_ids(&self, file_id: i64, names: &[String]) -> (ids: Vec<i64>)
        ensures
            ids@ == self@.linked_ids(file_id, views_of(names@)),
    {
        let ghost f = |n: Seq<char>|
            match self@.tag_named(n) {
                Some(t) => if linked(self@.links, file_id, t.id) {
                    Some(t.id)
                } else {
                    None
                },
                None => None,
            };
        let ghost all = views_of(names@);
        let mut ids: Vec<i64> = Vec::new();
        let mut i: usize = 0;
        assert(all.take(0).filter_map(f) =~= Seq::<i64>::empty());
        while i < names.len()
            invariant
                i <= names.len(),
                all == views_of(names@),
                f == (|n: Seq<char>|
                    match self@.tag_named(n) {
                        Some(t) => if linked(self@.links, file_id, t.id) {
                            Some(t.id)
                        } else {
                            None
                        },
                        None => None,
                    }),
                ids@ == all.take(i as int).filter_map(f),
            decreases names.len() - i,
        {
            assert(all.take(i + 1).drop_last() =~= all.take(i as int));
            assert(all.take(i + 1).last() == names@[i as int]@);
            match self.find_tag(names[i].as_str()) {
                Some(t) => {
                    if self.is_linked(file_id, self.tags[t].id) {
                        ids.push(self.tags[t].id);
                    }
                },
                None => {},
            }
            assert(ids@ =~= all.take(i + 1).filter_map(f));
            i += 1;
        }
        assert(all.take(names.len() as int) =~= all);
        ids
    }

    /// Adds a file under tags: the file is added where it is new, and
    /// each tag is made sure of and linked to the file. Returns one
    /// record for each tag. Fails, leaving the store as it was, where an
    /// id runs out or where another file has the path.
    pub fn add_file(
        &mut self,
        device_id: u64,
        inode: u64,
        path: &str,
        primary_tag: &str,
        tags: &[String],
        uid: u32,
        gid: u32,
        umask: &UMask,
        now: Micros,
        alias_file: Option<&str>,
    ) -> (r: Result<Vec<TaggedFile>, StoreError>)
        requires
            old(self)@.wf(),
        ensures
            final(self)@.wf(),
            match r {
                Ok(tagged) => old(self)@.added_file(
                    device_id,
                    inode,
                    path@,
                    primary_tag@,
                    views_of(tags@),
                    uid,
                    gid,
                    *umask,
                    now,
                    str_opt_view(alias_file),
                ) == Ok::<StoreView, StoreError>(final(self)@) && tagged@.len() == tags@.len()
                    && forall|k: int|
                    0 <= k < tagged@.len() ==> (#[trigger] tagged@[k])@ == added_record(
                        device_id,
                        inode,
                        path@,
                        primary_tag@,
                        uid,
                        gid,
                        *umask,
                        now,
                        str_opt_view(alias_file),
                    ),
                Err(e) => old(self)@.added_file(
                    device_id,
                    inode,
                    path@,
                    primary_tag@,
                    views_of(tags@),
                    uid,
                    gid,
                    *umask,
                    now,
                    str_opt_view(alias_file),
                ) == Err::<StoreView, StoreError>(e) && final(self)@ == old(self)@,
            },
    {
        let snapshot = self.clone();
        match self.insert_file(device_id, inode, path, primary_tag, now, alias_file) {
            Err(e) => {
                return Err(e);
            },
            Ok(_) => {},
        }
        let ghost start = self@;
        let ghost names = views_of(tags@);
        let dir_perms = umask.dir_perms();
        let file_perms = umask.file_perms();
        let mut tagged: Vec<TaggedFile> = Vec::new();
        let mut i: usize = 0;
        assert(names.take(0) =~= Seq::<Seq<char>>::empty());
        while i < tags.len()
            invariant
                i <= tags.len(),
                self@.wf(),
                names == views_of(tags@),
                snapshot@ == old(self)@,
                old(self)@.wf(),
                old(self)@.with_file(
                    device_id,
                    inode,
                    path@,
                    primary_tag@,
                    now,
                    str_opt_view(alias_file),
                ) == Ok::<StoreView, StoreError>(start),
                dir_perms == crate::types::file_perms::perms_of((0o777u32 & !umask.0) as nat),
                file_perms == crate::types::file_perms::perms_of((0o666u32 & !umask.0) as nat),
                start.linked_all(device_id, inode, names.take(i as int), uid, gid, *umask, now)
                    == Ok::<StoreView, StoreError>(self@),
                tagged@.len() == i,
                forall|k: int|
                    0 <= k < tagged@.len() ==> (#[trigger] tagged@[k])@ == added_record(
                        device_id,
                        inode,
                        path@,
                        primary_tag@,
                        uid,
                        gid,
                        *umask,
                        now,
                        str_opt_view(alias_file),
                    ),
            decreases tags.len() - i,
        {
            assert(names.take(i + 1).drop_last() =~= names.take(i as int));
            assert(names.take(i + 1).last() == tags@[i as int]@);
            let tag = tags[i].as_str();
            let auth_tag = match self.ensure_tag(tag, uid, gid, &dir_perms, now) {
                Ok((auth, _)) => auth,
                Err(e) => {
                    proof {
                        lemma_linked_all_prefix(
                            start,
                            device_id,
                            inode,
                            names,
                            uid,
                            gid,
                            *umask,
                            now,
                            i + 1,
                        );
                    }
                    *self = snapshot;
                    return Err(e);
                },
            };
            match self.link_file_to_tag(
                device_id,
                inode,
                auth_tag.as_str(),
                uid,
                gid,
                &file_perms,
                now,
            ) {
                Ok(_) => {},
                Err(e) => {
                    proof {
                        lemma_linked_all_prefix(
                            start,
                            device_id,
                            inode,
                            names,
                            uid,
                            gid,
                            *umask,
                            now,
                            i + 1,
                        );
                    }
                    *self = snapshot;
                    return Err(e);
                },
            }
            tagged.push(
                TaggedFile {
                    id: 0,
                    inode,
                    device: device_id,
                    path: String::from_str(path),
                    primary_tag: String::from_str(primary_tag),
                    mtime: now,
                    uid,
                    gid,
                    permissions: file_perms,
                    alias_file: match alias_file {
                        Some(a) => Some(String::from_str(a)),
                        None => None,
                    },
                },
            );
            i += 1;
        }
        assert(names.take(tags.len() as int) =~= names);
        self.update_root_mtime(now);
        Ok(tagged)
    }

    /// Unlinks the file of the device file's device and inode from the
    /// named tags. Returns the ids of the tags that it was linked to.
    /// Fails, leaving the store as it was, where no such file exists.
    pub fn remove_devicefile(&mut self, device_file: &DeviceFile, tags: &[String], now: Micros) -> (r:
        Result<Vec<i64>, StoreError>)
        requires
            old(self)@.wf(),
        ensures
            final(self)@.wf(),
            match r {
                Ok(removed) => old(self)@.removed_devicefile(
                    device_file.device,
                    device_file.inode,
                    views_of(tags@),
                    now,
                ) == Ok::<StoreView, StoreError>(final(self)@) && removed@ == old(self)@.linked_ids(
                    old(self)@.file_at(device_file.device, device_file.inode)->0.id,
                    views_of(tags@),
                ),
                Err(e) => old(self)@.removed_devicefile(
                    device_file.device,
                    device_file.inode,
                    views_of(tags@),
                    now,
                ) == Err::<StoreView, StoreError>(e) && final(self)@ == old(self)@,
            },
    {
        let f = match self.find_file(device_file.device, device_file.inode) {
            Some(f) => f,
            None => {
                return Err(StoreError::NoRows);
            },
        };
        let file_id = self.files[f].id;
        let removed = self.linked_ids(file_id, tags);
        let tids = self.ids_of_names(tags);
        let fids: Vec<i64> = vec![file_id];
        assert(fids@ =~= seq![file_id]);
        self.drop_links(Some(&fids), Some(&tids));
        self.update_root_mtime(now);
        Ok(removed)
    }

    /// Unlinks the first file of the given name at the path from the
    /// tags of the path. Returns the ids of the tags that it was linked
    /// to.
    pub fn remove_links(&mut self, primary_tag: &str, tags: &[TagType], now: Micros) -> (removed: Vec<
        i64,
    >)
        requires
            old(self)@.wf(),
        ensures
            final(self)@.wf(),
            final(self)@ == old(self)@.removed_links(primary_tag@, tag_views(tags@), now),
            removed@ == (match first_wanted(
                old(self)@.files_at(tag_views(tags@)),
                FileWantedView::Named(primary_tag@),
            ) {
                Some(tf) => old(self)@.linked_ids(tf.id, regular_names(tag_views(tags@))),
                None => Seq::empty(),
            }),
    {
        let want = FileWanted::Named(String::from_str(primary_tag));
        match self.contains_file(tags, &want) {
            Some(tf) => {
                let names = collect_regular_names(tags);
                let removed = self.linked_ids(tf.id, names.as_slice());
                let tids = self.ids_of_names(names.as_slice());
                let fids: Vec<i64> = vec![tf.id];
                assert(fids@ =~= seq![tf.id]);
                self.drop_links(Some(&fids), Some(&tids));
                self.update_root_mtime(now);
                removed
            },
            None => Vec::new(),
        }
    }

    /// Takes a tag from every file at the path. Returns the files.
    /// Fails, leaving the store as it was, where the tag does not exist.
    pub fn remove_tag_from_intersection(&mut self, tag: &str, intersect: &[TagType], now: Micros) -> (r:
        Result<Vec<TaggedFile>, StoreError>)
        requires
            old(self)@.wf(),
        ensures
            final(self)@.wf(),
            match r {
                Ok(files) => old(self)@.removed_from_intersection(
                    tag@,
                    tag_views(intersect@),
                    now,
                ) == Ok::<StoreView, StoreError>(final(self)@) && file_rows(files@)
                    == old(self)@.files_at(tag_views(intersect@)),
                Err(e) => old(self)@.removed_from_intersection(tag@, tag_views(intersect@), now)
                    == Err::<StoreView, StoreError>(e) && final(self)@ == old(self)@,
            },
    {
        let files = self.files_tagged_with(intersect);
        let tag_id = match self.get_tag_id(tag) {
            Some(id) => id,
            None => {
                return Err(StoreError::NoRows);
            },
        };
        let mut fids: Vec<i64> = Vec::new();
        let mut i: usize = 0;
        while i < files.len()
            invariant
                i <= files.len(),
                fids@ =~= ids_of_files(file_rows(files@)).take(i as int),
            decreases files.len() - i,
        {
            fids.push(files[i].id);
            i += 1;
        }
        assert(ids_of_files(file_rows(files@)).take(files.len() as int) =~= ids_of_files(
            file_rows(files@),
        ));
        let tids: Vec<i64> = vec![tag_id];
        assert(tids@ =~= seq![tag_id]);
        self.drop_links(Some(&fids), Some(&tids));
        self.update_root_mtime(now);
        Ok(files)
    }

    /// Takes every tag that shows below the path out of the tag group.
    /// Fails, leaving the store as it was, where the group does not
    /// exist.
    pub fn remove_taggroup_from_itersection(
        &mut self,
        group: &str,
        intersect: &[TagType],
        now: Micros,
    ) -> (r: Result<(), StoreError>)
        requires
            old(self)@.wf(),
        ensures
            final(self)@.wf(),
            match r {
                Ok(_) => old(self)@.group_removed_from_intersection(
                    group@,
                    tag_views(intersect@),
                    now,
                ) == Ok::<StoreView, StoreError>(final(self)@),
                Err(e) => old(self)@.group_removed_from_intersection(
                    group@,
                    tag_views(intersect@),
                    now,
                ) == Err::<StoreView, StoreError>(e) && final(self)@ == old(self)@,
            },
    {
        let tg_id = match self.get_tag_group_id(group) {
            Some(id) => id,
            None => {
                return Err(StoreError::NoRows);
            },
        };
        let isect_tags = self.intersect_tag(intersect, true);
        let mut tids: Vec<i64> = Vec::new();
        let mut i: usize = 0;
        while i < isect_tags.len()
            invariant
                i <= isect_tags.len(),
                tids@ =~= tag_ids(tag_rows(isect_tags@)).take(i as int),
            decreases isect_tags.len() - i,
        {
            tids.push(isect_tags[i].id);
            i += 1;
        }
        assert(tag_ids(tag_rows(isect_tags@)).take(isect_tags.len() as int) =~= tag_ids(
            tag_rows(isect_tags@),
        ));
        let gids: Vec<i64> = vec![tg_id];
        assert(gids@ =~= seq![tg_id]);
        self.drop_members(Some(&gids), Some(&tids));
        self.update_root_mtime(now);
        Ok(())
    }

    /// Links each of the files to the tag of the given id.
    fn link_files(&mut self, files: &Vec<TaggedFile>, tag_id: i64, now: Micros) -> (r: Result<
        (),
        StoreError,
    >)
        requires
            old(self)@.wf(),
        ensures
            final(self)@.wf(),
            match r {
                Ok(_) => old(self)@.with_links_of(file_rows(files@), tag_id, now) == Ok::<
                    StoreView,
                    StoreError,
                >(final(self)@),
                Err(e) => old(self)@.with_links_of(file_rows(files@), tag_id, now) == Err::<
                    StoreView,
                    StoreError,
                >(e),
            },
    {
        let ghost all = file_rows(files@);
        let ids = self.file_id_list();
        let tids = self.tag_id_list();
        let has_tag = contains_id(tids.as_slice(), tag_id);
        let mut i: usize = 0;
        assert(all.take(0) =~= Seq::<TaggedFileView>::empty());
        while i < files.len()
            invariant
                i <= files.len(),
                self@.wf(),
                all == file_rows(files@),
                ids@ == file_ids(self@.files),
                tids@ == tag_ids(self@.tags),
                has_tag == tag_ids(self@.tags).contains(tag_id),
                old(self)@.with_links_of(all.take(i as int), tag_id, now) == Ok::<
                    StoreView,
                    StoreError,
                >(self@),
            decreases files.len() - i,
        {
            assert(all.take(i + 1).drop_last() =~= all.take(i as int));
            assert(all.take(i + 1).last() == files@[i as int]@);
            let f = &files[i];
            if has_tag && contains_id(ids.as_slice(), f.id) && !self.is_linked(f.id, tag_id) {
                if self.links.len() as u64 >= 0x7fff_ffff_ffff_ffffu64 {
                    proof {
                        lemma_with_links_prefix(old(self)@, all, tag_id, now, i + 1);
                    }
                    return Err(StoreError::Full);
                }
                proof {
                    lemma_with_link_wf(self@, f.id, tag_id, f.uid, f.gid, f.permissions, now);
                }
                self.push_link(
                    Link {
                        file_id: f.id,
                        tag_id,
                        mtime: now,
                        uid: f.uid,
                        gid: f.gid,
                        permissions: f.permissions,
                    },
                );
                assert(tag_ids(self@.tags) =~= tids@);
            }
            i += 1;
        }
        assert(all.take(files.len() as int) =~= all);
        Ok(())
    }

    /// Takes the source tag from every file at the source path and gives
    /// each of those files every one of the destination tags. Fails,
    /// leaving the store as it was, where the source tag does not exist
    /// or the table of links is full.
    pub fn merge_tags(
        &mut self,
        src_tag: &str,
        src_tags: &[TagType],
        dst_tags: &[String],
        now: Micros,
    ) -> (r: Result<(), StoreError>)
        requires
            old(self)@.wf(),
        ensures
            final(self)@.wf(),
            match r {
                Ok(_) => old(self)@.merged(src_tag@, tag_views(src_tags@), views_of(dst_tags@), now)
                    == Ok::<StoreView, StoreError>(final(self)@),
                Err(e) => old(self)@.merged(
                    src_tag@,
                    tag_views(src_tags@),
                    views_of(dst_tags@),
                    now,
                ) == Err::<StoreView, StoreError>(e) && final(self)@ == old(self)@,
            },
    {
        let snapshot = self.clone();
        let removed = match self.remove_tag_from_intersection(src_tag, src_tags, now) {
            Ok(files) => files,
            Err(e) => {
                return Err(e);
            },
        };
        let ghost cut = self@;
        let ghost files = file_rows(removed@);
        let ghost dst = views_of(dst_tags@);
        let mut i: usize = 0;
        assert(dst.take(0) =~= Seq::<Seq<char>>::empty());
        while i < dst_tags.len()
            invariant
                i <= dst_tags.len(),
                self@.wf(),
                snapshot@ == old(self)@,
                old(self)@.wf(),
                old(self)@.removed_from_intersection(src_tag@, tag_views(src_tags@), now) == Ok::<
                    StoreView,
                    StoreError,
                >(cut),
                files == old(self)@.files_at(tag_views(src_tags@)),
                files == file_rows(removed@),
                dst == views_of(dst_tags@),
                cut.merged_into(files, dst.take(i as int), now) == Ok::<StoreView, StoreError>(
                    self@,
                ),
            decreases dst_tags.len() - i,
        {
            assert(dst.take(i + 1).drop_last() =~= dst.take(i as int));
            assert(dst.take(i + 1).last() == dst_tags@[i as int]@);
            let new_tag = dst_tags[i].as_str();
            match self.get_tag_id(new_tag) {
                Some(tag_id) => {
                    match self.link_files(&removed, tag_id, now) {
                        Ok(_) => {},
                        Err(e) => {
                            proof {
                                lemma_merged_into_prefix(cut, files, dst, now, i + 1);
                            }
                            *self = snapshot;
                            return Err(e);
                        },
                    }
                    self.update_tag_mtime(new_tag, now);
                },
                None => {},
            }
            i += 1;
        }
        assert(dst.take(dst_tags.len() as int) =~= dst);
        self.update_root_mtime(now);
        Ok(())
    }

    /// Pins a path: makes sure of each of its tags and tag groups, puts
    /// the last tag into the tag group that stands right before it, and
    /// keeps the steps of the path. Fails, leaving the store as it was,
    /// where an id runs out.
    pub fn pin_tags(
        &mut self,
        tags: &[TagType],
        uid: u32,
        gid: u32,
        permissions: &Permissions,
        now: Micros,
    ) -> (r: Result<(), StoreError>)
        requires
            old(self)@.wf(),
        ensures
            final(self)@.wf(),
            match r {
                Ok(_) => old(self)@.pinned_with(tag_views(tags@), uid, gid, *permissions, now)
                    == Ok::<StoreView, StoreError>(final(self)@),
                Err(e) => old(self)@.pinned_with(tag_views(tags@), uid, gid, *permissions, now)
                    == Err::<StoreView, StoreError>(e) && final(self)@ == old(self)@,
            },
    {
        let snapshot = self.clone();
        let ghost tv = tag_views(tags@);
        let mut i: usize = 0;
        assert(tv.take(0) =~= Seq::<TagTypeView>::empty());
        while i < tags.len()
            invariant
                i <= tags.len(),
                self@.wf(),
                snapshot@ == old(self)@,
                old(self)@.wf(),
                tv == tag_views(tags@),
                old(self)@.ensured_all(tv.take(i as int), uid, gid, *permissions, now) == Ok::<
                    StoreView,
                    StoreError,
                >(self@),
            decreases tags.len() - i,
        {
            assert(tv.take(i + 1).drop_last() =~= tv.take(i as int));
            assert(tv.take(i + 1).last() == tags@[i as int]@);
            let step = match &tags[i] {
                TagType::Regular(tag) => match self.ensure_tag(
                    tag.as_str(),
                    uid,
                    gid,
                    permissions,
                    now,
                ) {
                    Ok(_) => Ok(()),
                    Err(e) => Err(e),
                },
                TagType::Group(group) => self.ensure_tag_group(
                    group.as_str(),
                    uid,
                    gid,
                    permissions,
                    now,
                ),
                _ => Ok(()),
            };
            match step {
                Ok(_) => {},
                Err(e) => {
                    proof {
                        lemma_ensured_all_prefix(
                            old(self)@,
                            tv,
                            uid,
                            gid,
                            *permissions,
                            now,
                            i + 1,
                        );
                    }
                    *self = snapshot;
                    return Err(e);
                },
            }
            i += 1;
        }
        assert(tv.take(tags.len() as int) =~= tv);
        if tags.len() >= 2 {
            assert(tv.last() == tags@[tags.len() - 1]@);
            assert(tv[tv.len() - 2] == tags@[tags.len() - 2]@);
            match (&tags[tags.len() - 1], &tags[tags.len() - 2]) {
                (TagType::Regular(tag), TagType::Group(group)) => {
                    self.add_tag_to_group(tag.as_str(), group.as_str(), uid, gid, permissions, now);
                },
                _ => {},
            }
        }
        match self.pin_steps(tags) {
            Some(steps) => {
                proof {
                    lemma_pin_steps_exist(self@, tv);
                    let s = self@;
                    let t = StoreView { pins: s.pins.push(steps@), ..s };
                    assert forall|a: int, k: int|
                        0 <= a < t.pins.len() && 0 <= k < t.pins[a].len() implies step_exists(
                        #[trigger] t.pins[a][k],
                        t.tags,
                        t.groups,
                    ) by {
                        if a < s.pins.len() {
                            assert(step_exists(s.pins[a][k], s.tags, s.groups));
                        }
                    }
                }
                let ghost before = pin_views(self.pins@);
                let ghost sv = steps@;
                self.pins.push(steps);
                assert(pin_views(self.pins@) =~= before.push(sv));
            },
            None => {},
        }
        self.update_root_mtime(now);
        Ok(())
    }
}

} // verus!
