//! Adding, renaming and unlinking files.

use crate::err::StoreError;
use crate::sql::model::{
    file_before, file_ids, file_rel, find_first, lemma_find_first, linked, tag_ids, FileRowView,
    Link, PinId, StoreView,
};
use crate::sql::mutate::{greatest_id, lemma_insert_keeps};
use crate::sql::remove::lemma_remove_keeps;
use crate::sql::tables::{
    lemma_lower_by, lemma_max_id, lemma_pairwise_insert, lemma_pairwise_remove, lower_by, max_id,
};
use crate::sql::types::{tag_rows, Tag, TaggedFileView};
use crate::sql::{file_row_views, group_row_views, pin_views, FileRow, GroupRow, Store};
use crate::text::{lemma_lex_total, lemma_lex_transitive, str_eq, str_lt};
use crate::types::file_perms::{perms_of, UMask};
use crate::types::{DeviceFile, Micros};
use vstd::prelude::*;

verus! {

/// The order of the files: by primary tag, then by id.
pub open spec fn file_lt() -> spec_fn(FileRowView, FileRowView) -> bool {
    |a: FileRowView, b: FileRowView| file_before(a, b)
}

/// The order of the files is transitive.
pub proof fn lemma_file_before_trans(a: FileRowView, b: FileRowView, c: FileRowView)
    requires
        file_before(a, b),
        file_before(b, c),
    ensures
        file_before(a, c),
{
    if crate::text::lex_lt(a.primary_tag, b.primary_tag) && crate::text::lex_lt(
        b.primary_tag,
        c.primary_tag,
    ) {
        lemma_lex_transitive(a.primary_tag, b.primary_tag, c.primary_tag);
    }
}

/// Two files of different ids are ordered one way or the other.
pub proof fn lemma_file_before_total(a: FileRowView, b: FileRowView)
    requires
        a.id != b.id,
    ensures
        file_before(a, b) || file_before(b, a),
{
    lemma_lex_total(a.primary_tag, b.primary_tag);
}

impl StoreView {
    /// The id that the next file gets.
    pub open spec fn next_file_id(self) -> int {
        max_id(file_ids(self.files)) + 1
    }

    /// What adding a file does: nothing where a file of that device and
    /// inode, or of that path, exists; else the file enters the table at
    /// its place, unless no id is left.
    pub open spec fn with_file(
        self,
        device: u64,
        inode: u64,
        path: Seq<char>,
        primary_tag: Seq<char>,
        now: Micros,
        alias_file: Option<Seq<char>>,
    ) -> Result<StoreView, StoreError> {
        if self.file_at(device, inode) is Some || self.file_of_path(path) is Some {
            Ok(self)
        } else if self.next_file_id() > i64::MAX {
            Err(StoreError::Full)
        } else {
            let row = FileRowView {
                id: self.next_file_id() as i64,
                device,
                inode,
                path,
                primary_tag,
                mtime: now,
                alias_file,
            };
            Ok(StoreView { files: self.files.insert(lower_by(self.files, row, file_lt()), row), ..self })
        }
    }

    /// What renaming a file does: the file of the given device and inode
    /// gets the new primary tag and moves to its place in the table.
    pub open spec fn renamed_file(self, device: u64, inode: u64, new_name: Seq<char>, now: Micros) -> StoreView {
        match find_first(
            self.files.map_values(|f: FileRowView| (f.device, f.inode)),
            (device, inode),
        ) {
            Some(i) => {
                let row = FileRowView { primary_tag: new_name, mtime: now, ..self.files[i] };
                let rest = self.files.remove(i);
                StoreView {
                    files: rest.insert(lower_by(rest, row, file_lt()), row),
                    root_mtime: now,
                    ..self
                }
            },
            None => self.with_root(now),
        }
    }

    /// What linking a file to each of the tags does, making sure of each
    /// tag first.
    pub open spec fn linked_all(
        self,
        device: u64,
        inode: u64,
        tags: Seq<Seq<char>>,
        uid: u32,
        gid: u32,
        umask: UMask,
        now: Micros,
    ) -> Result<StoreView, StoreError>
        decreases tags.len(),
    {
        if tags.len() == 0 {
            Ok(self)
        } else {
            match self.linked_all(device, inode, tags.drop_last(), uid, gid, umask, now) {
                Err(e) => Err(e),
                Ok(s) => match s.ensured_tag(
                    tags.last(),
                    uid,
                    gid,
                    perms_of((0o777u32 & !umask.0) as nat),
                    now,
                ) {
                    Err(e) => Err(e),
                    Ok(s2) => s2.linked_to(
                        device,
                        inode,
                        tags.last(),
                        uid,
                        gid,
                        perms_of((0o666u32 & !umask.0) as nat),
                        now,
                    ),
                },
            }
        }
    }

    /// What adding a file under tags does: the file is added where it is
    /// new, each tag is made sure of and linked to the file.
    pub open spec fn added_file(
        self,
        device: u64,
        inode: u64,
        path: Seq<char>,
        primary_tag: Seq<char>,
        tags: Seq<Seq<char>>,
        uid: u32,
        gid: u32,
        umask: UMask,
        now: Micros,
        alias_file: Option<Seq<char>>,
    ) -> Result<StoreView, StoreError> {
        match self.with_file(device, inode, path, primary_tag, now, alias_file) {
            Err(e) => Err(e),
            Ok(s) => match s.linked_all(device, inode, tags, uid, gid, umask, now) {
                Err(e) => Err(e),
                Ok(s2) => Ok(s2.with_root(now)),
            },
        }
    }

    /// The ids of the tags of the given names, for those that exist.
    pub open spec fn ids_of_names(self, names: Seq<Seq<char>>) -> Seq<i64> {
        names.filter_map(
            |n: Seq<char>|
                match self.tag_named(n) {
                    Some(t) => Some(t.id),
                    None => None,
                },
        )
    }

    /// The ids of those of the named tags that the file is linked to.
    pub open spec fn linked_ids(self, file_id: i64, names: Seq<Seq<char>>) -> Seq<i64> {
        names.filter_map(
            |n: Seq<char>|
                match self.tag_named(n) {
                    Some(t) => if linked(self.links, file_id, t.id) {
                        Some(t.id)
                    } else {
                        None
                    },
                    None => None,
                },
        )
    }
}

/// The record that adding a file returns for each tag.
pub open spec fn added_record(
    device: u64,
    inode: u64,
    path: Seq<char>,
    primary_tag: Seq<char>,
    uid: u32,
    gid: u32,
    umask: UMask,
    now: Micros,
    alias_file: Option<Seq<char>>,
) -> TaggedFileView {
    TaggedFileView {
        id: 0,
        inode,
        device,
        path,
        primary_tag,
        mtime: now,
        uid,
        gid,
        permissions: perms_of((0o666u32 & !umask.0) as nat),
        alias_file,
    }
}

/// Linking to the tags fails where linking to the first of them does.
pub proof fn lemma_linked_all_prefix(
    s: StoreView,
    device: u64,
    inode: u64,
    tags: Seq<Seq<char>>,
    uid: u32,
    gid: u32,
    umask: UMask,
    now: Micros,
    k: int,
)
    requires
        0 <= k <= tags.len(),
        s.linked_all(device, inode, tags.take(k), uid, gid, umask, now) is Err,
    ensures
        s.linked_all(device, inode, tags, uid, gid, umask, now) == s.linked_all(
            device,
            inode,
            tags.take(k),
            uid,
            gid,
            umask,
            now,
        ),
    decreases tags.len() - k,
{
    if k < tags.len() {
        assert(tags.take(k + 1).drop_last() =~= tags.take(k));
        lemma_linked_all_prefix(s, device, inode, tags, uid, gid, umask, now, k + 1);
    } else {
        assert(tags.take(k) =~= tags);
    }
}

/// A new file leaves the store well formed.
pub proof fn lemma_new_file_wf(
    s: StoreView,
    device: u64,
    inode: u64,
    path: Seq<char>,
    primary_tag: Seq<char>,
    now: Micros,
    alias_file: Option<Seq<char>>,
)
    requires
        s.wf(),
    ensures
        s.with_file(device, inode, path, primary_tag, now, alias_file) is Ok ==> s.with_file(
            device,
            inode,
            path,
            primary_tag,
            now,
            alias_file,
        )->Ok_0.wf(),
{
    if !(s.file_at(device, inode) is Some || s.file_of_path(path) is Some) && s.next_file_id()
        <= i64::MAX {
        let t = s.with_file(device, inode, path, primary_tag, now, alias_file)->Ok_0;
        let ids = file_ids(s.files);
        let row = FileRowView {
            id: s.next_file_id() as i64,
            device,
            inode,
            path,
            primary_tag,
            mtime: now,
            alias_file,
        };
        let p = lower_by(s.files, row, file_lt());
        lemma_max_id(ids);
        let keys = s.files.map_values(|f: FileRowView| (f.device, f.inode));
        let paths = s.files.map_values(|f: FileRowView| f.path);
        lemma_find_first(keys, (device, inode));
        lemma_find_first(paths, path);
        assert forall|k: int| 0 <= k < s.files.len() implies (#[trigger] s.files[k]).id != row.id
            && s.files[k].path != path && (s.files[k].device != device || s.files[k].inode
            != inode) by {
            assert(ids[k] == s.files[k].id);
            assert(keys[k] == (s.files[k].device, s.files[k].inode));
            assert(paths[k] == s.files[k].path);
        }
        assert forall|k: int| 0 <= k < s.files.len() implies file_lt()(#[trigger] s.files[k], row)
            || file_lt()(row, s.files[k]) by {
            lemma_file_before_total(s.files[k], row);
        }
        assert forall|i: int, j: int|
            0 <= i < j < s.files.len() && file_lt()(row, #[trigger] s.files[i]) implies file_lt()(
            row,
            #[trigger] s.files[j],
        ) by {
            assert(file_rel()(s.files[i], s.files[j]));
            lemma_file_before_trans(row, s.files[i], s.files[j]);
        }
        lemma_lower_by(s.files, row, file_lt());
        assert forall|k: int| 0 <= k < p implies file_rel()(#[trigger] s.files[k], row) by {
            assert(file_lt()(s.files[k], row));
        }
        assert forall|k: int| p <= k < s.files.len() implies file_rel()(
            row,
            #[trigger] s.files[k],
        ) by {
            assert(file_lt()(row, s.files[k]));
        }
        lemma_pairwise_insert(s.files, p, row, file_rel());
        let ids2 = file_ids(t.files);
        assert(ids2 =~= ids.insert(p, row.id));
        assert forall|i: int| 0 <= i < t.links.len() implies ids2.contains(
            (#[trigger] t.links[i]).file_id,
        ) && tag_ids(t.tags).contains(t.links[i].tag_id) by {
            lemma_insert_keeps(ids, p, row.id, s.links[i].file_id);
        }
    }
}

/// A file under a new primary tag leaves the store well formed.
pub proof fn lemma_renamed_file_wf(s: StoreView, device: u64, inode: u64, new_name: Seq<char>, now: Micros)
    requires
        s.wf(),
    ensures
        s.renamed_file(device, inode, new_name, now).wf(),
{
    let keys = s.files.map_values(|f: FileRowView| (f.device, f.inode));
    lemma_find_first(keys, (device, inode));
    match find_first(keys, (device, inode)) {
        Some(i) => {
            let row = FileRowView { primary_tag: new_name, mtime: now, ..s.files[i] };
            let rest = s.files.remove(i);
            let p = lower_by(rest, row, file_lt());
            let t = s.renamed_file(device, inode, new_name, now);
            lemma_pairwise_remove(s.files, i, file_rel());
            assert forall|k: int| 0 <= k < rest.len() implies (#[trigger] rest[k]).id != row.id
                && rest[k].path != row.path && (rest[k].device != row.device || rest[k].inode
                != row.inode) by {
                if k < i {
                    assert(file_rel()(s.files[k], s.files[i]));
                } else {
                    assert(file_rel()(s.files[i], s.files[k + 1]));
                }
            }
            assert forall|k: int| 0 <= k < rest.len() implies file_lt()(#[trigger] rest[k], row)
                || file_lt()(row, rest[k]) by {
                lemma_file_before_total(rest[k], row);
            }
            assert forall|a: int, b: int|
                0 <= a < b < rest.len() && file_lt()(row, #[trigger] rest[a]) implies file_lt()(
                row,
                #[trigger] rest[b],
            ) by {
                assert(file_rel()(rest[a], rest[b]));
                lemma_file_before_trans(row, rest[a], rest[b]);
            }
            lemma_lower_by(rest, row, file_lt());
            assert forall|k: int| 0 <= k < p implies file_rel()(#[trigger] rest[k], row) by {
                assert(file_lt()(rest[k], row));
            }
            assert forall|k: int| p <= k < rest.len() implies file_rel()(row, #[trigger] rest[k]) by {
                assert(file_lt()(row, rest[k]));
            }
            lemma_pairwise_insert(rest, p, row, file_rel());
            let ids = file_ids(s.files);
            let ids2 = file_ids(t.files);
            assert(ids2 =~= ids.remove(i).insert(p, row.id));
            assert(ids[i] == row.id);
            assert forall|x: i64| ids.contains(x) implies ids2.contains(x) by {
                if x == row.id {
                    assert(ids2[p] == x);
                } else {
                    lemma_remove_keeps(ids, i, x);
                    lemma_insert_keeps(ids.remove(i), p, row.id, x);
                }
            }
            assert forall|k: int| 0 <= k < t.links.len() implies ids2.contains(
                (#[trigger] t.links[k]).file_id,
            ) && tag_ids(t.tags).contains(t.links[k].tag_id) by {
                assert(ids.contains(s.links[k].file_id));
            }
        },
        None => {},
    }
}

impl Clone for Store {
    fn clone(&self) -> (r: Self)
        ensures
            r@ == self@,
    {
        let mut files: Vec<FileRow> = Vec::new();
        let mut i: usize = 0;
        while i < self.files.len()
            invariant
                i <= self.files.len(),
                file_row_views(files@) =~= self@.files.take(i as int),
            decreases self.files.len() - i,
        {
            let ghost before = file_row_views(files@);
            let row = self.files[i].clone();
            files.push(row);
            assert(file_row_views(files@) =~= before.push(row@));
            i += 1;
        }
        assert(self@.files.take(self.files.len() as int) =~= self@.files);
        let mut tags: Vec<Tag> = Vec::new();
        let mut i: usize = 0;
        while i < self.tags.len()
            invariant
                i <= self.tags.len(),
                tag_rows(tags@) =~= self@.tags.take(i as int),
            decreases self.tags.len() - i,
        {
            let ghost before = tag_rows(tags@);
            let row = self.tags[i].clone();
            tags.push(row);
            assert(tag_rows(tags@) =~= before.push(row@));
            i += 1;
        }
        assert(self@.tags.take(self.tags.len() as int) =~= self@.tags);
        let mut links: Vec<Link> = Vec::new();
        let mut i: usize = 0;
        while i < self.links.len()
            invariant
                i <= self.links.len(),
                links@ =~= self.links@.take(i as int),
            decreases self.links.len() - i,
        {
            links.push(self.links[i]);
            i += 1;
        }
        assert(self.links@.take(self.links.len() as int) =~= self.links@);
        let mut groups: Vec<GroupRow> = Vec::new();
        let mut i: usize = 0;
        while i < self.groups.len()
            invariant
                i <= self.groups.len(),
                group_row_views(groups@) =~= self@.groups.take(i as int),
            decreases self.groups.len() - i,
        {
            let ghost before = group_row_views(groups@);
            let row = self.groups[i].clone();
            groups.push(row);
            assert(group_row_views(groups@) =~= before.push(row@));
            i += 1;
        }
        assert(self@.groups.take(self.groups.len() as int) =~= self@.groups);
        let mut members: Vec<crate::sql::model::Member> = Vec::new();
        let mut i: usize = 0;
        while i < self.members.len()
            invariant
                i <= self.members.len(),
                members@ =~= self.members@.take(i as int),
            decreases self.members.len() - i,
        {
            members.push(self.members[i]);
            i += 1;
        }
        assert(self.members@.take(self.members.len() as int) =~= self.members@);
        let mut pins: Vec<Vec<PinId>> = Vec::new();
        let mut i: usize = 0;
        while i < self.pins.len()
            invariant
                i <= self.pins.len(),
                pin_views(pins@) =~= self@.pins.take(i as int),
            decreases self.pins.len() - i,
        {
            let ghost before = pin_views(pins@);
            let pin = self.pins[i].clone();
            assert(pin@ =~= self.pins@[i as int]@);
            pins.push(pin);
            assert(pin_views(pins@) =~= before.push(self.pins@[i as int]@));
            i += 1;
        }
        assert(self@.pins.take(self.pins.len() as int) =~= self@.pins);
        Store { files, tags, links, groups, members, pins, root_mtime: self.root_mtime }
    }
}

impl Store {
    /// The ids of the files, in table order.
    pub fn file_id_list(&self) -> (ids: Vec<i64>)
        ensures
            ids@ == file_ids(self@.files),
    {
        let mut ids: Vec<i64> = Vec::new();
        let mut i: usize = 0;
        while i < self.files.len()
            invariant
                i <= self.files.len(),
                ids@ =~= file_ids(self@.files).take(i as int),
            decreases self.files.len() - i,
        {
            ids.push(self.files[i].id);
            i += 1;
        }
        assert(file_ids(self@.files).take(self.files.len() as int) =~= file_ids(self@.files));
        ids
    }

    /// The position at which the file enters the table.
    fn file_insert_pos(&self, row: &FileRow) -> (p: usize)
        ensures
            p == lower_by(self@.files, row@, file_lt()),
            p <= self.files@.len(),
    {
        let ghost all = self@.files;
        let mut i: usize = 0;
        assert(all.skip(0) =~= all);
        loop
            invariant
                i <= self.files.len(),
                all == self@.files,
                lower_by(all, row@, file_lt()) == i + lower_by(all.skip(i as int), row@, file_lt()),
            decreases self.files.len() - i,
        {
            if i >= self.files.len() {
                return i;
            }
            let f = &self.files[i];
            assert(all.skip(i as int)[0] == f@);
            let before = str_lt(f.primary_tag.as_str(), row.primary_tag.as_str()) || (str_eq(
                f.primary_tag.as_str(),
                row.primary_tag.as_str(),
            ) && f.id < row.id);
            if !before {
                return i;
            }
            assert(all.skip(i as int).drop_first() =~= all.skip(i + 1));
            i += 1;
        }
    }

    /// Adds a file where no file of that device and inode, or of that
    /// path, exists. Fails, leaving the store as it was, where no id is
    /// left.
    pub fn insert_file(
        &mut self,
        device: u64,
        inode: u64,
        path: &str,
        primary_tag: &str,
        now: Micros,
        alias_file: Option<&str>,
    ) -> (r: Result<(), StoreError>)
        requires
            old(self)@.wf(),
        ensures
            final(self)@.wf(),
            match r {
                Ok(_) => old(self)@.with_file(
                    device,
                    inode,
                    path@,
                    primary_tag@,
                    now,
                    str_opt_view(alias_file),
                ) == Ok::<StoreView, StoreError>(final(self)@),
                Err(e) => old(self)@.with_file(
                    device,
                    inode,
                    path@,
                    primary_tag@,
                    now,
                    str_opt_view(alias_file),
                ) == Err::<StoreView, StoreError>(e) && final(self)@ == old(self)@,
            },
    {
        if self.find_file(device, inode).is_some() || self.find_file_by_path(path).is_some() {
            return Ok(());
        }
        let ids = self.file_id_list();
        let m = greatest_id(&ids);
        if m == i64::MAX {
            return Err(StoreError::Full);
        }
        let row = FileRow {
            id: m + 1,
            device,
            inode,
            path: String::from_str(path),
            primary_tag: String::from_str(primary_tag),
            mtime: now,
            alias_file: match alias_file {
                Some(a) => Some(String::from_str(a)),
                None => None,
            },
        };
        let p = self.file_insert_pos(&row);
        proof {
            lemma_new_file_wf(
                self@,
                device,
                inode,
                path@,
                primary_tag@,
                now,
                str_opt_view(alias_file),
            );
        }
        let ghost rv = row@;
        self.files.insert(p, row);
        assert(self@.files =~= old(self)@.files.insert(p as int, rv));
        Ok(())
    }

    /// Gives the file of the device file's device and inode a new primary
    /// tag.
    pub fn rename_file(&mut self, device_file: &DeviceFile, new_name: &str, now: Micros)
        requires
            old(self)@.wf(),
        ensures
            final(self)@.wf(),
            final(self)@ == old(self)@.renamed_file(
                device_file.device,
                device_file.inode,
                new_name@,
                now,
            ),
    {
        proof {
            lemma_renamed_file_wf(self@, device_file.device, device_file.inode, new_name@, now);
            lemma_find_first(
                self@.files.map_values(|f: FileRowView| (f.device, f.inode)),
                (device_file.device, device_file.inode),
            );
        }
        match self.find_file(device_file.device, device_file.inode) {
            Some(i) => {
                assert(find_first(
                    self@.files.map_values(|f: FileRowView| (f.device, f.inode)),
                    (device_file.device, device_file.inode),
                ) == Some(i as int)) by {
                    crate::sql::files::lemma_file_pos(
                        self@,
                        device_file.device,
                        device_file.inode,
                        i as int,
                    );
                }
                let mut row = self.files.remove(i);
                row.primary_tag = String::from_str(new_name);
                row.mtime = now;
                assert(file_row_views(self.files@) =~= old(self)@.files.remove(i as int));
                let p = self.file_insert_pos(&row);
                let ghost rv = row@;
                self.files.insert(p, row);
                self.root_mtime = now;
                assert(self@.files =~= old(self)@.files.remove(i as int).insert(p as int, rv));
            },
            None => {
                self.root_mtime = now;
            },
        }
    }
}

/// In a well-formed store, the position of the file of a device and inode
/// is where a file of that device and inode stands.
pub proof fn lemma_file_pos(s: StoreView, device: u64, inode: u64, i: int)
    requires
        s.wf(),
        0 <= i < s.files.len(),
        s.file_at(device, inode) == Some(s.files[i]),
    ensures
        find_first(s.files.map_values(|f: FileRowView| (f.device, f.inode)), (device, inode))
            == Some(i),
{
    let keys = s.files.map_values(|f: FileRowView| (f.device, f.inode));
    lemma_find_first(keys, (device, inode));
    let j = find_first(keys, (device, inode))->0;
    assert(keys[j] == (s.files[j].device, s.files[j].inode));
    if j < i {
        assert(file_rel()(s.files[j], s.files[i]));
    } else if i < j {
        assert(file_rel()(s.files[i], s.files[j]));
    }
}

/// The view of an optional string slice.
pub open spec fn str_opt_view(s: Option<&str>) -> Option<Seq<char>> {
    match s {
        Some(x) => Some(x@),
        None => None,
    }
}

impl StoreView {
    /// The store without the file at a position and without its links.
    pub open spec fn without_file_at(self, i: int) -> StoreView {
        let cut = self.without_links(Some(seq![self.files[i].id]), None);
        StoreView { files: cut.files.remove(i), ..cut }
    }

    /// What purging the file of a device and inode does: the file goes,
    /// with its links.
    pub open spec fn purged_devicefile(self, device: u64, inode: u64, now: Micros) -> StoreView {
        match find_first(
            self.files.map_values(|f: FileRowView| (f.device, f.inode)),
            (device, inode),
        ) {
            Some(i) => self.without_file_at(i).with_root(now),
            None => self.with_root(now),
        }
    }

    /// What purging the file of a path does: the file goes, with its
    /// links.
    pub open spec fn purged_path(self, path: Seq<char>, now: Micros) -> StoreView {
        match find_first(self.files.map_values(|f: FileRowView| f.path), path) {
            Some(i) => self.without_file_at(i).with_root(now),
            None => self.with_root(now),
        }
    }
}

/// Removing a file with its links leaves the store well formed.
pub proof fn lemma_without_file_wf(s: StoreView, i: int)
    requires
        s.wf(),
        0 <= i < s.files.len(),
    ensures
        s.without_file_at(i).wf(),
{
    let id = s.files[i].id;
    let cut = s.without_links(Some(seq![id]), None);
    crate::sql::mutate::lemma_without_links_wf(s, Some(seq![id]), None);
    crate::sql::remove::lemma_without_links_none(s, Some(seq![id]), None);
    assert(seq![id].contains(id)) by {
        assert(seq![id][0] == id);
    }
    let t = s.without_file_at(i);
    lemma_pairwise_remove(cut.files, i, file_rel());
    let ids = file_ids(cut.files);
    assert(file_ids(t.files) =~= ids.remove(i));
    assert(ids[i] == id);
    assert forall|k: int| 0 <= k < t.links.len() implies file_ids(t.files).contains(
        (#[trigger] t.links[k]).file_id,
    ) && tag_ids(t.tags).contains(t.links[k].tag_id) by {
        lemma_remove_keeps(ids, i, cut.links[k].file_id);
    }
}

impl Store {
    /// Removes the file at a position, with its links.
    fn purge_at(&mut self, i: usize)
        requires
            old(self)@.wf(),
            i < old(self).files@.len(),
        ensures
            final(self)@ == old(self)@.without_file_at(i as int),
            final(self)@.wf(),
    {
        let ids: Vec<i64> = vec![self.files[i].id];
        assert(ids@ =~= seq![self.files@[i as int].id]);
        proof {
            lemma_without_file_wf(self@, i as int);
        }
        self.drop_links(Some(&ids), None);
        self.files.remove(i);
        assert(self@.files =~= old(self)@.without_file_at(i as int).files);
    }

    /// Removes the file of the device file's device and inode, with its
    /// links.
    pub fn purge_devicefile(&mut self, df: &DeviceFile, now: Micros)
        requires
            old(self)@.wf(),
        ensures
            final(self)@ == old(self)@.purged_devicefile(df.device, df.inode, now),
            final(self)@.wf(),
    {
        match self.find_file(df.device, df.inode) {
            Some(i) => {
                proof {
                    lemma_file_pos(self@, df.device, df.inode, i as int);
                }
                self.purge_at(i);
            },
            None => {},
        }
        self.root_mtime = now;
    }

    /// Removes the file of the given path, with its links.
    pub fn purge_path(&mut self, path: &str, now: Micros)
        requires
            old(self)@.wf(),
        ensures
            final(self)@ == old(self)@.purged_path(path@, now),
            final(self)@.wf(),
    {
        match self.find_file_by_path(path) {
            Some(i) => {
                proof {
                    let paths = self@.files.map_values(|f: FileRowView| f.path);
                    lemma_find_first(paths, path@);
                    let j = find_first(paths, path@)->0;
                    assert(paths[j] == self@.files[j].path);
                    if j < i {
                        assert(file_rel()(self@.files[j], self@.files[i as int]));
                    } else if i < j {
                        assert(file_rel()(self@.files[i as int], self@.files[j]));
                    }
                }
                self.purge_at(i);
            },
            None => {},
        }
        self.root_mtime = now;
    }
}

} // verus!
