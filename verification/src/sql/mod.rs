//! The store: files, tags, links between them, tag groups and pins, with
//! the queries that answer what stands at a path.

pub mod check;
pub mod files;
pub mod laws;
pub mod model;
pub mod mutate;
pub mod ops;
pub mod pins;
pub mod query;
pub mod remove;
pub mod tables;
pub mod types;

use crate::sql::model::{
    best_link, find_first, group_ids, group_names, is_member, last_group, lemma_find_first_is,
    linked, tag_ids, tag_names, FileRowView, GroupRowView, Link, Member, PinId, StoreView,
};
use crate::sql::types::{clone_opt, file_rows, opt_view, tag_rows, Tag, TaggedFile, TaggedFileView};
use crate::text::{str_eq, views_of};
use crate::types::file_perms::Permissions;
use crate::types::{
    collect_negated_names, collect_regular_names, negated_names, regular_names, tag_views, Micros,
    TagType,
};
use vstd::prelude::*;

verus! {

/// A file of the store.
#[derive(Debug)]
pub struct FileRow {
    pub id: i64,
    pub device: u64,
    pub inode: u64,
    pub path: String,
    pub primary_tag: String,
    pub mtime: Micros,
    pub alias_file: Option<String>,
}

impl View for FileRow {
    type V = FileRowView;

    open spec fn view(&self) -> FileRowView {
        FileRowView {
            id: self.id,
            device: self.device,
            inode: self.inode,
            path: self.path@,
            primary_tag: self.primary_tag@,
            mtime: self.mtime,
            alias_file: opt_view(self.alias_file),
        }
    }
}

impl Clone for FileRow {
    fn clone(&self) -> (r: Self)
        ensures
            r@ == self@,
    {
        FileRow {
            id: self.id,
            device: self.device,
            inode: self.inode,
            path: self.path.clone(),
            primary_tag: self.primary_tag.clone(),
            mtime: self.mtime,
            alias_file: clone_opt(&self.alias_file),
        }
    }
}

/// A tag group of the store.
#[derive(Debug)]
pub struct GroupRow {
    pub id: i64,
    pub name: String,
    pub mtime: Micros,
    pub uid: u32,
    pub gid: u32,
    pub permissions: Permissions,
}

impl View for GroupRow {
    type V = GroupRowView;

    open spec fn view(&self) -> GroupRowView {
        GroupRowView {
            id: self.id,
            name: self.name@,
            mtime: self.mtime,
            uid: self.uid,
            gid: self.gid,
            permissions: self.permissions,
        }
    }
}

impl Clone for GroupRow {
    fn clone(&self) -> (r: Self)
        ensures
            r@ == self@,
    {
        GroupRow {
            id: self.id,
            name: self.name.clone(),
            mtime: self.mtime,
            uid: self.uid,
            gid: self.gid,
            permissions: self.permissions,
        }
    }
}

/// The views of a sequence of file rows.
pub open spec fn file_row_views(v: Seq<FileRow>) -> Seq<FileRowView> {
    v.map_values(|f: FileRow| f@)
}

/// The views of a sequence of group rows.
pub open spec fn group_row_views(v: Seq<GroupRow>) -> Seq<GroupRowView> {
    v.map_values(|g: GroupRow| g@)
}

/// The views of a sequence of pins.
pub open spec fn pin_views(v: Seq<Vec<PinId>>) -> Seq<Seq<PinId>> {
    v.map_values(|p: Vec<PinId>| p@)
}

/// The store of one collection.
#[derive(Debug)]
pub struct Store {
    pub files: Vec<FileRow>,
    pub tags: Vec<Tag>,
    pub links: Vec<Link>,
    pub groups: Vec<GroupRow>,
    pub members: Vec<Member>,
    pub pins: Vec<Vec<PinId>>,
    pub root_mtime: Micros,
}

impl View for Store {
    type V = StoreView;

    open spec fn view(&self) -> StoreView {
        StoreView {
            files: file_row_views(self.files@),
            tags: tag_rows(self.tags@),
            links: self.links@,
            groups: group_row_views(self.groups@),
            members: self.members@,
            pins: pin_views(self.pins@),
            root_mtime: self.root_mtime,
        }
    }
}

impl Store {
    /// An empty store, last changed at `now`.
    pub fn new(now: Micros) -> (s: Self)
        ensures
            s@.wf(),
            s@.files.len() == 0,
            s@.tags.len() == 0,
            s@.links.len() == 0,
            s@.groups.len() == 0,
            s@.members.len() == 0,
            s@.pins.len() == 0,
            s@.root_mtime == now,
    {
        Store {
            files: Vec::new(),
            tags: Vec::new(),
            links: Vec::new(),
            groups: Vec::new(),
            members: Vec::new(),
            pins: Vec::new(),
            root_mtime: now,
        }
    }

    /// When the store was last changed.
    pub fn get_root_mtime(&self) -> (t: Micros)
        ensures
            t == self@.root_mtime,
    {
        self.root_mtime
    }

    /// The position of the tag of the given name.
    pub fn find_tag(&self, name: &str) -> (r: Option<usize>)
        ensures
            match r {
                Some(i) => find_first(tag_names(self@.tags), name@) == Some(i as int) && i
                    < self.tags@.len(),
                None => find_first(tag_names(self@.tags), name@) is None,
            },
    {
        let mut i: usize = 0;
        while i < self.tags.len()
            invariant
                i <= self.tags.len(),
                forall|j: int| 0 <= j < i ==> tag_names(self@.tags)[j] != name@,
            decreases self.tags.len() - i,
        {
            if str_eq(self.tags[i].name.as_str(), name) {
                proof {
                    lemma_find_first_is(tag_names(self@.tags), name@, Some(i as int));
                }
                return Some(i);
            }
            i += 1;
        }
        proof {
            lemma_find_first_is(tag_names(self@.tags), name@, None);
        }
        None
    }

    /// The position of the tag of the given id.
    pub fn find_tag_by_id(&self, id: i64) -> (r: Option<usize>)
        ensures
            match r {
                Some(i) => find_first(tag_ids(self@.tags), id) == Some(i as int) && i
                    < self.tags@.len(),
                None => find_first(tag_ids(self@.tags), id) is None,
            },
    {
        let mut i: usize = 0;
        while i < self.tags.len()
            invariant
                i <= self.tags.len(),
                forall|j: int| 0 <= j < i ==> tag_ids(self@.tags)[j] != id,
            decreases self.tags.len() - i,
        {
            if self.tags[i].id == id {
                proof {
                    lemma_find_first_is(tag_ids(self@.tags), id, Some(i as int));
                }
                return Some(i);
            }
            i += 1;
        }
        proof {
            lemma_find_first_is(tag_ids(self@.tags), id, None);
        }
        None
    }

    /// The position of the tag group of the given name.
    pub fn find_group(&self, name: &str) -> (r: Option<usize>)
        ensures
            match r {
                Some(i) => find_first(group_names(self@.groups), name@) == Some(i as int) && i
                    < self.groups@.len(),
                None => find_first(group_names(self@.groups), name@) is None,
            },
    {
        let mut i: usize = 0;
        while i < self.groups.len()
            invariant
                i <= self.groups.len(),
                forall|j: int| 0 <= j < i ==> group_names(self@.groups)[j] != name@,
            decreases self.groups.len() - i,
        {
            if str_eq(self.groups[i].name.as_str(), name) {
                proof {
                    lemma_find_first_is(group_names(self@.groups), name@, Some(i as int));
                }
                return Some(i);
            }
            i += 1;
        }
        proof {
            lemma_find_first_is(group_names(self@.groups), name@, None);
        }
        None
    }

    /// The position of the tag group of the given id.
    pub fn find_group_by_id(&self, id: i64) -> (r: Option<usize>)
        ensures
            match r {
                Some(i) => find_first(group_ids(self@.groups), id) == Some(i as int) && i
                    < self.groups@.len(),
                None => find_first(group_ids(self@.groups), id) is None,
            },
    {
        let mut i: usize = 0;
        while i < self.groups.len()
            invariant
                i <= self.groups.len(),
                forall|j: int| 0 <= j < i ==> group_ids(self@.groups)[j] != id,
            decreases self.groups.len() - i,
        {
            if self.groups[i].id == id {
                proof {
                    lemma_find_first_is(group_ids(self@.groups), id, Some(i as int));
                }
                return Some(i);
            }
            i += 1;
        }
        proof {
            lemma_find_first_is(group_ids(self@.groups), id, None);
        }
        None
    }

    /// The position of the file on the given device with the given inode.
    pub fn find_file(&self, device: u64, inode: u64) -> (r: Option<usize>)
        ensures
            match r {
                Some(i) => i < self.files@.len() && self@.file_at(device, inode) == Some(
                    self@.files[i as int],
                ),
                None => self@.file_at(device, inode) is None,
            },
    {
        let ghost keys = self@.files.map_values(|f: FileRowView| (f.device, f.inode));
        let mut i: usize = 0;
        while i < self.files.len()
            invariant
                i <= self.files.len(),
                keys == self@.files.map_values(|f: FileRowView| (f.device, f.inode)),
                forall|j: int| 0 <= j < i ==> keys[j] != (device, inode),
            decreases self.files.len() - i,
        {
            if self.files[i].device == device && self.files[i].inode == inode {
                proof {
                    lemma_find_first_is(keys, (device, inode), Some(i as int));
                }
                return Some(i);
            }
            i += 1;
        }
        proof {
            lemma_find_first_is(keys, (device, inode), None);
        }
        None
    }

    /// The position of the file of the given path.
    pub fn find_file_by_path(&self, path: &str) -> (r: Option<usize>)
        ensures
            match r {
                Some(i) => i < self.files@.len() && self@.file_of_path(path@) == Some(
                    self@.files[i as int],
                ),
                None => self@.file_of_path(path@) is None,
            },
    {
        let ghost keys = self@.files.map_values(|f: FileRowView| f.path);
        let mut i: usize = 0;
        while i < self.files.len()
            invariant
                i <= self.files.len(),
                keys == self@.files.map_values(|f: FileRowView| f.path),
                forall|j: int| 0 <= j < i ==> keys[j] != path@,
            decreases self.files.len() - i,
        {
            if str_eq(self.files[i].path.as_str(), path) {
                proof {
                    lemma_find_first_is(keys, path@, Some(i as int));
                }
                return Some(i);
            }
            i += 1;
        }
        proof {
            lemma_find_first_is(keys, path@, None);
        }
        None
    }

    /// Whether the file and the tag are linked.
    pub fn is_linked(&self, file_id: i64, tag_id: i64) -> (r: bool)
        ensures
            r == linked(self@.links, file_id, tag_id),
    {
        let mut i: usize = 0;
        while i < self.links.len()
            invariant
                i <= self.links.len(),
                forall|j: int|
                    0 <= j < i ==> !((#[trigger] self.links@[j]).file_id == file_id
                        && self.links@[j].tag_id == tag_id),
            decreases self.links.len() - i,
        {
            if self.links[i].file_id == file_id && self.links[i].tag_id == tag_id {
                return true;
            }
            i += 1;
        }
        false
    }

    /// Whether the tag is a member of the tag group.
    pub fn is_member_of(&self, tg_id: i64, tag_id: i64) -> (r: bool)
        ensures
            r == is_member(self@.members, tg_id, tag_id),
    {
        let mut i: usize = 0;
        while i < self.members.len()
            invariant
                i <= self.members.len(),
                forall|j: int|
                    0 <= j < i ==> !((#[trigger] self.members@[j]).tg_id == tg_id
                        && self.members@[j].tag_id == tag_id),
            decreases self.members.len() - i,
        {
            if self.members[i].tg_id == tg_id && self.members[i].tag_id == tag_id {
                return true;
            }
            i += 1;
        }
        false
    }

    /// Whether the file carries the tag of the given name.
    pub fn carries(&self, file_id: i64, name: &str) -> (r: bool)
        ensures
            r == self@.carries(file_id, name@),
    {
        match self.find_tag(name) {
            Some(i) => self.is_linked(file_id, self.tags[i].id),
            None => false,
        }
    }

    /// Whether the file carries at least one tag of the group.
    pub fn carries_any_of(&self, file_id: i64, group: &str) -> (r: bool)
        ensures
            r == self@.carries_any_of(file_id, group@),
    {
        let g = match self.find_group(group) {
            Some(i) => self.groups[i].id,
            None => {
                return false;
            },
        };
        let mut i: usize = 0;
        while i < self.members.len()
            invariant
                i <= self.members.len(),
                self@.group_named(group@) is Some,
                self@.group_named(group@)->0.id == g,
                forall|j: int|
                    0 <= j < i ==> !((#[trigger] self.members@[j]).tg_id == g && linked(
                        self@.links,
                        file_id,
                        self.members@[j].tag_id,
                    )),
            decreases self.members.len() - i,
        {
            if self.members[i].tg_id == g && self.is_linked(file_id, self.members[i].tag_id) {
                assert(self@.members[i as int].tg_id == g && linked(
                    self@.links,
                    file_id,
                    self@.members[i as int].tag_id,
                ));
                return true;
            }
            i += 1;
        }
        false
    }

    /// Whether the tag of name `tag` is a member of the group of name
    /// `group`.
    pub fn tag_is_in_group(&self, group: &str, tag: &str) -> (r: bool)
        ensures
            r == self@.tag_in_group(group@, tag@),
    {
        match (self.find_group(group), self.find_tag(tag)) {
            (Some(g), Some(t)) => self.is_member_of(self.groups[g].id, self.tags[t].id),
            _ => false,
        }
    }

    /// Whether the file stands at the path.
    pub fn at_path(&self, file_id: i64, tags: &[TagType]) -> (r: bool)
        ensures
            r == self@.at_path(file_id, tag_views(tags@)),
    {
        let ghost tv = tag_views(tags@);
        let r = collect_regular_names(tags);
        let n = collect_negated_names(tags);
        let in_group = tags.len() > 0 && matches!(tags[tags.len() - 1], TagType::Group(_));
        assert(in_group == (last_group(tv) is Some)) by {
            if tags@.len() > 0 {
                assert(tv.last() == tags@.last()@);
            }
        }
        if r.len() == 0 && !in_group {
            return false;
        }
        let mut i: usize = 0;
        while i < r.len()
            invariant
                i <= r.len(),
                tv == tag_views(tags@),
                views_of(r@) == regular_names(tv),
                forall|j: int| 0 <= j < i ==> self@.carries(file_id, #[trigger] views_of(r@)[j]),
            decreases r.len() - i,
        {
            if !self.carries(file_id, r[i].as_str()) {
                assert(!self@.carries(file_id, regular_names(tv)[i as int]));
                return false;
            }
            i += 1;
        }
        if in_group {
            match &tags[tags.len() - 1] {
                TagType::Group(g) => {
                    assert(tv.last() == tags@.last()@);
                    if !self.carries_any_of(file_id, g.as_str()) {
                        return false;
                    }
                },
                _ => {},
            }
        }
        let mut k: usize = 0;
        while k < n.len()
            invariant
                k <= n.len(),
                tv == tag_views(tags@),
                views_of(r@) == regular_names(tv),
                r@.len() > 0 || last_group(tv) is Some,
                forall|j: int|
                    0 <= j < r@.len() ==> self@.carries(file_id, #[trigger] views_of(r@)[j]),
                last_group(tv) is Some ==> self@.carries_any_of(file_id, last_group(tv)->0),
                views_of(n@) == negated_names(tv),
                forall|j: int| 0 <= j < k ==> !self@.carries(file_id, #[trigger] views_of(n@)[j]),
            decreases n.len() - k,
        {
            if self.carries(file_id, n[k].as_str()) {
                assert(self@.carries(file_id, negated_names(tv)[k as int]));
                return false;
            }
            k += 1;
        }
        true
    }

    /// The most recent link of the file.
    pub fn best_link_of(&self, file_id: i64) -> (r: Option<Link>)
        ensures
            r == best_link(self@.links, file_id),
    {
        let mut best: Option<Link> = None;
        let mut i: usize = 0;
        assert(self.links@.take(0) =~= Seq::<Link>::empty());
        while i < self.links.len()
            invariant
                i <= self.links.len(),
                best == best_link(self.links@.take(i as int), file_id),
            decreases self.links.len() - i,
        {
            assert(self.links@.take(i + 1).drop_last() =~= self.links@.take(i as int));
            let l = self.links[i];
            if l.file_id == file_id {
                best = match best {
                    None => Some(l),
                    Some(h) => if l.mtime > h.mtime {
                        Some(l)
                    } else {
                        Some(h)
                    },
                };
            }
            i += 1;
        }
        assert(self.links@.take(self.links.len() as int) =~= self.links@);
        best
    }

    /// The file as it shows under a path.
    pub fn tagged(&self, f: &FileRow) -> (r: TaggedFile)
        ensures
            r@ == self@.tagged(f@),
    {
        match self.best_link_of(f.id) {
            Some(l) => TaggedFile {
                id: f.id,
                inode: f.inode,
                device: f.device,
                path: f.path.clone(),
                primary_tag: f.primary_tag.clone(),
                mtime: l.mtime,
                uid: l.uid,
                gid: l.gid,
                permissions: l.permissions,
                alias_file: clone_opt(&f.alias_file),
            },
            None => TaggedFile {
                id: f.id,
                inode: f.inode,
                device: f.device,
                path: f.path.clone(),
                primary_tag: f.primary_tag.clone(),
                mtime: f.mtime,
                uid: 0,
                gid: 0,
                permissions: Permissions::from_mode(0),
                alias_file: clone_opt(&f.alias_file),
            },
        }
    }

    /// The files that carry all of the path's tags, ordered by primary
    /// tag.
    pub fn files_tagged_with(&self, tags: &[TagType]) -> (out: Vec<TaggedFile>)
        ensures
            file_rows(out@) == self@.files_at(tag_views(tags@)),
    {
        let ghost tv = tag_views(tags@);
        let ghost f = |f: FileRowView|
            if self@.at_path(f.id, tv) {
                Some(self@.tagged(f))
            } else {
                None
            };
        let mut out: Vec<TaggedFile> = Vec::new();
        let mut i: usize = 0;
        assert(self@.files.take(0).filter_map(f) =~= Seq::<TaggedFileView>::empty());
        assert(file_rows(out@) =~= Seq::<TaggedFileView>::empty());
        while i < self.files.len()
            invariant
                i <= self.files.len(),
                tv == tag_views(tags@),
                f == (|f: FileRowView|
                    if self@.at_path(f.id, tv) {
                        Some(self@.tagged(f))
                    } else {
                        None
                    }),
                file_rows(out@) == self@.files.take(i as int).filter_map(f),
            decreases self.files.len() - i,
        {
            let ghost prev = self@.files.take(i as int);
            let ghost next = self@.files.take(i as int + 1);
            assert(next.drop_last() =~= prev);
            assert(next.last() == self.files@[i as int]@);
            let ghost before = file_rows(out@);
            if self.at_path(self.files[i].id, tags) {
                let t = self.tagged(&self.files[i]);
                out.push(t);
                assert(file_rows(out@) =~= before.push(t@));
            }
            assert(file_rows(out@) =~= next.filter_map(f));
            i += 1;
        }
        assert(self@.files.take(self.files.len() as int) =~= self@.files);
        out
    }

    /// The number of files at the path.
    pub fn get_num_files(&self, tags: &[TagType]) -> (n: usize)
        ensures
            n == self@.files_at(tag_views(tags@)).len(),
    {
        let files = self.files_tagged_with(tags);
        assert(file_rows(files@).len() == files@.len());
        files.len()
    }
}

} // verus!
