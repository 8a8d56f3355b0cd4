//! The queries of the store.

use crate::sql::model::{
    latest, starts_with_steps, tag_ids, tag_names, FileRowView, GroupRowView, Link, Member, PinId,
    StoreView,
};
use crate::sql::types::{
    df_matches, either_rows, file_rows, group_rows, tag_rows, Tag, TagGroup, TagGroupView,
    TagOrTagGroup, TagOrTagGroupView, TagView, TaggedFile, TaggedFileView,
};
use crate::sql::{GroupRow, Store};
use crate::text::{str_eq, views_of};
use crate::types::{
    collect_regular, collect_regular_names, regular_names, regulars, tag_views, DeviceFile,
    DeviceFileView, TagType, TagTypeView,
};
use vstd::prelude::*;

verus! {

/// What is looked for among the files at a path.
#[derive(Debug)]
pub enum FileWanted {
    /// The file of this name, device and inode.
    Device(DeviceFile),
    /// A file of this name.
    Named(String),
}

/// `FileWanted` as a view.
pub enum FileWantedView {
    Device(DeviceFileView),
    Named(Seq<char>),
}

impl View for FileWanted {
    type V = FileWantedView;

    open spec fn view(&self) -> FileWantedView {
        match self {
            FileWanted::Device(df) => FileWantedView::Device(df@),
            FileWanted::Named(n) => FileWantedView::Named(n@),
        }
    }
}

/// Whether the file is the one looked for.
pub open spec fn is_wanted(want: FileWantedView, tf: TaggedFileView) -> bool {
    match want {
        FileWantedView::Device(df) => df_matches(df, tf),
        FileWantedView::Named(n) => tf.primary_tag == n,
    }
}

/// The first of the files that is the one looked for.
pub open spec fn first_wanted(files: Seq<TaggedFileView>, want: FileWantedView) -> Option<
    TaggedFileView,
>
    decreases files.len(),
{
    if files.len() == 0 {
        None
    } else {
        match first_wanted(files.drop_last(), want) {
            Some(f) => Some(f),
            None => if is_wanted(want, files.last()) {
                Some(files.last())
            } else {
                None
            },
        }
    }
}

/// The first wanted file of a prefix is the first wanted file of the whole.
pub proof fn lemma_first_wanted_prefix(files: Seq<TaggedFileView>, want: FileWantedView, k: int)
    requires
        0 <= k <= files.len(),
        first_wanted(files.take(k), want) is Some,
    ensures
        first_wanted(files, want) == first_wanted(files.take(k), want),
    decreases files.len() - k,
{
    if k < files.len() {
        assert(files.take(k + 1).drop_last() =~= files.take(k));
        lemma_first_wanted_prefix(files, want, k + 1);
    } else {
        assert(files.take(k) =~= files);
    }
}

/// The pin steps of a path are missing where those of a prefix are.
pub proof fn lemma_pin_steps_prefix(s: StoreView, tags: Seq<TagTypeView>, k: int)
    requires
        0 <= k <= tags.len(),
        s.pin_steps(tags.take(k)) is None,
    ensures
        s.pin_steps(tags) is None,
    decreases tags.len() - k,
{
    if k < tags.len() {
        assert(tags.take(k + 1).drop_last() =~= tags.take(k));
        lemma_pin_steps_prefix(s, tags, k + 1);
    } else {
        assert(tags.take(k) =~= tags);
    }
}

/// Whether `ids` holds `x`.
pub fn contains_id(ids: &[i64], x: i64) -> (r: bool)
    ensures
        r == ids@.contains(x),
{
    let mut i: usize = 0;
    while i < ids.len()
        invariant
            i <= ids.len(),
            forall|j: int| 0 <= j < i ==> ids@[j] != x,
        decreases ids.len() - i,
    {
        if ids[i] == x {
            return true;
        }
        i += 1;
    }
    false
}

/// Whether the pin begins with the steps.
pub fn pin_starts_with(pin: &[PinId], steps: &[PinId]) -> (r: bool)
    ensures
        r == starts_with_steps(pin@, steps@),
{
    if steps.len() > pin.len() {
        return false;
    }
    let mut i: usize = 0;
    while i < steps.len()
        invariant
            i <= steps.len() <= pin.len(),
            forall|j: int| 0 <= j < i ==> pin@[j] == steps@[j],
        decreases steps.len() - i,
    {
        if pin[i] != steps[i] {
            assert(pin@.subrange(0, steps.len() as int)[i as int] != steps@[i as int]);
            return false;
        }
        i += 1;
    }
    assert(pin@.subrange(0, steps.len() as int) =~= steps@);
    true
}

impl Store {
    /// The tag of the given name.
    pub fn get_tag(&self, tag: &str) -> (r: Option<Tag>)
        ensures
            match r {
                Some(t) => self@.tag_named(tag@) == Some(t@),
                None => self@.tag_named(tag@) is None,
            },
    {
        match self.find_tag(tag) {
            Some(i) => Some(self.tags[i].clone()),
            None => None,
        }
    }

    /// The tag of the given id.
    pub fn get_tag_by_id(&self, id: i64) -> (r: Option<Tag>)
        ensures
            match r {
                Some(t) => self@.tag_by_id(id) == Some(t@),
                None => self@.tag_by_id(id) is None,
            },
    {
        match self.find_tag_by_id(id) {
            Some(i) => Some(self.tags[i].clone()),
            None => None,
        }
    }

    /// The id of the tag of the given name.
    pub fn get_tag_id(&self, tag: &str) -> (r: Option<i64>)
        ensures
            match r {
                Some(id) => self@.tag_named(tag@) is Some && self@.tag_named(tag@)->0.id == id,
                None => self@.tag_named(tag@) is None,
            },
    {
        match self.find_tag(tag) {
            Some(i) => Some(self.tags[i].id),
            None => None,
        }
    }

    /// The id of the tag group of the given name.
    pub fn get_tag_group_id(&self, group: &str) -> (r: Option<i64>)
        ensures
            match r {
                Some(id) => self@.group_named(group@) is Some && self@.group_named(group@)->0.id
                    == id,
                None => self@.group_named(group@) is None,
            },
    {
        match self.find_group(group) {
            Some(i) => Some(self.groups[i].id),
            None => None,
        }
    }

    /// Whether a tag of the given name exists.
    pub fn tag_exists(&self, name: &str) -> (r: bool)
        ensures
            r == (self@.tag_named(name@) is Some),
    {
        self.find_tag(name).is_some()
    }

    /// Whether a tag group of the given name exists.
    pub fn tag_group_exists(&self, name: &str) -> (r: bool)
        ensures
            r == (self@.group_named(name@) is Some),
    {
        self.find_group(name).is_some()
    }

    /// All tags, in name order.
    pub fn get_all_tags(&self) -> (out: Vec<Tag>)
        ensures
            tag_rows(out@) == self@.tags,
    {
        let mut out: Vec<Tag> = Vec::new();
        let mut i: usize = 0;
        while i < self.tags.len()
            invariant
                i <= self.tags.len(),
                tag_rows(out@) =~= self@.tags.take(i as int),
            decreases self.tags.len() - i,
        {
            let ghost before = tag_rows(out@);
            let t = self.tags[i].clone();
            out.push(t);
            assert(tag_rows(out@) =~= before.push(t@));
            i += 1;
        }
        assert(self@.tags.take(self.tags.len() as int) =~= self@.tags);
        out
    }

    /// The ids of the members of the group, in the order they joined.
    pub fn member_ids(&self, tg_id: i64) -> (out: Vec<i64>)
        ensures
            out@ == self@.member_ids(tg_id),
    {
        let ghost f = |m: Member|
            if m.tg_id == tg_id {
                Some(m.tag_id)
            } else {
                None
            };
        let mut out: Vec<i64> = Vec::new();
        let mut i: usize = 0;
        assert(self.members@.take(0).filter_map(f) =~= Seq::<i64>::empty());
        while i < self.members.len()
            invariant
                i <= self.members.len(),
                f == (|m: Member|
                    if m.tg_id == tg_id {
                        Some(m.tag_id)
                    } else {
                        None
                    }),
                out@ == self.members@.take(i as int).filter_map(f),
            decreases self.members.len() - i,
        {
            let ghost next = self.members@.take(i as int + 1);
            assert(next.drop_last() =~= self.members@.take(i as int));
            if self.members[i].tg_id == tg_id {
                out.push(self.members[i].tag_id);
            }
            assert(out@ =~= next.filter_map(f));
            i += 1;
        }
        assert(self.members@.take(self.members.len() as int) =~= self.members@);
        out
    }

    /// The ids of those members of the group that are among `ids`.
    pub fn member_ids_among(&self, tg_id: i64, ids: &[i64]) -> (out: Vec<i64>)
        ensures
            out@ == self@.member_ids_among(tg_id, ids@),
    {
        let ghost f = |m: Member|
            if m.tg_id == tg_id && ids@.contains(m.tag_id) {
                Some(m.tag_id)
            } else {
                None
            };
        let mut out: Vec<i64> = Vec::new();
        let mut i: usize = 0;
        assert(self.members@.take(0).filter_map(f) =~= Seq::<i64>::empty());
        while i < self.members.len()
            invariant
                i <= self.members.len(),
                f == (|m: Member|
                    if m.tg_id == tg_id && ids@.contains(m.tag_id) {
                        Some(m.tag_id)
                    } else {
                        None
                    }),
                out@ == self.members@.take(i as int).filter_map(f),
            decreases self.members.len() - i,
        {
            let ghost next = self.members@.take(i as int + 1);
            assert(next.drop_last() =~= self.members@.take(i as int));
            if self.members[i].tg_id == tg_id && contains_id(ids, self.members[i].tag_id) {
                out.push(self.members[i].tag_id);
            }
            assert(out@ =~= next.filter_map(f));
            i += 1;
        }
        assert(self.members@.take(self.members.len() as int) =~= self.members@);
        out
    }

    /// A group row as a record.
    pub fn group_record(g: &GroupRow, ids: Vec<i64>, num_files: i64) -> (r: TagGroup)
        ensures
            r@ == StoreView::group_record(g@, ids@, num_files),
    {
        TagGroup {
            id: g.id,
            name: g.name.clone(),
            mtime: g.mtime,
            uid: g.uid,
            gid: g.gid,
            permissions: g.permissions,
            tag_ids: ids,
            num_files,
        }
    }

    /// The tag group of the given name, with all of its members.
    pub fn get_tag_group(&self, name: &str) -> (r: Option<TagGroup>)
        ensures
            match r {
                Some(g) => self@.group_named(name@) is Some && g@ == StoreView::group_record(
                    self@.group_named(name@)->0,
                    self@.member_ids(self@.group_named(name@)->0.id),
                    0,
                ),
                None => self@.group_named(name@) is None,
            },
    {
        match self.find_group(name) {
            Some(i) => {
                let g = &self.groups[i];
                Some(Self::group_record(g, self.member_ids(g.id), 0))
            },
            None => None,
        }
    }

    /// The tag group of the given id, where it has a member.
    pub fn get_tag_group_by_id(&self, id: i64) -> (r: Option<TagGroup>)
        ensures
            match r {
                Some(g) => self@.step_record(PinId::Group(id)) == Some(
                    TagOrTagGroupView::Group(g@),
                ),
                None => self@.step_record(PinId::Group(id)) is None,
            },
    {
        match self.find_group_by_id(id) {
            Some(i) => {
                let g = &self.groups[i];
                let ids = self.member_ids(id);
                if ids.len() > 0 {
                    Some(Self::group_record(g, ids, 0))
                } else {
                    None
                }
            },
            None => None,
        }
    }

    /// All tag groups, in name order.
    pub fn get_all_tag_groups(&self) -> (out: Vec<TagGroup>)
        ensures
            group_rows(out@) == self@.all_groups(),
    {
        let mut out: Vec<TagGroup> = Vec::new();
        let mut i: usize = 0;
        while i < self.groups.len()
            invariant
                i <= self.groups.len(),
                group_rows(out@) =~= self@.all_groups().take(i as int),
            decreases self.groups.len() - i,
        {
            let g = &self.groups[i];
            let rec = Self::group_record(g, self.member_ids(g.id), 0);
            assert(self@.all_groups()[i as int] == rec@);
            let ghost before = group_rows(out@);
            out.push(rec);
            assert(group_rows(out@) =~= before.push(rec@));
            i += 1;
        }
        assert(self@.all_groups().take(self.groups.len() as int) =~= self@.all_groups());
        out
    }

    /// The tags of the group, in name order.
    pub fn get_tags_in_tag_group(&self, name: &str) -> (out: Vec<Tag>)
        ensures
            tag_rows(out@) == self@.tags.filter(|t: TagView| self@.tag_in_group(name@, t.name)),
    {
        let ghost f = |t: TagView| self@.tag_in_group(name@, t.name);
        let mut out: Vec<Tag> = Vec::new();
        let mut i: usize = 0;
        proof {
            reveal(Seq::filter);
        }
        assert(self@.tags.take(0).filter(f) =~= Seq::<TagView>::empty());
        assert(tag_rows(out@) =~= Seq::<TagView>::empty());
        while i < self.tags.len()
            invariant
                i <= self.tags.len(),
                f == (|t: TagView| self@.tag_in_group(name@, t.name)),
                tag_rows(out@) == self@.tags.take(i as int).filter(f),
            decreases self.tags.len() - i,
        {
            let ghost next = self@.tags.take(i as int + 1);
            assert(next.drop_last() =~= self@.tags.take(i as int));
            assert(next.last() == self.tags@[i as int]@);
            let ghost before = tag_rows(out@);
            proof {
                reveal(Seq::filter);
            }
            if self.tag_is_in_group(name, self.tags[i].name.as_str()) {
                out.push(self.tags[i].clone());
                assert(tag_rows(out@) =~= before.push(self.tags@[i as int]@));
            }
            assert(tag_rows(out@) =~= next.filter(f));
            i += 1;
        }
        assert(self@.tags.take(self.tags.len() as int) =~= self@.tags);
        out
    }

    /// The names of the tags of the group, in name order.
    pub fn tag_names_for_tag_group(&self, group: &str) -> (out: Vec<String>)
        ensures
            views_of(out@) == tag_names(
                self@.tags.filter(|t: TagView| self@.tag_in_group(group@, t.name)),
            ),
    {
        let tags = self.get_tags_in_tag_group(group);
        let mut out: Vec<String> = Vec::new();
        let mut i: usize = 0;
        while i < tags.len()
            invariant
                i <= tags.len(),
                views_of(out@) =~= tag_names(tag_rows(tags@)).take(i as int),
            decreases tags.len() - i,
        {
            let ghost before = views_of(out@);
            assert(tag_names(tag_rows(tags@))[i as int] == tags@[i as int].name@);
            out.push(tags[i].name.clone());
            assert(views_of(out@) =~= before.push(tags@[i as int].name@));
            i += 1;
        }
        assert(tag_names(tag_rows(tags@)).take(tags.len() as int) =~= tag_names(tag_rows(tags@)));
        out
    }

    /// The names of the tags of the given ids, in name order.
    pub fn resolve_tag_ids(&self, ids: &[i64]) -> (out: Vec<String>)
        ensures
            views_of(out@) == tag_names(self@.tags.filter(|t: TagView| ids@.contains(t.id))),
    {
        let ghost f = |t: TagView| ids@.contains(t.id);
        let mut out: Vec<String> = Vec::new();
        let mut i: usize = 0;
        proof {
            reveal(Seq::filter);
        }
        assert(tag_names(self@.tags.take(0).filter(f)) =~= Seq::<Seq<char>>::empty());
        assert(views_of(out@) =~= Seq::<Seq<char>>::empty());
        while i < self.tags.len()
            invariant
                i <= self.tags.len(),
                f == (|t: TagView| ids@.contains(t.id)),
                views_of(out@) == tag_names(self@.tags.take(i as int).filter(f)),
            decreases self.tags.len() - i,
        {
            let ghost next = self@.tags.take(i as int + 1);
            assert(next.drop_last() =~= self@.tags.take(i as int));
            assert(next.last() == self.tags@[i as int]@);
            let ghost before = views_of(out@);
            let ghost kept = self@.tags.take(i as int).filter(f);
            proof {
                reveal(Seq::filter);
            }
            if contains_id(ids, self.tags[i].id) {
                assert(next.filter(f) == kept.push(self.tags@[i as int]@));
                assert(tag_names(kept.push(self.tags@[i as int]@)) =~= tag_names(kept).push(
                    self.tags@[i as int].name@,
                ));
                out.push(self.tags[i].name.clone());
                assert(views_of(out@) =~= before.push(self.tags@[i as int].name@));
            }
            assert(views_of(out@) =~= tag_names(next.filter(f)));
            i += 1;
        }
        assert(self@.tags.take(self.tags.len() as int) =~= self@.tags);
        out
    }

    /// The tag as it shows below the path, if it shows there.
    pub fn tag_below(&self, t: &Tag, tags: &[TagType], exclude: bool) -> (r: Option<Tag>)
        ensures
            match r {
                Some(x) => self@.tag_below(t@, tag_views(tags@), exclude) == Some(x@),
                None => self@.tag_below(t@, tag_views(tags@), exclude) is None,
            },
    {
        let ghost tv = tag_views(tags@);
        let ghost p = |l: Link| l.tag_id == t.id && self@.at_path(l.file_id, tv);
        let mut count: usize = 0;
        let mut newest: u64 = 0;
        let mut i: usize = 0;
        proof {
            reveal(Seq::filter);
        }
        assert(self.links@.take(0).filter(p) =~= Seq::<Link>::empty());
        while i < self.links.len()
            invariant
                i <= self.links.len(),
                tv == tag_views(tags@),
                p == (|l: Link| l.tag_id == t.id && self@.at_path(l.file_id, tv)),
                count == self.links@.take(i as int).filter(p).len(),
                count <= i,
                newest == latest(self.links@.take(i as int).filter(p)),
            decreases self.links.len() - i,
        {
            let ghost prev = self.links@.take(i as int);
            let ghost next = self.links@.take(i as int + 1);
            assert(next.drop_last() =~= prev);
            proof {
                reveal(Seq::filter);
            }
            let l = self.links[i];
            if l.tag_id == t.id && self.at_path(l.file_id, tags) {
                assert(next.filter(p) == prev.filter(p).push(l));
                assert(next.filter(p).drop_last() =~= prev.filter(p));
                count += 1;
                if l.mtime > newest {
                    newest = l.mtime;
                }
            } else {
                assert(next.filter(p) == prev.filter(p));
            }
            i += 1;
        }
        assert(self.links@.take(self.links.len() as int) =~= self.links@);
        if count == 0 || (count as u64) > 0x7fff_ffff_ffff_ffffu64 {
            return None;
        }
        if exclude {
            let own = collect_regular_names(tags);
            let mut k: usize = 0;
            while k < own.len()
                invariant
                    k <= own.len(),
                    exclude,
                    views_of(own@) == regular_names(tag_views(tags@)),
                    forall|j: int| 0 <= j < k ==> views_of(own@)[j] != t.name@,
                decreases own.len() - k,
            {
                if str_eq(own[k].as_str(), t.name.as_str()) {
                    assert(regular_names(tag_views(tags@))[k as int] == t.name@);
                    assert(regular_names(tag_views(tags@)).contains(t.name@));
                    return None;
                }
                k += 1;
            }
        }
        if tags.len() > 0 {
            assert(tv.last() == tags@.last()@);
            match &tags[tags.len() - 1] {
                TagType::Group(g) => {
                    if !self.tag_is_in_group(g.as_str(), t.name.as_str()) {
                        return None;
                    }
                },
                _ => {},
            }
        }
        Some(
            Tag {
                id: t.id,
                name: t.name.clone(),
                mtime: newest,
                uid: t.uid,
                gid: t.gid,
                permissions: t.permissions,
                num_files: count as i64,
            },
        )
    }

    /// The tags that show below the path, in name order. Without
    /// `exclude_provided` the path's own tags are among them.
    pub fn intersect_tag(&self, tags: &[TagType], exclude_provided: bool) -> (out: Vec<Tag>)
        ensures
            tag_rows(out@) == self@.tags_below(tag_views(tags@), exclude_provided),
    {
        if tags.len() == 0 {
            return self.get_all_tags();
        }
        let ghost tv = tag_views(tags@);
        let ghost f = |t: TagView| self@.tag_below(t, tv, exclude_provided);
        let mut out: Vec<Tag> = Vec::new();
        let mut i: usize = 0;
        assert(self@.tags.take(0).filter_map(f) =~= Seq::<TagView>::empty());
        assert(tag_rows(out@) =~= Seq::<TagView>::empty());
        while i < self.tags.len()
            invariant
                i <= self.tags.len(),
                tv == tag_views(tags@),
                f == (|t: TagView| self@.tag_below(t, tv, exclude_provided)),
                tag_rows(out@) == self@.tags.take(i as int).filter_map(f),
            decreases self.tags.len() - i,
        {
            let ghost next = self@.tags.take(i as int + 1);
            assert(next.drop_last() =~= self@.tags.take(i as int));
            assert(next.last() == self.tags@[i as int]@);
            let ghost before = tag_rows(out@);
            match self.tag_below(&self.tags[i], tags, exclude_provided) {
                Some(t) => {
                    out.push(t);
                    assert(tag_rows(out@) =~= before.push(t@));
                },
                None => {},
            }
            assert(tag_rows(out@) =~= next.filter_map(f));
            i += 1;
        }
        assert(self@.tags.take(self.tags.len() as int) =~= self@.tags);
        out
    }

    /// The tag groups that hold at least one of the given tags, in name
    /// order, each with the given file count.
    pub fn groups_of_tags(&self, tag_ids: &[i64], num_files: i64) -> (out: Vec<TagGroup>)
        ensures
            group_rows(out@) == self@.groups_of_tags(tag_ids@, num_files),
    {
        let ghost f = |g: GroupRowView|
            if self@.member_ids_among(g.id, tag_ids@).len() > 0 {
                Some(
                    StoreView::group_record(g, self@.member_ids_among(g.id, tag_ids@), num_files),
                )
            } else {
                None
            };
        let mut out: Vec<TagGroup> = Vec::new();
        let mut i: usize = 0;
        assert(self@.groups.take(0).filter_map(f) =~= Seq::<TagGroupView>::empty());
        assert(group_rows(out@) =~= Seq::<TagGroupView>::empty());
        while i < self.groups.len()
            invariant
                i <= self.groups.len(),
                f == (|g: GroupRowView|
                    if self@.member_ids_among(g.id, tag_ids@).len() > 0 {
                        Some(
                            StoreView::group_record(
                                g,
                                self@.member_ids_among(g.id, tag_ids@),
                                num_files,
                            ),
                        )
                    } else {
                        None
                    }),
                group_rows(out@) == self@.groups.take(i as int).filter_map(f),
            decreases self.groups.len() - i,
        {
            let ghost next = self@.groups.take(i as int + 1);
            assert(next.drop_last() =~= self@.groups.take(i as int));
            assert(next.last() == self.groups@[i as int]@);
            let ghost before = group_rows(out@);
            let g = &self.groups[i];
            let ids = self.member_ids_among(g.id, tag_ids);
            if ids.len() > 0 {
                let rec = Self::group_record(g, ids, num_files);
                out.push(rec);
                assert(group_rows(out@) =~= before.push(rec@));
            }
            assert(group_rows(out@) =~= next.filter_map(f));
            i += 1;
        }
        assert(self@.groups.take(self.groups.len() as int) =~= self@.groups);
        out
    }

    /// The tag groups that hold at least one of the given tags.
    pub fn tag_groups_for_tags(&self, tag_ids: &[i64]) -> (out: Vec<TagGroup>)
        ensures
            group_rows(out@) == self@.groups_of_tags(tag_ids@, 0),
    {
        self.groups_of_tags(tag_ids, 0)
    }

    /// The tag groups that hold the given tag.
    pub fn tag_groups_for_tag(&self, tag_id: i64) -> (out: Vec<TagGroup>)
        ensures
            group_rows(out@) == self@.groups_of_tags(seq![tag_id], 0),
    {
        let ids: Vec<i64> = vec![tag_id];
        assert(ids@ =~= seq![tag_id]);
        self.groups_of_tags(ids.as_slice(), 0)
    }

    /// The number of files at the intersection of the path's tags.
    pub fn num_files_for_intersection(&self, tags: &[TagType]) -> (n: i64)
        ensures
            n == self@.files_in_intersection(tag_views(tags@)),
    {
        let mut all_but_last = collect_regular(tags);
        let ghost r = tag_views(all_but_last@);
        match all_but_last.pop() {
            Some(last_tag) => {
                assert(tag_views(all_but_last@) =~= r.drop_last());
                assert(r.last() == last_tag@);
                let itags = self.intersect_tag(all_but_last.as_slice(), true);
                match last_tag {
                    TagType::Regular(last_tag_name) => {
                        let ghost names = tag_names(tag_rows(itags@));
                        let mut i: usize = 0;
                        while i < itags.len()
                            invariant
                                i <= itags.len(),
                                names == tag_names(tag_rows(itags@)),
                                r == regulars(tag_views(tags@)),
                                r.len() > 0,
                                r.last() == TagTypeView::Regular(last_tag_name@),
                                tag_rows(itags@) == self@.tags_below(r.drop_last(), true),
                                forall|j: int| 0 <= j < i ==> names[j] != last_tag_name@,
                            decreases itags.len() - i,
                        {
                            if str_eq(itags[i].name.as_str(), last_tag_name.as_str()) {
                                proof {
                                    crate::sql::model::lemma_find_first_is(
                                        names,
                                        last_tag_name@,
                                        Some(i as int),
                                    );
                                }
                                return itags[i].num_files;
                            }
                            i += 1;
                        }
                        proof {
                            crate::sql::model::lemma_find_first_is(names, last_tag_name@, None);
                        }
                        0
                    },
                    _ => 0,
                }
            },
            None => 0,
        }
    }

    /// The tag groups that show below the path.
    pub fn tag_group_intersections(&self, tags: &[TagType]) -> (out: Vec<TagGroup>)
        ensures
            group_rows(out@) == self@.groups_below(tag_views(tags@)),
    {
        let itags = self.intersect_tag(tags, true);
        let sum_tag_files = self.num_files_for_intersection(tags);
        let mut ids: Vec<i64> = Vec::new();
        let mut i: usize = 0;
        while i < itags.len()
            invariant
                i <= itags.len(),
                ids@ =~= tag_ids(tag_rows(itags@)).take(i as int),
            decreases itags.len() - i,
        {
            ids.push(itags[i].id);
            i += 1;
        }
        assert(tag_ids(tag_rows(itags@)).take(itags.len() as int) =~= tag_ids(tag_rows(itags@)));
        self.groups_of_tags(ids.as_slice(), sum_tag_files)
    }

    /// The number of distinct files that carry a member of the group.
    pub fn num_files_for_tag_group(&self, tg: &str) -> (n: usize)
        ensures
            n == self@.files_of_group(tg@).len(),
    {
        let ghost f = |f: FileRowView| self@.carries_any_of(f.id, tg@);
        let mut n: usize = 0;
        let mut i: usize = 0;
        proof {
            reveal(Seq::filter);
        }
        assert(self@.files.take(0).filter(f) =~= Seq::<FileRowView>::empty());
        while i < self.files.len()
            invariant
                i <= self.files.len(),
                n <= i,
                f == (|f: FileRowView| self@.carries_any_of(f.id, tg@)),
                n == self@.files.take(i as int).filter(f).len(),
            decreases self.files.len() - i,
        {
            let ghost next = self@.files.take(i as int + 1);
            assert(next.drop_last() =~= self@.files.take(i as int));
            assert(next.last() == self.files@[i as int]@);
            proof {
                reveal(Seq::filter);
            }
            if self.carries_any_of(self.files[i].id, tg) {
                n += 1;
            }
            i += 1;
        }
        assert(self@.files.take(self.files.len() as int) =~= self@.files);
        n
    }

    /// The first file at the path that is the one looked for.
    pub fn contains_file(&self, tags: &[TagType], want: &FileWanted) -> (r: Option<TaggedFile>)
        ensures
            match r {
                Some(f) => first_wanted(self@.files_at(tag_views(tags@)), want@) == Some(f@),
                None => first_wanted(self@.files_at(tag_views(tags@)), want@) is None,
            },
    {
        let ifiles = self.files_tagged_with(tags);
        let ghost all = file_rows(ifiles@);
        let mut i: usize = 0;
        assert(all.take(0) =~= Seq::<TaggedFileView>::empty());
        while i < ifiles.len()
            invariant
                i <= ifiles.len(),
                all == file_rows(ifiles@),
                all == self@.files_at(tag_views(tags@)),
                first_wanted(all.take(i as int), want@) is None,
            decreases ifiles.len() - i,
        {
            assert(all.take(i + 1).drop_last() =~= all.take(i as int));
            assert(all.take(i + 1).last() == ifiles@[i as int]@);
            let hit = match want {
                FileWanted::Device(df) => df.matches(&ifiles[i]),
                FileWanted::Named(n) => str_eq(ifiles[i].primary_tag.as_str(), n.as_str()),
            };
            if hit {
                proof {
                    assert(is_wanted(want@, ifiles@[i as int]@));
                    assert(first_wanted(all.take(i + 1), want@) == Some(ifiles@[i as int]@));
                    lemma_first_wanted_prefix(all, want@, i + 1);
                }
                return Some(ifiles[i].clone());
            }
            i += 1;
        }
        assert(all.take(ifiles.len() as int) =~= all);
        None
    }

    /// The path as pin steps, where all of its tags and tag groups exist.
    pub fn pin_steps(&self, tags: &[TagType]) -> (r: Option<Vec<PinId>>)
        ensures
            match r {
                Some(steps) => self@.pin_steps(tag_views(tags@)) == Some(steps@),
                None => self@.pin_steps(tag_views(tags@)) is None,
            },
    {
        let ghost tv = tag_views(tags@);
        let mut steps: Vec<PinId> = Vec::new();
        let mut i: usize = 0;
        assert(tv.take(0) =~= Seq::<TagTypeView>::empty());
        while i < tags.len()
            invariant
                i <= tags.len(),
                tv == tag_views(tags@),
                self@.pin_steps(tv.take(i as int)) == Some(steps@),
            decreases tags.len() - i,
        {
            assert(tv.take(i + 1).drop_last() =~= tv.take(i as int));
            assert(tv.take(i + 1).last() == tags@[i as int]@);
            match &tags[i] {
                TagType::Regular(tag) => match self.find_tag(tag.as_str()) {
                    Some(t) => {
                        steps.push(PinId::Tag(self.tags[t].id));
                    },
                    None => {
                        proof {
                            lemma_pin_steps_prefix(self@, tv, i + 1);
                        }
                        return None;
                    },
                },
                TagType::Group(group) => match self.find_group(group.as_str()) {
                    Some(g) => {
                        steps.push(PinId::Group(self.groups[g].id));
                    },
                    None => {
                        proof {
                            lemma_pin_steps_prefix(self@, tv, i + 1);
                        }
                        return None;
                    },
                },
                _ => {},
            }
            i += 1;
        }
        assert(tv.take(tags.len() as int) =~= tv);
        Some(steps)
    }

    /// Whether the path is pinned.
    pub fn is_pinned(&self, tags: &[TagType]) -> (r: bool)
        ensures
            r == self@.pinned(tag_views(tags@)),
    {
        let steps = match self.pin_steps(tags) {
            Some(s) => s,
            None => {
                return false;
            },
        };
        let mut i: usize = 0;
        while i < self.pins.len()
            invariant
                i <= self.pins.len(),
                self@.pin_steps(tag_views(tags@)) == Some(steps@),
                forall|j: int| 0 <= j < i ==> #[trigger] self@.pins[j] != steps@,
            decreases self.pins.len() - i,
        {
            if self.pins[i].len() == steps.len() && pin_starts_with(
                self.pins[i].as_slice(),
                steps.as_slice(),
            ) {
                assert(self@.pins[i as int] =~= self@.pins[i as int].subrange(
                    0,
                    steps@.len() as int,
                ));
                return true;
            }
            assert(self@.pins[i as int] == steps@ ==> starts_with_steps(
                self@.pins[i as int],
                steps@,
            )) by {
                assert(steps@.subrange(0, steps@.len() as int) =~= steps@);
            }
            i += 1;
        }
        false
    }

    /// What a pin step stands for.
    pub fn step_record(&self, step: PinId) -> (r: Option<TagOrTagGroup>)
        ensures
            match r {
                Some(x) => self@.step_record(step) == Some(x@),
                None => self@.step_record(step) is None,
            },
    {
        match step {
            PinId::Tag(id) => match self.get_tag_by_id(id) {
                Some(t) => Some(TagOrTagGroup::Tag(t)),
                None => None,
            },
            PinId::Group(id) => match self.get_tag_group_by_id(id) {
                Some(g) => Some(TagOrTagGroup::Group(g)),
                None => None,
            },
        }
    }

    /// The tags and tag groups pinned directly below the path.
    pub fn pinned_subdirs(&self, tags: &[TagType]) -> (out: Vec<TagOrTagGroup>)
        ensures
            either_rows(out@) == self@.pinned_below(tag_views(tags@)),
    {
        let mut out: Vec<TagOrTagGroup> = Vec::new();
        assert(either_rows(out@) =~= Seq::<TagOrTagGroupView>::empty());
        let steps = match self.pin_steps(tags) {
            Some(s) => s,
            None => {
                return out;
            },
        };
        let ghost f = |p: Seq<PinId>| self@.pin_below(p, steps@);
        let mut i: usize = 0;
        assert(self@.pins.take(0).filter_map(f) =~= Seq::<TagOrTagGroupView>::empty());
        while i < self.pins.len()
            invariant
                i <= self.pins.len(),
                f == (|p: Seq<PinId>| self@.pin_below(p, steps@)),
                either_rows(out@) == self@.pins.take(i as int).filter_map(f),
            decreases self.pins.len() - i,
        {
            let ghost next = self@.pins.take(i as int + 1);
            assert(next.drop_last() =~= self@.pins.take(i as int));
            assert(next.last() == self.pins@[i as int]@);
            let ghost before = either_rows(out@);
            let pin = &self.pins[i];
            if pin_starts_with(pin.as_slice(), steps.as_slice()) && pin.len() > steps.len() {
                match self.step_record(pin[steps.len()]) {
                    Some(rec) => {
                        out.push(rec);
                        assert(either_rows(out@) =~= before.push(rec@));
                    },
                    None => {},
                }
            }
            assert(either_rows(out@) =~= next.filter_map(f));
            i += 1;
        }
        assert(self@.pins.take(self.pins.len() as int) =~= self@.pins);
        out
    }
}

} // verus!
