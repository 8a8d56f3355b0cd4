//! The store as a mathematical value: its tables as sequences of rows,
//! what it means for the tables to be well formed, and what every query
//! returns.

use crate::sql::types::{TagGroupView, TagOrTagGroupView, TagView, TaggedFileView};
use crate::sql::tables::pairwise;
use crate::text::lex_lt;
use crate::types::file_perms::{perms_of, Permissions};
use crate::types::{negated_names, regular_names, Micros, TagTypeView};
use vstd::prelude::*;

verus! {

/// A file of the store.
pub struct FileRowView {
    pub id: i64,
    pub device: u64,
    pub inode: u64,
    pub path: Seq<char>,
    pub primary_tag: Seq<char>,
    pub mtime: Micros,
    pub alias_file: Option<Seq<char>>,
}

/// A link between a file and a tag.
#[derive(Debug, Clone, Copy, PartialEq, Eq, Structural)]
pub struct Link {
    pub file_id: i64,
    pub tag_id: i64,
    pub mtime: Micros,
    pub uid: u32,
    pub gid: u32,
    pub permissions: Permissions,
}

/// A tag group of the store.
pub struct GroupRowView {
    pub id: i64,
    pub name: Seq<char>,
    pub mtime: Micros,
    pub uid: u32,
    pub gid: u32,
    pub permissions: Permissions,
}

/// The membership of a tag in a tag group.
#[derive(Debug, Clone, Copy, PartialEq, Eq, Structural)]
pub struct Member {
    pub tg_id: i64,
    pub tag_id: i64,
    pub mtime: Micros,
    pub uid: u32,
    pub gid: u32,
    pub permissions: Permissions,
}

/// One step of a pinned path: a tag or a tag group, by id.
#[derive(Debug, Clone, Copy, PartialEq, Eq, Structural)]
pub enum PinId {
    Tag(i64),
    Group(i64),
}

/// The store as a value.
pub struct StoreView {
    /// The files, ordered by primary tag and then by id.
    pub files: Seq<FileRowView>,
    /// The tags, ordered by name.
    pub tags: Seq<TagView>,
    /// The links between files and tags, in the order they were made.
    pub links: Seq<Link>,
    /// The tag groups, ordered by name.
    pub groups: Seq<GroupRowView>,
    /// The memberships of tags in tag groups, in the order they were made.
    pub members: Seq<Member>,
    /// The pinned paths, in the order they were made.
    pub pins: Seq<Seq<PinId>>,
    /// When the store was last changed.
    pub root_mtime: Micros,
}

/// The position of the first item equal to `x`.
pub open spec fn find_first<T>(s: Seq<T>, x: T) -> Option<int>
    decreases s.len(),
{
    if s.len() == 0 {
        None
    } else {
        match find_first(s.drop_last(), x) {
            Some(i) => Some(i),
            None => if s.last() == x {
                Some(s.len() - 1)
            } else {
                None
            },
        }
    }
}

/// What `find_first` finds is the first position that holds `x`.
pub proof fn lemma_find_first<T>(s: Seq<T>, x: T)
    ensures
        match find_first(s, x) {
            Some(i) => 0 <= i < s.len() && s[i] == x && forall|j: int| 0 <= j < i ==> s[j] != x,
            None => forall|j: int| 0 <= j < s.len() ==> s[j] != x,
        },
    decreases s.len(),
{
    if s.len() > 0 {
        let t = s.drop_last();
        lemma_find_first(t, x);
        assert(forall|j: int| 0 <= j < t.len() ==> t[j] == s[j]);
    }
}

/// A position that holds `x` with no earlier one is what `find_first`
/// finds; where none holds `x`, it finds nothing.
pub proof fn lemma_find_first_is<T>(s: Seq<T>, x: T, r: Option<int>)
    requires
        match r {
            Some(i) => 0 <= i < s.len() && s[i] == x && forall|j: int| 0 <= j < i ==> s[j] != x,
            None => forall|j: int| 0 <= j < s.len() ==> s[j] != x,
        },
    ensures
        find_first(s, x) == r,
{
    lemma_find_first(s, x);
}

/// The names of the tags, in table order.
pub open spec fn tag_names(tags: Seq<TagView>) -> Seq<Seq<char>> {
    tags.map_values(|t: TagView| t.name)
}

/// The ids of the tags, in table order.
pub open spec fn tag_ids(tags: Seq<TagView>) -> Seq<i64> {
    tags.map_values(|t: TagView| t.id)
}

/// The names of the tag groups, in table order.
pub open spec fn group_names(groups: Seq<GroupRowView>) -> Seq<Seq<char>> {
    groups.map_values(|g: GroupRowView| g.name)
}

/// The ids of the tag groups, in table order.
pub open spec fn group_ids(groups: Seq<GroupRowView>) -> Seq<i64> {
    groups.map_values(|g: GroupRowView| g.id)
}

/// The ids of the files, in table order.
pub open spec fn file_ids(files: Seq<FileRowView>) -> Seq<i64> {
    files.map_values(|f: FileRowView| f.id)
}

/// Whether file `a` stands before file `b`: by primary tag, then by id.
pub open spec fn file_before(a: FileRowView, b: FileRowView) -> bool {
    lex_lt(a.primary_tag, b.primary_tag) || (a.primary_tag == b.primary_tag && a.id < b.id)
}

/// Whether the file and the tag are linked.
pub open spec fn linked(links: Seq<Link>, file_id: i64, tag_id: i64) -> bool {
    exists|k: int|
        0 <= k < links.len() && (#[trigger] links[k]).file_id == file_id && links[k].tag_id
            == tag_id
}

/// Whether the tag is a member of the tag group.
pub open spec fn is_member(members: Seq<Member>, tg_id: i64, tag_id: i64) -> bool {
    exists|k: int|
        0 <= k < members.len() && (#[trigger] members[k]).tg_id == tg_id && members[k].tag_id
            == tag_id
}

/// The number of links of a tag.
pub open spec fn count_links(links: Seq<Link>, tag_id: i64) -> nat {
    links.filter(|l: Link| l.tag_id == tag_id).len()
}

impl StoreView {
    /// The tag of the given name.
    pub open spec fn tag_named(self, name: Seq<char>) -> Option<TagView> {
        match find_first(tag_names(self.tags), name) {
            Some(i) => Some(self.tags[i]),
            None => None,
        }
    }

    /// The tag of the given id.
    pub open spec fn tag_by_id(self, id: i64) -> Option<TagView> {
        match find_first(tag_ids(self.tags), id) {
            Some(i) => Some(self.tags[i]),
            None => None,
        }
    }

    /// The tag group of the given name.
    pub open spec fn group_named(self, name: Seq<char>) -> Option<GroupRowView> {
        match find_first(group_names(self.groups), name) {
            Some(i) => Some(self.groups[i]),
            None => None,
        }
    }

    /// The tag group of the given id.
    pub open spec fn group_by_id(self, id: i64) -> Option<GroupRowView> {
        match find_first(group_ids(self.groups), id) {
            Some(i) => Some(self.groups[i]),
            None => None,
        }
    }

    /// The file on the given device with the given inode.
    pub open spec fn file_at(self, device: u64, inode: u64) -> Option<FileRowView> {
        match find_first(
            self.files.map_values(|f: FileRowView| (f.device, f.inode)),
            (device, inode),
        ) {
            Some(i) => Some(self.files[i]),
            None => None,
        }
    }

    /// The file of the given path.
    pub open spec fn file_of_path(self, path: Seq<char>) -> Option<FileRowView> {
        match find_first(self.files.map_values(|f: FileRowView| f.path), path) {
            Some(i) => Some(self.files[i]),
            None => None,
        }
    }

    /// Whether the file carries the tag of the given name.
    pub open spec fn carries(self, file_id: i64, name: Seq<char>) -> bool {
        match self.tag_named(name) {
            Some(t) => linked(self.links, file_id, t.id),
            None => false,
        }
    }

    /// Whether the file carries at least one tag of the group.
    pub open spec fn carries_any_of(self, file_id: i64, group: Seq<char>) -> bool {
        match self.group_named(group) {
            Some(g) => exists|k: int|
                0 <= k < self.members.len() && (#[trigger] self.members[k]).tg_id == g.id
                    && linked(self.links, file_id, self.members[k].tag_id),
            None => false,
        }
    }

    /// Whether the tag of name `tag` is a member of the group of name
    /// `group`.
    pub open spec fn tag_in_group(self, group: Seq<char>, tag: Seq<char>) -> bool {
        match (self.group_named(group), self.tag_named(tag)) {
            (Some(g), Some(t)) => is_member(self.members, g.id, t.id),
            _ => false,
        }
    }

    /// Whether the file stands at the path: the path names a tag or ends
    /// in a tag group, the file carries every tag of the path and, where
    /// the path ends in a tag group, at least one tag of that group, and
    /// it carries none of the negated tags.
    pub open spec fn at_path(self, file_id: i64, tags: Seq<TagTypeView>) -> bool {
        let r = regular_names(tags);
        let n = negated_names(tags);
        let g = last_group(tags);
        &&& r.len() > 0 || g is Some
        &&& forall|i: int| 0 <= i < r.len() ==> self.carries(file_id, #[trigger] r[i])
        &&& g is Some ==> self.carries_any_of(file_id, g->0)
        &&& forall|i: int| 0 <= i < n.len() ==> !self.carries(file_id, #[trigger] n[i])
    }

    /// The file as it shows under a path: with the time, owner and
    /// permissions of its most recent link.
    pub open spec fn tagged(self, f: FileRowView) -> TaggedFileView {
        match best_link(self.links, f.id) {
            Some(l) => TaggedFileView {
                id: f.id,
                inode: f.inode,
                device: f.device,
                path: f.path,
                primary_tag: f.primary_tag,
                mtime: l.mtime,
                uid: l.uid,
                gid: l.gid,
                permissions: l.permissions,
                alias_file: f.alias_file,
            },
            None => TaggedFileView {
                id: f.id,
                inode: f.inode,
                device: f.device,
                path: f.path,
                primary_tag: f.primary_tag,
                mtime: f.mtime,
                uid: 0,
                gid: 0,
                permissions: perms_of(0),
                alias_file: f.alias_file,
            },
        }
    }

    /// The files at the path, in table order.
    pub open spec fn files_at(self, tags: Seq<TagTypeView>) -> Seq<TaggedFileView> {
        self.files.filter_map(
            |f: FileRowView|
                if self.at_path(f.id, tags) {
                    Some(self.tagged(f))
                } else {
                    None
                },
        )
    }

    /// The links of the tag to files at the path.
    pub open spec fn hits(self, tag_id: i64, tags: Seq<TagTypeView>) -> Seq<Link> {
        self.links.filter(|l: Link| l.tag_id == tag_id && self.at_path(l.file_id, tags))
    }

    /// The tag as it shows below the path, if it shows there: it is
    /// linked to a file at the path; where asked, it is none of the
    /// path's own tags; where the path ends in a tag group, it is a
    /// member of that group. It shows with the number of its files at the
    /// path and the time of the most recent of those links.
    pub open spec fn tag_below(self, t: TagView, tags: Seq<TagTypeView>, exclude: bool) -> Option<
        TagView,
    > {
        let h = self.hits(t.id, tags);
        let own = exclude && regular_names(tags).contains(t.name);
        let outside = match last_group(tags) {
            Some(g) => !self.tag_in_group(g, t.name),
            None => false,
        };
        if h.len() > 0 && h.len() <= i64::MAX && !own && !outside {
            Some(
                TagView {
                    id: t.id,
                    name: t.name,
                    mtime: latest(h),
                    uid: t.uid,
                    gid: t.gid,
                    permissions: t.permissions,
                    num_files: h.len() as i64,
                },
            )
        } else {
            None
        }
    }

    /// The tags that show below the path, in name order: all tags, for the
    /// empty path.
    pub open spec fn tags_below(self, tags: Seq<TagTypeView>, exclude: bool) -> Seq<TagView> {
        if tags.len() == 0 {
            self.tags
        } else {
            self.tags.filter_map(|t: TagView| self.tag_below(t, tags, exclude))
        }
    }

    /// The ids of the members of the group, in the order they joined.
    pub open spec fn member_ids(self, tg_id: i64) -> Seq<i64> {
        self.members.filter_map(
            |m: Member|
                if m.tg_id == tg_id {
                    Some(m.tag_id)
                } else {
                    None
                },
        )
    }

    /// The ids of those members of the group that are among `ids`.
    pub open spec fn member_ids_among(self, tg_id: i64, ids: Seq<i64>) -> Seq<i64> {
        self.members.filter_map(
            |m: Member|
                if m.tg_id == tg_id && ids.contains(m.tag_id) {
                    Some(m.tag_id)
                } else {
                    None
                },
        )
    }

    /// A group as a record, with the given member ids and file count.
    pub open spec fn group_record(g: GroupRowView, ids: Seq<i64>, num_files: i64) -> TagGroupView {
        TagGroupView {
            id: g.id,
            name: g.name,
            mtime: g.mtime,
            uid: g.uid,
            gid: g.gid,
            permissions: g.permissions,
            tag_ids: ids,
            num_files,
        }
    }

    /// All tag groups, in name order, each with all of its members.
    pub open spec fn all_groups(self) -> Seq<TagGroupView> {
        self.groups.map_values(
            |g: GroupRowView| Self::group_record(g, self.member_ids(g.id), 0),
        )
    }

    /// The tag groups that hold at least one of the given tags, in name
    /// order, each with those of its members that are among the given.
    pub open spec fn groups_of_tags(self, ids: Seq<i64>, num_files: i64) -> Seq<TagGroupView> {
        self.groups.filter_map(
            |g: GroupRowView|
                if self.member_ids_among(g.id, ids).len() > 0 {
                    Some(Self::group_record(g, self.member_ids_among(g.id, ids), num_files))
                } else {
                    None
                },
        )
    }

    /// The number of files at the intersection of the path's tags: the
    /// files that the last tag has among those that carry the others.
    pub open spec fn files_in_intersection(self, tags: Seq<TagTypeView>) -> i64 {
        let r = crate::types::regulars(tags);
        if r.len() == 0 {
            0
        } else {
            let below = self.tags_below(r.drop_last(), true);
            match (r.last(), find_first(tag_names(below), crate::types::regular_name(r.last())->0)) {
                (TagTypeView::Regular(_), Some(i)) => below[i].num_files,
                _ => 0,
            }
        }
    }

    /// The tag groups that show below the path.
    pub open spec fn groups_below(self, tags: Seq<TagTypeView>) -> Seq<TagGroupView> {
        self.groups_of_tags(
            tag_ids(self.tags_below(tags, true)),
            self.files_in_intersection(tags),
        )
    }

    /// The distinct files that carry a member of the group.
    pub open spec fn files_of_group(self, group: Seq<char>) -> Seq<FileRowView> {
        self.files.filter(|f: FileRowView| self.carries_any_of(f.id, group))
    }

    /// The path as pin steps: the id of each tag and tag group of the
    /// path, where all of them exist.
    pub open spec fn pin_steps(self, tags: Seq<TagTypeView>) -> Option<Seq<PinId>>
        decreases tags.len(),
    {
        if tags.len() == 0 {
            Some(Seq::empty())
        } else {
            match self.pin_steps(tags.drop_last()) {
                None => None,
                Some(head) => match tags.last() {
                    TagTypeView::Regular(n) => match self.tag_named(n) {
                        Some(t) => Some(head.push(PinId::Tag(t.id))),
                        None => None,
                    },
                    TagTypeView::Group(n) => match self.group_named(n) {
                        Some(g) => Some(head.push(PinId::Group(g.id))),
                        None => None,
                    },
                    _ => Some(head),
                },
            }
        }
    }

    /// Whether the path is pinned: some pin is the steps of the path.
    pub open spec fn pinned(self, tags: Seq<TagTypeView>) -> bool {
        match self.pin_steps(tags) {
            Some(steps) => exists|k: int| 0 <= k < self.pins.len() && #[trigger] self.pins[k] == steps,
            None => false,
        }
    }

    /// What a pin step stands for: the tag, or the tag group where it has
    /// a member.
    pub open spec fn step_record(self, step: PinId) -> Option<TagOrTagGroupView> {
        match step {
            PinId::Tag(id) => match self.tag_by_id(id) {
                Some(t) => Some(TagOrTagGroupView::Tag(t)),
                None => None,
            },
            PinId::Group(id) => match self.group_by_id(id) {
                Some(g) => if self.member_ids(id).len() > 0 {
                    Some(
                        TagOrTagGroupView::Group(Self::group_record(g, self.member_ids(id), 0)),
                    )
                } else {
                    None
                },
                None => None,
            },
        }
    }

    /// What one pin adds below the path with the given steps: the record
    /// of its first step beyond them.
    pub open spec fn pin_below(self, pin: Seq<PinId>, steps: Seq<PinId>) -> Option<
        TagOrTagGroupView,
    > {
        if starts_with_steps(pin, steps) && pin.len() > steps.len() {
            self.step_record(pin[steps.len() as int])
        } else {
            None
        }
    }

    /// The tags and tag groups pinned directly below the path, one for
    /// each pin that goes on beyond the path, in the order of the pins.
    pub open spec fn pinned_below(self, tags: Seq<TagTypeView>) -> Seq<TagOrTagGroupView> {
        match self.pin_steps(tags) {
            Some(steps) => self.pins.filter_map(|p: Seq<PinId>| self.pin_below(p, steps)),
            None => Seq::empty(),
        }
    }
}

/// The name of the tag group that the path ends in.
pub open spec fn last_group(tags: Seq<TagTypeView>) -> Option<Seq<char>> {
    if tags.len() > 0 && tags.last() is Group {
        Some(tags.last()->Group_0)
    } else {
        None
    }
}

/// The most recent link of the file: of several equally recent, the
/// earliest made.
pub open spec fn best_link(links: Seq<Link>, file_id: i64) -> Option<Link>
    decreases links.len(),
{
    if links.len() == 0 {
        None
    } else {
        let head = best_link(links.drop_last(), file_id);
        let l = links.last();
        if l.file_id != file_id {
            head
        } else {
            match head {
                None => Some(l),
                Some(h) => if l.mtime > h.mtime {
                    Some(l)
                } else {
                    Some(h)
                },
            }
        }
    }
}

/// The latest time among the links, zero for none.
pub open spec fn latest(links: Seq<Link>) -> Micros
    decreases links.len(),
{
    if links.len() == 0 {
        0
    } else {
        let head = latest(links.drop_last());
        if links.last().mtime > head {
            links.last().mtime
        } else {
            head
        }
    }
}

/// Whether the pin begins with the given steps.
pub open spec fn starts_with_steps(pin: Seq<PinId>, steps: Seq<PinId>) -> bool {
    steps.len() <= pin.len() && pin.subrange(0, steps.len() as int) == steps
}

/// Two tags in table order: the first name stands before the second, and
/// the ids differ.
pub open spec fn tag_rel() -> spec_fn(TagView, TagView) -> bool {
    |a: TagView, b: TagView| lex_lt(a.name, b.name) && a.id != b.id
}

/// Two tag groups in table order: the first name stands before the
/// second, and the ids differ.
pub open spec fn group_rel() -> spec_fn(GroupRowView, GroupRowView) -> bool {
    |a: GroupRowView, b: GroupRowView| lex_lt(a.name, b.name) && a.id != b.id
}

/// Two files in table order: the first stands before the second, and ids,
/// paths, and device with inode differ.
pub open spec fn file_rel() -> spec_fn(FileRowView, FileRowView) -> bool {
    |a: FileRowView, b: FileRowView|
        file_before(a, b) && a.id != b.id && a.path != b.path && (a.device != b.device || a.inode
            != b.inode)
}

/// Two links: they join different pairs of file and tag.
pub open spec fn link_rel() -> spec_fn(Link, Link) -> bool {
    |a: Link, b: Link| a.file_id != b.file_id || a.tag_id != b.tag_id
}

/// Two memberships: they join different pairs of group and tag.
pub open spec fn member_rel() -> spec_fn(Member, Member) -> bool {
    |a: Member, b: Member| a.tg_id != b.tg_id || a.tag_id != b.tag_id
}

/// Every link joins a file and a tag that exist.
pub open spec fn links_refer(links: Seq<Link>, files: Seq<FileRowView>, tags: Seq<TagView>) -> bool {
    forall|i: int|
        0 <= i < links.len() ==> file_ids(files).contains((#[trigger] links[i]).file_id)
            && tag_ids(tags).contains(links[i].tag_id)
}

/// Every membership joins a tag group and a tag that exist.
pub open spec fn members_refer(
    members: Seq<Member>,
    groups: Seq<GroupRowView>,
    tags: Seq<TagView>,
) -> bool {
    forall|i: int|
        0 <= i < members.len() ==> group_ids(groups).contains((#[trigger] members[i]).tg_id)
            && tag_ids(tags).contains(members[i].tag_id)
}

/// Every tag counts its links.
pub open spec fn counted(tags: Seq<TagView>, links: Seq<Link>) -> bool {
    forall|i: int|
        0 <= i < tags.len() ==> (#[trigger] tags[i]).num_files == count_links(links, tags[i].id)
}

/// Whether the row that a pin step names exists.
pub open spec fn step_exists(step: PinId, tags: Seq<TagView>, groups: Seq<GroupRowView>) -> bool {
    match step {
        PinId::Tag(id) => tag_ids(tags).contains(id),
        PinId::Group(id) => group_ids(groups).contains(id),
    }
}

/// Every step of every pin names a row that exists.
pub open spec fn pins_refer(
    pins: Seq<Seq<PinId>>,
    tags: Seq<TagView>,
    groups: Seq<GroupRowView>,
) -> bool {
    forall|i: int, k: int|
        0 <= i < pins.len() && 0 <= k < pins[i].len() ==> step_exists(
            #[trigger] pins[i][k],
            tags,
            groups,
        )
}

impl StoreView {
    /// The tables are well formed: each is in its order, no key occurs
    /// twice, every link, membership and pin refers to rows that exist,
    /// and every tag counts its links.
    pub open spec fn wf(self) -> bool {
        &&& pairwise(self.tags, tag_rel())
        &&& pairwise(self.groups, group_rel())
        &&& pairwise(self.files, file_rel())
        &&& pairwise(self.links, link_rel())
        &&& pairwise(self.members, member_rel())
        &&& links_refer(self.links, self.files, self.tags)
        &&& members_refer(self.members, self.groups, self.tags)
        &&& counted(self.tags, self.links)
        &&& pins_refer(self.pins, self.tags, self.groups)
        &&& self.links.len() <= i64::MAX
    }
}

} // verus!
