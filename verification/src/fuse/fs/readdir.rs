//! What a directory lists.

use crate::constants::{DB_FILE_NAME, STAG_ROOT_CONF_PATH, UNLINK_CANARY};
use crate::err::Errno;
use crate::fuse::fs::getattr::{check_pairs, named_files, pairs_ok};
use crate::fuse::fs::TagFilesystem;
use crate::fuse::opcache::{ReaddirCacheEntry, Request};
use crate::path::{components, components_of, part_views, PartView, PathPart};
use crate::settings::{inodified, path_tags, Symbols, SymbolsView};
use crate::sql::model::{Member, StoreView};
use crate::sql::query::contains_id;
use crate::sql::types::{
    either_rows, entry_views, file_rows, group_entry, group_rows, tag_entry, tag_rows, FileEntry,
    FileEntryView, Tag, TagGroup, TagGroupView, TagOrTagGroup, TagOrTagGroupView, TagView,
    TaggedFile, TaggedFileView,
};
use crate::sql::Store;
use crate::text::str_eq;
use crate::types::{tag_views, TagCollection, TagType, TagTypeView};
use vstd::prelude::*;

verus! {

/// Whether the tag is a member of some tag group.
pub open spec fn grouped(members: Seq<Member>, tag_id: i64) -> bool {
    exists|k: int| 0 <= k < members.len() && (#[trigger] members[k]).tag_id == tag_id
}

/// Whether the path names the tag group of the given name.
pub open spec fn names_group(tags: Seq<TagTypeView>, name: Seq<char>) -> bool {
    exists|i: int| 0 <= i < tags.len() && #[trigger] tags[i] == TagTypeView::Group(name)
}

/// Whether one of the groups holds the tag.
pub open spec fn held_by(groups: Seq<TagGroupView>, tag_id: i64) -> bool {
    exists|i: int| 0 <= i < groups.len() && (#[trigger] groups[i]).tag_ids.contains(tag_id)
}

/// The ids of the tags among the records.
pub open spec fn tag_ids_in(recs: Seq<TagOrTagGroupView>) -> Seq<i64> {
    recs.filter_map(
        |r: TagOrTagGroupView|
            match r {
                TagOrTagGroupView::Tag(t) => Some(t.id),
                _ => None,
            },
    )
}

/// The ids of the tag groups among the records.
pub open spec fn group_ids_in(recs: Seq<TagOrTagGroupView>) -> Seq<i64> {
    recs.filter_map(
        |r: TagOrTagGroupView|
            match r {
                TagOrTagGroupView::Group(g) => Some(g.id),
                _ => None,
            },
    )
}

/// The ids of the tags.
pub open spec fn ids_of_tags(tags: Seq<TagView>) -> Seq<i64> {
    tags.map_values(|t: TagView| t.id)
}

/// The ids of the tag groups.
pub open spec fn ids_of_groups(groups: Seq<TagGroupView>) -> Seq<i64> {
    groups.map_values(|g: TagGroupView| g.id)
}

/// The tag groups that a tag directory lists: those that hold a tag that
/// shows below the path, but for the groups that the path itself names.
/// The directory of a tag group lists none.
pub open spec fn listed_groups(s: StoreView, tags: Seq<TagTypeView>) -> Seq<TagGroupView> {
    if tags.len() > 0 && tags.last() is Group {
        Seq::empty()
    } else {
        s.groups_of_tags(ids_of_tags(s.tags_below(tags, true)), 0).filter(
            |g: TagGroupView| !names_group(tags, g.name),
        )
    }
}

/// The tags that a tag directory lists: those that show below the path,
/// but for the tags that a listed tag group holds.
pub open spec fn listed_tags(s: StoreView, tags: Seq<TagTypeView>) -> Seq<TagView> {
    s.tags_below(tags, true).filter(|t: TagView| !held_by(listed_groups(s, tags), t.id))
}

/// The pinned tags and tag groups that a tag directory lists after the
/// others: each one that was not listed before it, and no tag that a
/// listed tag group holds.
pub open spec fn listed_pins(
    pins: Seq<TagOrTagGroupView>,
    listed_tags: Seq<TagView>,
    listed_groups: Seq<TagGroupView>,
) -> Seq<TagOrTagGroupView>
    decreases pins.len(),
{
    if pins.len() == 0 {
        Seq::empty()
    } else {
        let head = listed_pins(pins.drop_last(), listed_tags, listed_groups);
        let earlier = pins.drop_last();
        match pins.last() {
            TagOrTagGroupView::Tag(t) => if ids_of_tags(listed_tags).contains(t.id) || held_by(
                listed_groups,
                t.id,
            ) || tag_ids_in(earlier).contains(t.id) {
                head
            } else {
                head.push(pins.last())
            },
            TagOrTagGroupView::Group(g) => if ids_of_groups(listed_groups).contains(g.id)
                || group_ids_in(earlier).contains(g.id) {
                head
            } else {
                head.push(pins.last())
            },
        }
    }
}

/// The entry of a tag or tag group.
pub open spec fn either_entry(r: TagOrTagGroupView, marker: Seq<char>) -> FileEntryView {
    match r {
        TagOrTagGroupView::Tag(t) => tag_entry(t),
        TagOrTagGroupView::Group(g) => group_entry(g, marker),
    }
}

/// What the directory of a tag path lists: the tag groups, then the tags,
/// then what is pinned there.
pub open spec fn tag_dir_listing(s: StoreView, syms: SymbolsView, tags: Seq<TagTypeView>) -> Seq<
    FileEntryView,
> {
    let groups = listed_groups(s, tags);
    let shown = listed_tags(s, tags);
    groups.map_values(|g: TagGroupView| group_entry(g, syms.tag_group_str)) + shown.map_values(
        |t: TagView| tag_entry(t),
    ) + listed_pins(s.pinned_below(tags), shown, groups).map_values(
        |r: TagOrTagGroupView| either_entry(r, syms.tag_group_str),
    )
}

/// The name under which a file directory lists a file: its primary tag,
/// with device and inode where another file there has the same.
pub open spec fn listed_name(files: Seq<TaggedFileView>, f: TaggedFileView, syms: SymbolsView) -> Seq<
    char,
> {
    if named_files(files, f.primary_tag).len() > 1 {
        inodified(f.primary_tag, f.device, f.inode, syms)
    } else {
        f.primary_tag
    }
}

/// What a file directory lists: the canary, then the files at the path.
pub open spec fn file_dir_listing(
    s: StoreView,
    syms: SymbolsView,
    tags: Seq<TagTypeView>,
) -> Seq<FileEntryView> {
    let files = s.files_at(tags);
    seq![FileEntryView { name: UNLINK_CANARY@, mtime: s.root_mtime }] + files.map_values(
        |f: TaggedFileView| FileEntryView { name: listed_name(files, f, syms), mtime: f.mtime },
    )
}

/// What the root lists: the tags that are in no tag group, then the tag
/// groups.
pub open spec fn root_listing(s: StoreView, syms: SymbolsView) -> Seq<FileEntryView> {
    s.tags.filter(|t: TagView| !grouped(s.members, t.id)).map_values(|t: TagView| tag_entry(t))
        + s.all_groups().map_values(|g: TagGroupView| group_entry(g, syms.tag_group_str))
}

/// The path of the file directory at the root.
pub open spec fn root_filedir(syms: SymbolsView) -> Seq<PartView> {
    seq![PartView::Root, PartView::Normal(syms.filedir_str)]
}

/// What a directory lists, but for `.`, `..` and the file directory.
pub open spec fn listing(s: StoreView, syms: SymbolsView, path: Seq<char>) -> Result<
    Seq<FileEntryView>,
    Errno,
> {
    let tags = path_tags(path, syms);
    if tags.len() == 0 {
        Ok(root_listing(s, syms))
    } else if components(path) == components(STAG_ROOT_CONF_PATH@) {
        Ok(seq![FileEntryView { name: DB_FILE_NAME@, mtime: s.root_mtime }])
    } else if components(path) == root_filedir(syms) {
        Ok(s.tags.map_values(|t: TagView| tag_entry(t)))
    } else if !pairs_ok(s, tags) {
        Err(Errno::ENOENT)
    } else if tags.last() is FileDir {
        Ok(file_dir_listing(s, syms, tags))
    } else {
        Ok(tag_dir_listing(s, syms, tags))
    }
}

/// What every directory lists first: `.` and `..`, and the file directory
/// where the path ends in a tag and files stand at it.
pub open spec fn common_listing(s: StoreView, syms: SymbolsView, path: Seq<char>) -> Seq<
    FileEntryView,
> {
    let tags = path_tags(path, syms);
    let dots = seq![
        FileEntryView { name: "."@, mtime: s.root_mtime },
        FileEntryView { name: ".."@, mtime: s.root_mtime },
    ];
    if tags.len() > 0 && !(tags.last() is FileDir) && !(tags.last() is Group) && s.files_at(
        tags,
    ).len() > 0 {
        dots.push(FileEntryView { name: syms.filedir_str, mtime: s.root_mtime })
    } else {
        dots
    }
}

/// Whether one of the groups holds the tag.
pub fn is_held_by(groups: &Vec<TagGroup>, tag_id: i64) -> (r: bool)
    ensures
        r == held_by(group_rows(groups@), tag_id),
{
    let mut i: usize = 0;
    while i < groups.len()
        invariant
            i <= groups.len(),
            forall|j: int|
                0 <= j < i ==> !(#[trigger] group_rows(groups@)[j]).tag_ids.contains(tag_id),
        decreases groups.len() - i,
    {
        assert(group_rows(groups@)[i as int] == groups@[i as int]@);
        if contains_id(groups[i].tag_ids.as_slice(), tag_id) {
            return true;
        }
        i += 1;
    }
    false
}

/// Whether the path names the tag group of the given name.
pub fn path_names_group(tags: &[TagType], name: &str) -> (r: bool)
    ensures
        r == names_group(tag_views(tags@), name@),
{
    let mut i: usize = 0;
    while i < tags.len()
        invariant
            i <= tags.len(),
            forall|j: int|
                0 <= j < i ==> #[trigger] tag_views(tags@)[j] != TagTypeView::Group(name@),
        decreases tags.len() - i,
    {
        assert(tag_views(tags@)[i as int] == tags@[i as int]@);
        match &tags[i] {
            TagType::Group(g) => {
                if str_eq(g.as_str(), name) {
                    return true;
                }
            },
            _ => {},
        }
        i += 1;
    }
    false
}

/// The number of files of the given name.
pub fn count_named(files: &Vec<TaggedFile>, name: &str) -> (n: usize)
    ensures
        n == named_files(file_rows(files@), name@).len(),
{
    let ghost all = file_rows(files@);
    let ghost p = |f: TaggedFileView| f.primary_tag == name@;
    let mut n: usize = 0;
    let mut i: usize = 0;
    proof {
        reveal(Seq::filter);
    }
    assert(all.take(0).filter(p) =~= Seq::<TaggedFileView>::empty());
    while i < files.len()
        invariant
            i <= files.len(),
            n <= i,
            all == file_rows(files@),
            p == (|f: TaggedFileView| f.primary_tag == name@),
            n == all.take(i as int).filter(p).len(),
        decreases files.len() - i,
    {
        assert(all.take(i + 1).drop_last() =~= all.take(i as int));
        assert(all.take(i + 1).last() == files@[i as int]@);
        proof {
            reveal(Seq::filter);
        }
        if str_eq(files[i].primary_tag.as_str(), name) {
            n += 1;
        }
        i += 1;
    }
    assert(all.take(files.len() as int) =~= all);
    n
}

/// Whether the tag is a member of some tag group.
pub fn is_grouped(store: &Store, tag_id: i64) -> (r: bool)
    ensures
        r == grouped(store@.members, tag_id),
{
    let mut i: usize = 0;
    while i < store.members.len()
        invariant
            i <= store.members.len(),
            forall|j: int| 0 <= j < i ==> (#[trigger] store.members@[j]).tag_id != tag_id,
        decreases store.members.len() - i,
    {
        if store.members[i].tag_id == tag_id {
            return true;
        }
        i += 1;
    }
    false
}

/// The tag groups that a tag directory lists.
pub fn list_groups(store: &Store, tags: &[TagType]) -> (out: Vec<TagGroup>)
    ensures
        group_rows(out@) == listed_groups(store@, tag_views(tags@)),
{
    let mut out: Vec<TagGroup> = Vec::new();
    assert(group_rows(out@) =~= Seq::<TagGroupView>::empty());
    let ghost tv = tag_views(tags@);
    if tags.len() > 0 {
        assert(tv.last() == tags@.last()@);
        if matches!(tags[tags.len() - 1], TagType::Group(_)) {
            return out;
        }
    }
    let below = store.intersect_tag(tags, true);
    let mut ids: Vec<i64> = Vec::new();
    let mut i: usize = 0;
    while i < below.len()
        invariant
            i <= below.len(),
            ids@ =~= ids_of_tags(tag_rows(below@)).take(i as int),
        decreases below.len() - i,
    {
        ids.push(below[i].id);
        i += 1;
    }
    assert(ids_of_tags(tag_rows(below@)).take(below.len() as int) =~= ids_of_tags(
        tag_rows(below@),
    ));
    let groups = store.tag_groups_for_tags(ids.as_slice());
    let ghost all = group_rows(groups@);
    let ghost keep = |g: TagGroupView| !names_group(tv, g.name);
    let mut k: usize = 0;
    proof {
        reveal(Seq::filter);
    }
    assert(all.take(0).filter(keep) =~= Seq::<TagGroupView>::empty());
    while k < groups.len()
        invariant
            k <= groups.len(),
            tv == tag_views(tags@),
            all == group_rows(groups@),
            keep == (|g: TagGroupView| !names_group(tv, g.name)),
            group_rows(out@) == all.take(k as int).filter(keep),
        decreases groups.len() - k,
    {
        assert(all.take(k + 1).drop_last() =~= all.take(k as int));
        assert(all.take(k + 1).last() == groups@[k as int]@);
        proof {
            reveal(Seq::filter);
        }
        let ghost before = group_rows(out@);
        if !path_names_group(tags, groups[k].name.as_str()) {
            let g = groups[k].clone();
            out.push(g);
            assert(group_rows(out@) =~= before.push(groups@[k as int]@));
        }
        k += 1;
    }
    assert(all.take(groups.len() as int) =~= all);
    out
}

/// The tags that a tag directory lists, given the tag groups that it
/// lists.
pub fn list_tags(store: &Store, tags: &[TagType], groups: &Vec<TagGroup>) -> (out: Vec<Tag>)
    requires
        group_rows(groups@) == listed_groups(store@, tag_views(tags@)),
    ensures
        tag_rows(out@) == listed_tags(store@, tag_views(tags@)),
{
    let below = store.intersect_tag(tags, true);
    let ghost all = tag_rows(below@);
    let ghost lg = group_rows(groups@);
    let ghost keep = |t: TagView| !held_by(lg, t.id);
    let mut out: Vec<Tag> = Vec::new();
    let mut i: usize = 0;
    proof {
        reveal(Seq::filter);
    }
    assert(all.take(0).filter(keep) =~= Seq::<TagView>::empty());
    assert(tag_rows(out@) =~= Seq::<TagView>::empty());
    while i < below.len()
        invariant
            i <= below.len(),
            all == tag_rows(below@),
            lg == group_rows(groups@),
            keep == (|t: TagView| !held_by(lg, t.id)),
            tag_rows(out@) == all.take(i as int).filter(keep),
        decreases below.len() - i,
    {
        assert(all.take(i + 1).drop_last() =~= all.take(i as int));
        assert(all.take(i + 1).last() == below@[i as int]@);
        proof {
            reveal(Seq::filter);
        }
        let ghost before = tag_rows(out@);
        if !is_held_by(groups, below[i].id) {
            let t = below[i].clone();
            out.push(t);
            assert(tag_rows(out@) =~= before.push(below@[i as int]@));
        }
        i += 1;
    }
    assert(all.take(below.len() as int) =~= all);
    out
}

/// The pinned tags and tag groups that a tag directory lists after the
/// tags and tag groups given.
pub fn list_pins(pins: &Vec<TagOrTagGroup>, shown: &Vec<Tag>, groups: &Vec<TagGroup>) -> (out: Vec<
    TagOrTagGroup,
>)
    ensures
        either_rows(out@) == listed_pins(either_rows(pins@), tag_rows(shown@), group_rows(groups@)),
{
    let ghost all = either_rows(pins@);
    let ghost lt = tag_rows(shown@);
    let ghost lg = group_rows(groups@);
    let ghost ft = |r: TagOrTagGroupView|
        match r {
            TagOrTagGroupView::Tag(t) => Some(t.id),
            _ => None,
        };
    let ghost fg = |r: TagOrTagGroupView|
        match r {
            TagOrTagGroupView::Group(g) => Some(g.id),
            _ => None,
        };
    let mut shown_ids: Vec<i64> = Vec::new();
    let mut a: usize = 0;
    while a < shown.len()
        invariant
            a <= shown.len(),
            shown_ids@ =~= ids_of_tags(tag_rows(shown@)).take(a as int),
        decreases shown.len() - a,
    {
        shown_ids.push(shown[a].id);
        a += 1;
    }
    assert(ids_of_tags(lt).take(shown.len() as int) =~= ids_of_tags(lt));
    let mut group_ids: Vec<i64> = Vec::new();
    let mut b: usize = 0;
    while b < groups.len()
        invariant
            b <= groups.len(),
            group_ids@ =~= ids_of_groups(group_rows(groups@)).take(b as int),
        decreases groups.len() - b,
    {
        group_ids.push(groups[b].id);
        b += 1;
    }
    assert(ids_of_groups(lg).take(groups.len() as int) =~= ids_of_groups(lg));
    let mut seen_tags: Vec<i64> = Vec::new();
    let mut seen_groups: Vec<i64> = Vec::new();
    let mut out: Vec<TagOrTagGroup> = Vec::new();
    let mut i: usize = 0;
    assert(all.take(0) =~= Seq::<TagOrTagGroupView>::empty());
    assert(all.take(0).filter_map(ft) =~= Seq::<i64>::empty());
    assert(all.take(0).filter_map(fg) =~= Seq::<i64>::empty());
    assert(either_rows(out@) =~= Seq::<TagOrTagGroupView>::empty());
    while i < pins.len()
        invariant
            i <= pins.len(),
            all == either_rows(pins@),
            lt == tag_rows(shown@),
            lg == group_rows(groups@),
            shown_ids@ == ids_of_tags(lt),
            group_ids@ == ids_of_groups(lg),
            ft == (|r: TagOrTagGroupView|
                match r {
                    TagOrTagGroupView::Tag(t) => Some(t.id),
                    _ => None,
                }),
            fg == (|r: TagOrTagGroupView|
                match r {
                    TagOrTagGroupView::Group(g) => Some(g.id),
                    _ => None,
                }),
            seen_tags@ == all.take(i as int).filter_map(ft),
            seen_groups@ == all.take(i as int).filter_map(fg),
            either_rows(out@) == listed_pins(all.take(i as int), lt, lg),
        decreases pins.len() - i,
    {
        let ghost prev = all.take(i as int);
        let ghost next = all.take(i + 1);
        assert(next.drop_last() =~= prev);
        assert(next.last() == pins@[i as int]@);
        assert(tag_ids_in(prev) == prev.filter_map(ft));
        assert(group_ids_in(prev) == prev.filter_map(fg));
        let ghost before = either_rows(out@);
        match &pins[i] {
            TagOrTagGroup::Tag(t) => {
                if !(contains_id(shown_ids.as_slice(), t.id) || is_held_by(groups, t.id)
                    || contains_id(seen_tags.as_slice(), t.id)) {
                    out.push(TagOrTagGroup::Tag(t.clone()));
                    assert(either_rows(out@) =~= before.push(pins@[i as int]@));
                }
                seen_tags.push(t.id);
            },
            TagOrTagGroup::Group(g) => {
                if !(contains_id(group_ids.as_slice(), g.id) || contains_id(
                    seen_groups.as_slice(),
                    g.id,
                )) {
                    out.push(TagOrTagGroup::Group(g.clone()));
                    assert(either_rows(out@) =~= before.push(pins@[i as int]@));
                }
                seen_groups.push(g.id);
            },
        }
        assert(seen_tags@ =~= next.filter_map(ft));
        assert(seen_groups@ =~= next.filter_map(fg));
        i += 1;
    }
    assert(all.take(pins.len() as int) =~= all);
    out
}

/// The entries of the tag groups.
fn group_entries(groups: &Vec<TagGroup>, marker: &str, out: &mut Vec<FileEntry>)
    ensures
        entry_views(final(out)@) == entry_views(old(out)@) + group_rows(groups@).map_values(
            |g: TagGroupView| group_entry(g, marker@),
        ),
{
    let ghost base = entry_views(out@);
    let ghost want = group_rows(groups@).map_values(|g: TagGroupView| group_entry(g, marker@));
    let mut i: usize = 0;
    assert(entry_views(out@) =~= base + want.take(0));
    while i < groups.len()
        invariant
            i <= groups.len(),
            want == group_rows(groups@).map_values(|g: TagGroupView| group_entry(g, marker@)),
            entry_views(out@) == base + want.take(i as int),
        decreases groups.len() - i,
    {
        let ghost before = entry_views(out@);
        let e = groups[i].to_fileentry(marker);
        assert(want[i as int] == e@);
        out.push(e);
        assert(entry_views(out@) =~= before.push(e@));
        assert(entry_views(out@) =~= base + want.take(i + 1));
        i += 1;
    }
    assert(want.take(groups.len() as int) =~= want);
}

/// The entries of the tags.
fn tag_entries(tags: &Vec<Tag>, out: &mut Vec<FileEntry>)
    ensures
        entry_views(final(out)@) == entry_views(old(out)@) + tag_rows(tags@).map_values(
            |t: TagView| tag_entry(t),
        ),
{
    let ghost base = entry_views(out@);
    let ghost want = tag_rows(tags@).map_values(|t: TagView| tag_entry(t));
    let mut i: usize = 0;
    assert(entry_views(out@) =~= base + want.take(0));
    while i < tags.len()
        invariant
            i <= tags.len(),
            want == tag_rows(tags@).map_values(|t: TagView| tag_entry(t)),
            entry_views(out@) == base + want.take(i as int),
        decreases tags.len() - i,
    {
        let ghost before = entry_views(out@);
        let e = tags[i].to_fileentry();
        assert(want[i as int] == e@);
        out.push(e);
        assert(entry_views(out@) =~= before.push(e@));
        assert(entry_views(out@) =~= base + want.take(i + 1));
        i += 1;
    }
    assert(want.take(tags.len() as int) =~= want);
}

/// The entries of the tags and tag groups.
fn either_entries(recs: &Vec<TagOrTagGroup>, marker: &str, out: &mut Vec<FileEntry>)
    ensures
        entry_views(final(out)@) == entry_views(old(out)@) + either_rows(recs@).map_values(
            |r: TagOrTagGroupView| either_entry(r, marker@),
        ),
{
    let ghost base = entry_views(out@);
    let ghost want = either_rows(recs@).map_values(
        |r: TagOrTagGroupView| either_entry(r, marker@),
    );
    let mut i: usize = 0;
    assert(entry_views(out@) =~= base + want.take(0));
    while i < recs.len()
        invariant
            i <= recs.len(),
            want == either_rows(recs@).map_values(|r: TagOrTagGroupView| either_entry(r, marker@)),
            entry_views(out@) == base + want.take(i as int),
        decreases recs.len() - i,
    {
        let ghost before = entry_views(out@);
        let e = recs[i].to_fileentry(marker);
        assert(want[i as int] == e@);
        out.push(e);
        assert(entry_views(out@) =~= before.push(e@));
        assert(entry_views(out@) =~= base + want.take(i + 1));
        i += 1;
    }
    assert(want.take(recs.len() as int) =~= want);
}

/// The tags that are in no tag group.
fn ungrouped_tags(store: &Store) -> (out: Vec<Tag>)
    ensures
        tag_rows(out@) == store@.tags.filter(|t: TagView| !grouped(store@.members, t.id)),
{
    let ghost keep = |t: TagView| !grouped(store@.members, t.id);
    let ghost all = store@.tags;
    let mut out: Vec<Tag> = Vec::new();
    let mut i: usize = 0;
    proof {
        reveal(Seq::filter);
    }
    assert(all.take(0).filter(keep) =~= Seq::<TagView>::empty());
    assert(tag_rows(out@) =~= Seq::<TagView>::empty());
    while i < store.tags.len()
        invariant
            i <= store.tags.len(),
            all == store@.tags,
            keep == (|t: TagView| !grouped(store@.members, t.id)),
            tag_rows(out@) == all.take(i as int).filter(keep),
        decreases store.tags.len() - i,
    {
        assert(all.take(i + 1).drop_last() =~= all.take(i as int));
        assert(all.take(i + 1).last() == store.tags@[i as int]@);
        proof {
            reveal(Seq::filter);
        }
        let ghost before = tag_rows(out@);
        if !is_grouped(store, store.tags[i].id) {
            let t = store.tags[i].clone();
            out.push(t);
            assert(tag_rows(out@) =~= before.push(store.tags@[i as int]@));
        }
        i += 1;
    }
    assert(all.take(store.tags.len() as int) =~= all);
    out
}

/// The entries of a file directory.
fn file_entries(files: &Vec<TaggedFile>, symbols: &Symbols, out: &mut Vec<FileEntry>)
    ensures
        entry_views(final(out)@) == entry_views(old(out)@) + file_rows(files@).map_values(
            |f: TaggedFileView|
                FileEntryView {
                    name: listed_name(file_rows(files@), f, symbols@),
                    mtime: f.mtime,
                },
        ),
{
    let ghost base = entry_views(out@);
    let ghost all = file_rows(files@);
    let ghost want = all.map_values(
        |f: TaggedFileView|
            FileEntryView { name: listed_name(all, f, symbols@), mtime: f.mtime },
    );
    let mut i: usize = 0;
    assert(entry_views(out@) =~= base + want.take(0));
    while i < files.len()
        invariant
            i <= files.len(),
            all == file_rows(files@),
            want == all.map_values(
                |f: TaggedFileView|
                    FileEntryView { name: listed_name(all, f, symbols@), mtime: f.mtime },
            ),
            entry_views(out@) == base + want.take(i as int),
        decreases files.len() - i,
    {
        let ghost before = entry_views(out@);
        let file = &files[i];
        assert(all[i as int] == file@);
        let name = if count_named(files, file.primary_tag.as_str()) > 1 {
            symbols.inodify_filename(file.primary_tag.as_str(), file.device, file.inode)
        } else {
            file.primary_tag.clone()
        };
        let e = FileEntry { name, mtime: file.mtime };
        assert(want[i as int] == e@);
        out.push(e);
        assert(entry_views(out@) =~= before.push(e@));
        assert(entry_views(out@) =~= base + want.take(i + 1));
        i += 1;
    }
    assert(want.take(files.len() as int) =~= want);
}

/// Whether the path is that of the file directory at the root.
fn is_root_filedir(path: &str, symbols: &Symbols) -> (r: bool)
    ensures
        r == (components(path@) == root_filedir(symbols@)),
{
    let parts = components_of(path);
    if parts.len() != 2 {
        assert(part_views(parts@).len() != root_filedir(symbols@).len());
        return false;
    }
    assert(part_views(parts@)[0] == parts@[0]@);
    assert(part_views(parts@)[1] == parts@[1]@);
    let r = match (&parts[0], &parts[1]) {
        (PathPart::Root, PathPart::Normal(n)) => str_eq(n.as_str(), symbols.filedir_str.as_str()),
        _ => false,
    };
    proof {
        if r {
            assert(part_views(parts@) =~= root_filedir(symbols@));
        } else {
            assert(part_views(parts@)[0] != root_filedir(symbols@)[0] || part_views(parts@)[1]
                != root_filedir(symbols@)[1]);
        }
    }
    r
}

/// What a directory lists, but for `.`, `..` and the file directory,
/// going by the store alone.
pub fn list_dir(store: &Store, symbols: &Symbols, path: &str) -> (r: Result<Vec<FileEntry>, Errno>)
    ensures
        match r {
            Ok(entries) => listing(store@, symbols@, path@) == Ok::<Seq<FileEntryView>, Errno>(
                entry_views(entries@),
            ),
            Err(e) => listing(store@, symbols@, path@) == Err::<Seq<FileEntryView>, Errno>(e),
        },
{
    let root_mtime = store.get_root_mtime();
    let query_tags = TagCollection::new(symbols, path);
    let mut out: Vec<FileEntry> = Vec::new();
    assert(entry_views(out@) =~= Seq::<FileEntryView>::empty());
    if query_tags.len() == 0 {
        let tags = ungrouped_tags(store);
        let tag_groups = store.get_all_tag_groups();
        tag_entries(&tags, &mut out);
        group_entries(&tag_groups, symbols.tag_group_str.as_str(), &mut out);
        assert(entry_views(out@) =~= root_listing(store@, symbols@));
        return Ok(out);
    }
    if crate::path::same_path(path, STAG_ROOT_CONF_PATH) {
        let e = FileEntry { name: String::from_str(DB_FILE_NAME), mtime: root_mtime };
        out.push(e);
        assert(entry_views(out@) =~= seq![
            FileEntryView { name: DB_FILE_NAME@, mtime: store@.root_mtime },
        ]);
        return Ok(out);
    }
    if is_root_filedir(path, symbols) {
        let tags = store.get_all_tags();
        tag_entries(&tags, &mut out);
        assert(entry_views(out@) =~= store@.tags.map_values(|t: TagView| tag_entry(t)));
        return Ok(out);
    }
    if !check_pairs(store, query_tags.as_slice()) {
        return Err(Errno::ENOENT);
    }
    let n = query_tags.len();
    assert(query_tags.tag_seq().last() == query_tags.tags@[n - 1]@);
    match &query_tags.as_slice()[n - 1] {
        TagType::FileDir => {
            let e = FileEntry { name: String::from_str(UNLINK_CANARY), mtime: root_mtime };
            out.push(e);
            assert(entry_views(out@) =~= seq![
                FileEntryView { name: UNLINK_CANARY@, mtime: store@.root_mtime },
            ]);
            let files = store.files_tagged_with(query_tags.as_slice());
            file_entries(&files, symbols, &mut out);
            assert(entry_views(out@) =~= file_dir_listing(
                store@,
                symbols@,
                query_tags.tag_seq(),
            ));
            Ok(out)
        },
        _ => {
            let groups = list_groups(store, query_tags.as_slice());
            let shown = list_tags(store, query_tags.as_slice(), &groups);
            let pinned = store.pinned_subdirs(query_tags.as_slice());
            let pins = list_pins(&pinned, &shown, &groups);
            group_entries(&groups, symbols.tag_group_str.as_str(), &mut out);
            tag_entries(&shown, &mut out);
            either_entries(&pins, symbols.tag_group_str.as_str(), &mut out);
            assert(entry_views(out@) =~= tag_dir_listing(store@, symbols@, query_tags.tag_seq()));
            Ok(out)
        },
    }
}

/// What every directory lists first, going by the store alone.
pub fn list_common(store: &Store, symbols: &Symbols, path: &str) -> (out: Vec<FileEntry>)
    ensures
        entry_views(out@) == common_listing(store@, symbols@, path@),
{
    let now = store.get_root_mtime();
    let mut common: Vec<FileEntry> = Vec::new();
    common.push(FileEntry { name: String::from_str("."), mtime: now });
    common.push(FileEntry { name: String::from_str(".."), mtime: now });
    assert(entry_views(common@) =~= seq![
        FileEntryView { name: "."@, mtime: store@.root_mtime },
        FileEntryView { name: ".."@, mtime: store@.root_mtime },
    ]);
    let tags = TagCollection::new(symbols, path);
    let n = tags.len();
    if n > 0 {
        assert(tags.tag_seq().last() == tags.tags@[n - 1]@);
        let plain = match &tags.as_slice()[n - 1] {
            TagType::FileDir => false,
            TagType::Group(_) => false,
            _ => true,
        };
        if plain {
            let files = store.files_tagged_with(tags.as_slice());
            assert(file_rows(files@).len() == files@.len());
            if files.len() > 0 {
                let ghost before = entry_views(common@);
                let e = FileEntry { name: symbols.filedir_str.clone(), mtime: now };
                common.push(e);
                assert(entry_views(common@) =~= before.push(
                    FileEntryView { name: symbols@.filedir_str, mtime: store@.root_mtime },
                ));
            }
        }
    }
    common
}

impl TagFilesystem {
    /// What a directory lists, but for `.`, `..` and the file directory.
    /// The tags and files listed are kept in the cache under their paths.
    /// The store is left as it is.
    pub fn readdir_impl(&mut self, req: &Request, path: &str) -> (r: Result<
        Vec<FileEntry>,
        Errno,
    >)
        requires
            old(self).wf(),
        ensures
            final(self).wf(),
            final(self).store == old(self).store,
            final(self).settings == old(self).settings,
            final(self).alias_files == old(self).alias_files,
            match r {
                Ok(entries) => listing(old(self).store@, old(self).settings.config.symbols@, path@)
                    == Ok::<Seq<FileEntryView>, Errno>(entry_views(entries@)),
                Err(e) => listing(old(self).store@, old(self).settings.config.symbols@, path@)
                    == Err::<Seq<FileEntryView>, Errno>(e),
            },
            final(self).op_cache@.symlinks == old(self).op_cache@.symlinks,
            final(self).op_cache@.aliases == old(self).op_cache@.aliases,
            final(self).op_cache@.denied == old(self).op_cache@.denied,
            final(self).op_cache@.deleted == old(self).op_cache@.deleted,
    {
        let r = list_dir(&self.store, &self.settings.config.symbols, path);
        let tags = TagCollection::new(&self.settings.config.symbols, path);
        let n = tags.len();
        if n > 0 && r.is_ok() {
            match &tags.as_slice()[n - 1] {
                TagType::FileDir => {
                    let files = self.store.files_tagged_with(tags.as_slice());
                    let mut i: usize = 0;
                    while i < files.len()
                        invariant
                            i <= files.len(),
                            self.wf(),
                            self.store == old(self).store,
                            self.settings == old(self).settings,
                            self.alias_files == old(self).alias_files,
                            self.op_cache@.symlinks == old(self).op_cache@.symlinks,
                            self.op_cache@.aliases == old(self).op_cache@.aliases,
                            self.op_cache@.denied == old(self).op_cache@.denied,
                            self.op_cache@.deleted == old(self).op_cache@.deleted,
                        decreases files.len() - i,
                    {
                        let file = &files[i];
                        let name = if count_named(&files, file.primary_tag.as_str()) > 1 {
                            self.settings.config.symbols.inodify_filename(
                                file.primary_tag.as_str(),
                                file.device,
                                file.inode,
                            )
                        } else {
                            file.primary_tag.clone()
                        };
                        let full_path = crate::path::join_name(path, name.as_str());
                        self.op_cache.add_readdir_entry(
                            full_path.as_str(),
                            ReaddirCacheEntry::File(file.clone()),
                        );
                        i += 1;
                    }
                },
                _ => {
                    let groups = list_groups(&self.store, tags.as_slice());
                    let shown = list_tags(&self.store, tags.as_slice(), &groups);
                    let mut i: usize = 0;
                    while i < shown.len()
                        invariant
                            i <= shown.len(),
                            self.wf(),
                            self.store == old(self).store,
                            self.settings == old(self).settings,
                            self.alias_files == old(self).alias_files,
                            self.op_cache@.symlinks == old(self).op_cache@.symlinks,
                            self.op_cache@.aliases == old(self).op_cache@.aliases,
                            self.op_cache@.denied == old(self).op_cache@.denied,
                            self.op_cache@.deleted == old(self).op_cache@.deleted,
                        decreases shown.len() - i,
                    {
                        let tag = &shown[i];
                        let full_path = crate::path::join_name(path, tag.name.as_str());
                        self.op_cache.add_readdir_entry(
                            full_path.as_str(),
                            ReaddirCacheEntry::Tag(tag.clone()),
                        );
                        i += 1;
                    }
                },
            }
        }
        r
    }

    /// What every directory lists first: `.` and `..`, and the file
    /// directory where the path ends in a tag and files stand at it.
    pub fn readdir_common_impl(&self, req: &Request, path: &str) -> (out: Vec<FileEntry>)
        ensures
            entry_views(out@) == common_listing(
                self.store@,
                self.settings.config.symbols@,
                path@,
            ),
    {
        list_common(&self.store, &self.settings.config.symbols, path)
    }

    /// What a directory lists, but for `.`, `..` and the file directory:
    /// the answer to the kernel.
    pub fn readdir(&mut self, req: &Request, path: &str) -> (r: Result<Vec<FileEntry>, Errno>)
        requires
            old(self).wf(),
        ensures
            final(self).wf(),
            final(self).store == old(self).store,
            final(self).settings == old(self).settings,
            final(self).alias_files == old(self).alias_files,
            match r {
                Ok(entries) => listing(old(self).store@, old(self).settings.config.symbols@, path@)
                    == Ok::<Seq<FileEntryView>, Errno>(entry_views(entries@)),
                Err(e) => listing(old(self).store@, old(self).settings.config.symbols@, path@)
                    == Err::<Seq<FileEntryView>, Errno>(e),
            },
            final(self).op_cache@.symlinks == old(self).op_cache@.symlinks,
            final(self).op_cache@.aliases == old(self).op_cache@.aliases,
            final(self).op_cache@.denied == old(self).op_cache@.denied,
            final(self).op_cache@.deleted == old(self).op_cache@.deleted,
    {
        self.readdir_impl(req, path)
    }

    /// What every directory lists first: the answer to the kernel.
    pub fn readdir_common(&self, req: &Request, path: &str) -> (out: Vec<FileEntry>)
        ensures
            entry_views(out@) == common_listing(
                self.store@,
                self.settings.config.symbols@,
                path@,
            ),
    {
        self.readdir_common_impl(req, path)
    }
}

} // verus!
