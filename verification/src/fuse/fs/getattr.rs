//! What stands at a path, and what the file system reports of it.

use crate::constants::{
    DB_FILE_PATH, FSEVENTS_NO_LOG_PATH, FSEVENTS_PATH, NO_INDEX_PATH, STAG_ROOT_CONF_PATH,
    TRACKER_IGNORE, UNLINK_CANARY,
};
use crate::err::Errno;
use crate::fuse::fs::TagFilesystem;
use crate::fuse::opcache::{
    symlink_key, CacheValueView, OpCacheView, ReaddirCacheEntry, ReaddirCacheEntryView, Request,
};
use crate::fuse::util::{
    alias_stat, db_file, dir_stat, entry_stat, link_stat, new_alias, new_dir, new_link,
    new_regfile, reg_stat, stat_of_entry, Stat,
};
use crate::path::{
    canonical, child_of, components, file_name, parent_of, path_ends_with, path_starts_with,
    PartView,
};
use crate::settings::{ends_with_char, path_tags, Symbols, SymbolsView};
use crate::sql::model::{find_first, lemma_find_first_is, tag_names, StoreView};
use crate::sql::query::{first_wanted, FileWanted, FileWantedView};
use crate::sql::types::{
    file_rows, group_rows, tag_rows, Tag, TagGroup, TagGroupView, TagView, TaggedFile,
    TaggedFileView,
};
use crate::sql::Store;
use crate::text::str_eq;
use crate::types::file_perms::{perms_of, UMask};
use crate::types::{
    group_pairs, pair_views, tag_views, taggroup_pairs, Micros, TagCollection, TagType,
    TagTypeView,
};
use vstd::prelude::*;

verus! {

/// Every tag that directly follows a tag group in the path is a member of
/// that group.
pub open spec fn pairs_ok(s: StoreView, tags: Seq<TagTypeView>) -> bool {
    let p = group_pairs(tags);
    forall|i: int| 0 <= i < p.len() ==> s.tag_in_group((#[trigger] p[i]).0, p[i].1)
}

/// Two tag groups stand next to each other in the path.
pub open spec fn adjacent_groups(tags: Seq<TagTypeView>) -> bool {
    exists|i: int| 0 <= i < tags.len() - 1 && (#[trigger] tags[i]) is Group && tags[i + 1] is Group
}

/// The files of the given name.
pub open spec fn named_files(files: Seq<TaggedFileView>, name: Seq<char>) -> Seq<TaggedFileView> {
    files.filter(|f: TaggedFileView| f.primary_tag == name)
}

/// The names of the groups.
pub open spec fn record_names(groups: Seq<TagGroupView>) -> Seq<Seq<char>> {
    groups.map_values(|g: TagGroupView| g.name)
}

/// What stands at a tag path, going by the store alone, and whether it is
/// worth keeping in the cache. A path without components is an error; a
/// path in which a tag follows a tag group that it is no member of names
/// nothing.
///
/// * A file named with device and inode stands there where such a file
///   is at the path before it.
/// * A file named plainly stands there where exactly one file of that
///   name is at the path before it.
/// * A tag group at the top stands there where it exists, with the
///   number of files under its tags; further down, where it shows below
///   the path and no two groups stand next to each other.
/// * A file directory stands below a tag that exists, with the number of
///   files at the path.
/// * A tag at the top stands there where it exists; further down, where
///   it shows below the path before it, or where the path is pinned.
pub open spec fn entry_at(s: StoreView, syms: SymbolsView, path: Seq<char>) -> Result<
    (ReaddirCacheEntryView, bool),
    Errno,
> {
    let tags = path_tags(path, syms);
    if tags.len() == 0 {
        Err(Errno::EIO)
    } else if !pairs_ok(s, tags) {
        Err(Errno::ENOENT)
    } else {
        let before = tags.drop_last();
        match tags.last() {
            TagTypeView::DeviceFileSymlink(df) => match first_wanted(
                s.files_at(before),
                FileWantedView::Device(df),
            ) {
                Some(f) => Ok((ReaddirCacheEntryView::File(f), false)),
                None => Err(Errno::ENOENT),
            },
            TagTypeView::Symlink(name) => {
                let m = named_files(s.files_at(before), name);
                if m.len() == 1 {
                    Ok((ReaddirCacheEntryView::File(m[0]), true))
                } else {
                    Err(Errno::ENOENT)
                }
            },
            TagTypeView::Group(g) => if tags.len() == 1 {
                match s.group_named(g) {
                    Some(row) => Ok(
                        (
                            ReaddirCacheEntryView::TagGroup(
                                StoreView::group_record(
                                    row,
                                    s.member_ids(row.id),
                                    s.files_of_group(g).len() as i64,
                                ),
                            ),
                            true,
                        ),
                    ),
                    None => Err(Errno::ENOENT),
                }
            } else if adjacent_groups(tags) {
                Err(Errno::ENOENT)
            } else {
                let below = s.groups_below(tags);
                match find_first(record_names(below), g) {
                    Some(i) => Ok((ReaddirCacheEntryView::TagGroup(below[i]), true)),
                    None => Err(Errno::ENOENT),
                }
            },
            TagTypeView::FileDir => if tags.len() < 2 {
                Err(Errno::ENOENT)
            } else {
                let parent = match tags[tags.len() - 2] {
                    TagTypeView::Regular(p) => Some(p),
                    TagTypeView::Negation(p) => Some(p),
                    _ => None,
                };
                match parent {
                    Some(p) => match s.tag_named(p) {
                        Some(t) => Ok(
                            (
                                ReaddirCacheEntryView::Tag(
                                    TagView { num_files: s.files_at(tags).len() as i64, ..t },
                                ),
                                true,
                            ),
                        ),
                        None => Err(Errno::ENOENT),
                    },
                    None => Err(Errno::ENOENT),
                }
            },
            TagTypeView::Regular(t) => tag_entry_at(s, tags, t, true),
            TagTypeView::Negation(t) => tag_entry_at(s, tags, t, false),
        }
    }
}

/// What stands at a path that ends in the tag `t`, plain or negated.
pub open spec fn tag_entry_at(s: StoreView, tags: Seq<TagTypeView>, t: Seq<char>, plain: bool) -> Result<
    (ReaddirCacheEntryView, bool),
    Errno,
> {
    if tags.len() > 1 {
        let below = s.tags_below(tags.drop_last(), true);
        match find_first(tag_names(below), t) {
            Some(i) => Ok((ReaddirCacheEntryView::Tag(below[i]), true)),
            None => if s.pinned(tags) && plain && s.tag_named(t) is Some {
                Ok((ReaddirCacheEntryView::Tag(s.tag_named(t)->0), false))
            } else {
                Err(Errno::ENOENT)
            },
        }
    } else {
        match s.tag_named(t) {
            Some(tag) => Ok((ReaddirCacheEntryView::Tag(tag), true)),
            None => Err(Errno::ENOENT),
        }
    }
}

/// The view of what stands at a path.
pub open spec fn found_view(r: Result<(ReaddirCacheEntry, bool), Errno>) -> Result<
    (ReaddirCacheEntryView, bool),
    Errno,
> {
    match r {
        Ok((e, keep)) => Ok((e@, keep)),
        Err(e) => Err(e),
    }
}

/// Whether every tag that follows a tag group is a member of it.
pub fn check_pairs(store: &Store, tags: &[TagType]) -> (r: bool)
    ensures
        r == pairs_ok(store@, tag_views(tags@)),
{
    let pairs = taggroup_pairs(tags);
    let mut i: usize = 0;
    while i < pairs.len()
        invariant
            i <= pairs.len(),
            pair_views(pairs@) == group_pairs(tag_views(tags@)),
            forall|j: int|
                0 <= j < i ==> store@.tag_in_group(
                    (#[trigger] pair_views(pairs@)[j]).0,
                    pair_views(pairs@)[j].1,
                ),
        decreases pairs.len() - i,
    {
        let pair = &pairs[i];
        assert(pair_views(pairs@)[i as int] == (pair.0@, pair.1@));
        if !store.tag_is_in_group(pair.0.as_str(), pair.1.as_str()) {
            assert(!store@.tag_in_group(
                group_pairs(tag_views(tags@))[i as int].0,
                group_pairs(tag_views(tags@))[i as int].1,
            ));
            return false;
        }
        i += 1;
    }
    true
}

/// Whether two tag groups stand next to each other.
pub fn has_adjacent_groups(tags: &[TagType]) -> (r: bool)
    ensures
        r == adjacent_groups(tag_views(tags@)),
{
    let ghost tv = tag_views(tags@);
    let mut last_was_group = false;
    let mut i: usize = 0;
    while i < tags.len()
        invariant
            i <= tags.len(),
            tv == tag_views(tags@),
            last_was_group == (i > 0 && tv[i - 1] is Group),
            forall|j: int| 0 <= j < i - 1 ==> !((#[trigger] tv[j]) is Group && tv[j + 1] is Group),
        decreases tags.len() - i,
    {
        assert(tv[i as int] == tags@[i as int]@);
        match &tags[i] {
            TagType::Group(_) => {
                if last_was_group {
                    assert(tv[i - 1] is Group && tv[i - 1 + 1] is Group);
                    return true;
                }
                last_was_group = true;
            },
            _ => {
                last_was_group = false;
            },
        }
        i += 1;
    }
    false
}

/// The position of the tag of the given name among the tags.
pub fn find_tag_in(tags: &Vec<Tag>, name: &str) -> (r: Option<usize>)
    ensures
        match r {
            Some(i) => find_first(tag_names(tag_rows(tags@)), name@) == Some(i as int) && i
                < tags@.len(),
            None => find_first(tag_names(tag_rows(tags@)), name@) is None,
        },
{
    let ghost names = tag_names(tag_rows(tags@));
    let mut i: usize = 0;
    while i < tags.len()
        invariant
            i <= tags.len(),
            names == tag_names(tag_rows(tags@)),
            forall|j: int| 0 <= j < i ==> names[j] != name@,
        decreases tags.len() - i,
    {
        if str_eq(tags[i].name.as_str(), name) {
            proof {
                lemma_find_first_is(names, name@, Some(i as int));
            }
            return Some(i);
        }
        i += 1;
    }
    proof {
        lemma_find_first_is(names, name@, None);
    }
    None
}

/// The position of the group of the given name among the groups.
pub fn find_group_in(groups: &Vec<TagGroup>, name: &str) -> (r: Option<usize>)
    ensures
        match r {
            Some(i) => find_first(record_names(group_rows(groups@)), name@) == Some(i as int) && i
                < groups@.len(),
            None => find_first(record_names(group_rows(groups@)), name@) is None,
        },
{
    let ghost names = record_names(group_rows(groups@));
    let mut i: usize = 0;
    while i < groups.len()
        invariant
            i <= groups.len(),
            names == record_names(group_rows(groups@)),
            forall|j: int| 0 <= j < i ==> names[j] != name@,
        decreases groups.len() - i,
    {
        if str_eq(groups[i].name.as_str(), name) {
            proof {
                lemma_find_first_is(names, name@, Some(i as int));
            }
            return Some(i);
        }
        i += 1;
    }
    proof {
        lemma_find_first_is(names, name@, None);
    }
    None
}

/// The one file of the given name among the files, where there is
/// exactly one.
pub fn only_named(files: &Vec<TaggedFile>, name: &str) -> (r: Option<TaggedFile>)
    ensures
        match r {
            Some(f) => named_files(file_rows(files@), name@).len() == 1 && named_files(
                file_rows(files@),
                name@,
            )[0] == f@,
            None => named_files(file_rows(files@), name@).len() != 1,
        },
{
    let ghost all = file_rows(files@);
    let ghost p = |f: TaggedFileView| f.primary_tag == name@;
    let mut count: usize = 0;
    let mut first: usize = 0;
    let mut i: usize = 0;
    proof {
        reveal(Seq::filter);
    }
    assert(all.take(0).filter(p) =~= Seq::<TaggedFileView>::empty());
    while i < files.len()
        invariant
            i <= files.len(),
            all == file_rows(files@),
            p == (|f: TaggedFileView| f.primary_tag == name@),
            count == all.take(i as int).filter(p).len(),
            count <= i,
            count > 0 ==> first < i && all.take(i as int).filter(p)[0] == files@[first as int]@,
        decreases files.len() - i,
    {
        assert(all.take(i + 1).drop_last() =~= all.take(i as int));
        assert(all.take(i + 1).last() == files@[i as int]@);
        proof {
            reveal(Seq::filter);
        }
        if str_eq(files[i].primary_tag.as_str(), name) {
            if count == 0 {
                first = i;
            }
            count += 1;
        }
        i += 1;
    }
    assert(all.take(files.len() as int) =~= all);
    if count == 1 {
        Some(files[first].clone())
    } else {
        None
    }
}

/// What stands at a path that ends in a tag.
fn find_tag_entry(store: &Store, tags: &TagCollection, tag: &str, plain: bool) -> (r: Result<
    (ReaddirCacheEntry, bool),
    Errno,
>)
    requires
        tags.tags@.len() > 0,
    ensures
        found_view(r) == tag_entry_at(store@, tags.tag_seq(), tag@, plain),
{
    if tags.len() > 1 {
        let itags = store.intersect_tag(tags.all_but_last(), true);
        assert(tag_views(tags.tags@.drop_last()) =~= tags.tag_seq().drop_last());
        match find_tag_in(&itags, tag) {
            Some(i) => {
                return Ok((ReaddirCacheEntry::Tag(itags[i].clone()), true));
            },
            None => {},
        }
        if store.is_pinned(tags.as_slice()) && plain {
            match store.get_tag(tag) {
                Some(t) => Ok((ReaddirCacheEntry::Tag(t), false)),
                None => Err(Errno::ENOENT),
            }
        } else {
            Err(Errno::ENOENT)
        }
    } else {
        match store.get_tag(tag) {
            Some(t) => Ok((ReaddirCacheEntry::Tag(t), true)),
            None => Err(Errno::ENOENT),
        }
    }
}

/// What stands at a path, going by the store alone, and whether it is
/// worth keeping in the cache.
pub fn find_entry(store: &Store, symbols: &Symbols, path: &str) -> (r: Result<
    (ReaddirCacheEntry, bool),
    Errno,
>)
    ensures
        found_view(r) == entry_at(store@, symbols@, path@),
{
    let tags = TagCollection::new(symbols, path);
    if tags.len() == 0 {
        return Err(Errno::EIO);
    }
    if !check_pairs(store, tags.as_slice()) {
        return Err(Errno::ENOENT);
    }
    let ghost tv = tags.tag_seq();
    let n = tags.len();
    assert(tv.last() == tags.tags@[n - 1]@);
    assert(tag_views(tags.tags@.drop_last()) =~= tv.drop_last());
    match &tags.as_slice()[n - 1] {
        TagType::DeviceFileSymlink(device_file) => {
            let want = FileWanted::Device(device_file.clone());
            match store.contains_file(tags.all_but_last(), &want) {
                Some(f) => Ok((ReaddirCacheEntry::File(f), false)),
                None => Err(Errno::ENOENT),
            }
        },
        TagType::Symlink(sfile) => {
            let ifiles = store.files_tagged_with(tags.all_but_last());
            match only_named(&ifiles, sfile.as_str()) {
                Some(f) => Ok((ReaddirCacheEntry::File(f), true)),
                None => Err(Errno::ENOENT),
            }
        },
        TagType::Group(tag_group) => {
            if n == 1 {
                match store.get_tag_group(tag_group.as_str()) {
                    Some(mut tg) => {
                        let num_files = store.num_files_for_tag_group(tag_group.as_str());
                        tg.num_files = #[verifier::truncate]
                        (num_files as i64);
                        Ok((ReaddirCacheEntry::TagGroup(tg), true))
                    },
                    None => Err(Errno::ENOENT),
                }
            } else if has_adjacent_groups(tags.as_slice()) {
                Err(Errno::ENOENT)
            } else {
                let tag_groups = store.tag_group_intersections(tags.as_slice());
                match find_group_in(&tag_groups, tag_group.as_str()) {
                    Some(i) => Ok((ReaddirCacheEntry::TagGroup(tag_groups[i].clone()), true)),
                    None => Err(Errno::ENOENT),
                }
            }
        },
        TagType::FileDir => {
            if n < 2 {
                return Err(Errno::ENOENT);
            }
            assert(tv[tv.len() - 2] == tags.tags@[n - 2]@);
            let parent = match &tags.as_slice()[n - 2] {
                TagType::Regular(p) => p,
                TagType::Negation(p) => p,
                _ => {
                    return Err(Errno::ENOENT);
                },
            };
            match store.get_tag(parent.as_str()) {
                Some(mut tag) => {
                    let num_files = store.get_num_files(tags.as_slice());
                    tag.num_files = #[verifier::truncate]
                    (num_files as i64);
                    Ok((ReaddirCacheEntry::Tag(tag), true))
                },
                None => Err(Errno::ENOENT),
            }
        },
        TagType::Regular(tag) => find_tag_entry(store, &tags, tag.as_str(), true),
        TagType::Negation(tag) => find_tag_entry(store, &tags, tag.as_str(), false),
    }
}

/// What the file system reports of the paths that always exist, whatever
/// the store holds: the files that keep indexers out, of which macOS has
/// three of its own, the canary, and the directory of the store with the
/// link to the store's file in it.
pub open spec fn special_attr(root_mtime: Micros, req: Request, path: Seq<char>, mac: bool) -> Option<
    Result<Stat, Errno>,
> {
    let um = UMask(req.umask);
    if mac && components(path) == components(FSEVENTS_PATH@) {
        Some(
            Ok(dir_stat(root_mtime, req.uid, req.gid, perms_of((0o777u32 & !um.0) as nat), 0)),
        )
    } else if mac && (components(path) == components(FSEVENTS_NO_LOG_PATH@) || components(path)
        == components(NO_INDEX_PATH@)) {
        Some(
            Ok(reg_stat(root_mtime, req.uid, req.gid, perms_of((0o666u32 & !um.0) as nat), 0)),
        )
    } else if path_ends_with(path, TRACKER_IGNORE@) || path_ends_with(path, UNLINK_CANARY@) {
        Some(
            Ok(reg_stat(root_mtime, req.uid, req.gid, perms_of((0o666u32 & !um.0) as nat), 0)),
        )
    } else if components(path) == components(STAG_ROOT_CONF_PATH@) {
        Some(
            Ok(dir_stat(root_mtime, req.uid, req.gid, perms_of((0o777u32 & !um.0) as nat), 0)),
        )
    } else if path_starts_with(path, STAG_ROOT_CONF_PATH@) {
        if components(path) == components(DB_FILE_PATH@) {
            Some(Ok(link_stat(root_mtime, req.uid, req.gid, perms_of(0o777), 0)))
        } else {
            Some(Err(Errno::ENOENT))
        }
    } else {
        None
    }
}

/// Whether the path is the root.
pub open spec fn is_root(path: Seq<char>) -> bool {
    components(path) == seq![PartView::Root]
}

/// Whether the path asks for the caches of a path to be flushed: it ends
/// in the sync character and names a file, a tag or a tag group.
pub open spec fn is_flush_probe(path: Seq<char>, syms: SymbolsView) -> bool {
    let tags = path_tags(path, syms);
    ends_with_char(path, syms.sync_char) && tags.len() > 0 && (tags.last() is Symlink
        || tags.last() is DeviceFileSymlink || tags.last() is Regular || tags.last() is Group)
}

/// The path without the sync character at the end of its file name.
pub open spec fn sync_stripped(path: Seq<char>, syms: SymbolsView) -> Option<Seq<char>> {
    match (file_name(path), parent_of(path)) {
        (Some(n), Some(p)) => if ends_with_char(n, syms.sync_char) {
            Some(crate::settings::joined(p, n.drop_last()))
        } else {
            None
        },
        _ => None,
    }
}

/// The cache without what it keeps of a directory: the entry of the path
/// and those of the file directory below it, under both of its names.
pub open spec fn flushed(
    readdir: Map<Seq<char>, CacheValueView>,
    path: Seq<char>,
    syms: SymbolsView,
) -> Map<Seq<char>, CacheValueView> {
    readdir.remove(canonical(path)).remove(canonical(child_of(path, syms.filedir_str))).remove(
        canonical(child_of(path, syms.filedir_cli_str)),
    )
}

/// Whether an entry of the cache is of the kind that the path names: a
/// file for a file name, a tag group for a tag group, a tag for a tag or
/// a file directory.
pub open spec fn kind_fits(e: ReaddirCacheEntryView, last: TagTypeView) -> bool {
    match last {
        TagTypeView::DeviceFileSymlink(_) => e is File,
        TagTypeView::Symlink(_) => e is File,
        TagTypeView::Group(_) => e is TagGroup,
        TagTypeView::FileDir => e is Tag,
        TagTypeView::Regular(_) => e is Tag,
        TagTypeView::Negation(_) => e is Tag,
    }
}

/// What the store alone answers for a path.
pub open spec fn store_attr(s: StoreView, syms: SymbolsView, path: Seq<char>) -> Result<Stat, Errno> {
    match entry_at(s, syms, path) {
        Ok((e, _)) => Ok(entry_stat(e)),
        Err(e) => Err(e),
    }
}

/// Whether `r` is an answer that the caches give for the path: the
/// report of the entry that the listing cache keeps under the path, where
/// it is of the kind that the path names; and for a path that ends in a
/// tag, the report of a link that the caller just made there, or of a
/// directory that was just renamed to the delete name.
pub open spec fn cached_attr(
    c: OpCacheView,
    syms: SymbolsView,
    req: Request,
    path: Seq<char>,
    now: Micros,
    r: Result<Stat, Errno>,
) -> bool {
    let tags = path_tags(path, syms);
    let key = canonical(path);
    let skey = symlink_key(req, path);
    let is_tag = tags.last() is Regular || tags.last() is Negation;
    tags.len() > 0 && {
        ||| c.readdir.contains_key(key) && c.readdir[key] is Entry && kind_fits(
            c.readdir[key]->Entry_0,
            tags.last(),
        ) && r == Ok::<Stat, Errno>(entry_stat(c.readdir[key]->Entry_0))
        ||| is_tag && c.symlinks.contains_key(skey) && c.symlinks[skey] is Symlink && r == Ok::<
            Stat,
            Errno,
        >(
            link_stat(
                now,
                c.symlinks[skey]->Symlink_0.uid,
                c.symlinks[skey]->Symlink_0.gid,
                c.symlinks[skey]->Symlink_0.permissions,
                0,
            ),
        )
        ||| is_tag && c.deleted.contains_key(key) && r == Ok::<Stat, Errno>(
            dir_stat(now, req.uid, req.gid, perms_of((0o777u32 & !req.umask) as nat), 0),
        )
    }
}

/// Whether `r` is the report of an alias file that is being written at
/// the path.
pub open spec fn alias_attr(c: OpCacheView, path: Seq<char>, r: Result<Stat, Errno>) -> bool {
    let key = canonical(path);
    c.aliases.contains_key(key) && c.aliases[key] is Alias && r == Ok::<Stat, Errno>(
        alias_stat(c.aliases[key]->Alias_0),
    )
}

/// Whether `r` is an answer that the file system may give of a path, and
/// `after` the file system after it: the paths that always exist are
/// reported whatever the store holds; a path that ends in the sync
/// character and names a file, a tag or a tag group is never found and
/// only has the caches of the path flushed; any other answer is that of
/// the store, or one that the caches give.
pub open spec fn attr_answer(
    before: TagFilesystem,
    after: TagFilesystem,
    req: Request,
    path: Seq<char>,
    now: Micros,
    r: Result<Stat, Errno>,
) -> bool {
    match special_attr(before.store@.root_mtime, req, path, before.alias_files) {
        Some(a) => r == a && after.op_cache@ == before.op_cache@,
        None => {
            ||| before.alias_files && alias_attr(before.op_cache@, path, r)
            ||| is_root(path) && r == Ok::<Stat, Errno>(
                dir_stat(
                    before.store@.root_mtime,
                    before.settings.config.mount.uid,
                    before.settings.config.mount.gid,
                    before.settings.config.mount.permissions,
                    0,
                ),
            )
            ||| !is_root(path) && {
                let syms = before.settings.config.symbols@;
                let tags = path_tags(path, syms);
                if tags.len() == 0 {
                    r == Err::<Stat, Errno>(Errno::EIO)
                } else if !pairs_ok(before.store@, tags) {
                    r == Err::<Stat, Errno>(Errno::ENOENT)
                } else if is_flush_probe(path, syms) {
                    r == Err::<Stat, Errno>(Errno::ENOENT) && after.op_cache@.readdir
                        == (match sync_stripped(path, syms) {
                        Some(p) => flushed(before.op_cache@.readdir, p, syms),
                        None => before.op_cache@.readdir,
                    })
                } else {
                    r == store_attr(before.store@, syms, path) || cached_attr(
                        before.op_cache@,
                        syms,
                        req,
                        path,
                        now,
                        r,
                    )
                }
            }
        },
    }
}

impl TagFilesystem {
    /// The path without the sync character at the end of its file name.
    pub fn strip_sync_char(&self, path: &str) -> (r: Option<String>)
        ensures
            crate::sql::types::opt_view(r) == sync_stripped(path@, self.settings.config.symbols@),
    {
        let fname = match crate::path::get_filename(path) {
            Some(n) => n,
            None => {
                return None;
            },
        };
        let dir = match crate::path::parent(path) {
            Some(p) => p,
            None => {
                return None;
            },
        };
        let mut letters = crate::text::chars_of(fname.as_str());
        if letters.len() > 0 && letters[letters.len() - 1] == self.settings.config.symbols.sync_char {
            letters.pop();
            assert(letters@ =~= fname@.drop_last());
            let name = crate::text::string_of(letters.as_slice());
            Some(crate::settings::join_path(dir.as_str(), name.as_str()))
        } else {
            None
        }
    }

    /// Forgets what the listing cache keeps of the file directory below
    /// the path.
    pub fn flush_filedir_cache(&mut self, path: &str)
        requires
            old(self).wf(),
        ensures
            final(self).wf(),
            final(self).store == old(self).store,
            final(self).settings == old(self).settings,
            final(self).alias_files == old(self).alias_files,
            final(self).op_cache@.readdir == old(self).op_cache@.readdir.remove(
                canonical(child_of(path@, old(self).settings.config.symbols@.filedir_str)),
            ).remove(canonical(child_of(path@, old(self).settings.config.symbols@.filedir_cli_str))),
            final(self).op_cache@.symlinks == old(self).op_cache@.symlinks,
            final(self).op_cache@.aliases == old(self).op_cache@.aliases,
            final(self).op_cache@.denied == old(self).op_cache@.denied,
            final(self).op_cache@.deleted == old(self).op_cache@.deleted,
    {
        let a = crate::path::join_name(path, self.settings.config.symbols.filedir_str.as_str());
        let b = crate::path::join_name(path, self.settings.config.symbols.filedir_cli_str.as_str());
        let _ = self.op_cache.clear_readdir_entry(a.as_str());
        let _ = self.op_cache.clear_readdir_entry(b.as_str());
    }

    /// Forgets what the listing cache keeps of a directory and of the
    /// file directory below it.
    pub fn flush_readdir_cache(&mut self, path: &str)
        requires
            old(self).wf(),
        ensures
            final(self).wf(),
            final(self).store == old(self).store,
            final(self).settings == old(self).settings,
            final(self).alias_files == old(self).alias_files,
            final(self).op_cache@.readdir == flushed(
                old(self).op_cache@.readdir,
                path@,
                old(self).settings.config.symbols@,
            ),
            final(self).op_cache@.symlinks == old(self).op_cache@.symlinks,
            final(self).op_cache@.aliases == old(self).op_cache@.aliases,
            final(self).op_cache@.denied == old(self).op_cache@.denied,
            final(self).op_cache@.deleted == old(self).op_cache@.deleted,
    {
        let _ = self.op_cache.clear_readdir_entry(path);
        self.flush_filedir_cache(path);
    }

    /// What the file system reports of a path.
    ///
    /// The paths that always exist are reported whatever the store holds.
    /// A path that ends in the sync character and names a file, a tag or
    /// a tag group is never found: it only has the caches of the path
    /// flushed. Any other answer is that of the store, or one that the
    /// caches give. The store is left as it is.
    pub fn getattr_impl(&mut self, req: &Request, path: &str, now: Micros) -> (r: Result<
        Stat,
        Errno,
    >)
        requires
            old(self).wf(),
        ensures
            final(self).wf(),
            final(self).store == old(self).store,
            final(self).settings == old(self).settings,
            final(self).alias_files == old(self).alias_files,
            attr_answer(*old(self), *final(self), *req, path@, now, r),
    {
        let root_mtime = self.store.get_root_mtime();
        let um = UMask(req.umask);
        if self.alias_files {
            if crate::path::same_path(path, FSEVENTS_PATH) {
                return Ok(new_dir(root_mtime, req.uid, req.gid, &um.dir_perms(), 0));
            }
            if crate::path::same_path(path, FSEVENTS_NO_LOG_PATH) || crate::path::same_path(
                path,
                NO_INDEX_PATH,
            ) {
                return Ok(new_regfile(root_mtime, req.uid, req.gid, &um.file_perms(), 0));
            }
        }
        if crate::path::ends_with(path, TRACKER_IGNORE) || crate::path::ends_with(
            path,
            UNLINK_CANARY,
        ) {
            return Ok(new_regfile(root_mtime, req.uid, req.gid, &um.file_perms(), 0));
        }
        if crate::path::same_path(path, STAG_ROOT_CONF_PATH) {
            return Ok(new_dir(root_mtime, req.uid, req.gid, &um.dir_perms(), 0));
        } else if crate::path::starts_with(path, STAG_ROOT_CONF_PATH) {
            if crate::path::same_path(path, DB_FILE_PATH) {
                return Ok(db_file(req.uid, req.gid, root_mtime));
            } else {
                return Err(Errno::ENOENT);
            }
        }
        if self.alias_files {
            match self.op_cache.check_alias_entry(path) {
                Some(bm) => {
                    return Ok(
                        new_alias(bm.btime, bm.mtime, bm.mtime, bm.written, bm.uid, bm.gid, bm.mode),
                    );
                },
                None => {},
            }
        }
        let parts = crate::path::components_of(path);
        if parts.len() == 1 && matches!(parts[0], crate::path::PathPart::Root) {
            assert(crate::path::part_views(parts@) =~= seq![PartView::Root]) by {
                assert(crate::path::part_views(parts@)[0] == parts@[0]@);
            }
            return Ok(
                new_dir(
                    root_mtime,
                    self.settings.config.mount.uid,
                    self.settings.config.mount.gid,
                    &self.settings.config.mount.permissions,
                    0,
                ),
            );
        }
        assert(!is_root(path@)) by {
            if is_root(path@) {
                assert(crate::path::part_views(parts@)[0] == parts@[0]@);
            }
        }
        let tags = TagCollection::new(&self.settings.config.symbols, path);
        if tags.len() == 0 {
            return Err(Errno::EIO);
        }
        if !check_pairs(&self.store, tags.as_slice()) {
            return Err(Errno::ENOENT);
        }
        let n = tags.len();
        assert(tags.tag_seq().last() == tags.tags@[n - 1]@);
        let pt = &tags.as_slice()[n - 1];
        let probe = tags.unlinking && match pt {
            TagType::Symlink(_) => true,
            TagType::DeviceFileSymlink(_) => true,
            TagType::Regular(_) => true,
            TagType::Group(_) => true,
            _ => false,
        };
        if probe {
            match self.strip_sync_char(path) {
                Some(stripped) => {
                    self.flush_readdir_cache(stripped.as_str());
                },
                None => {},
            }
            return Err(Errno::ENOENT);
        }
        match self.op_cache.check_readdir_entry(path) {
            Some(e) => {
                let fits = match (pt, &e) {
                    (TagType::DeviceFileSymlink(_), ReaddirCacheEntry::File(_)) => true,
                    (TagType::Symlink(_), ReaddirCacheEntry::File(_)) => true,
                    (TagType::Group(_), ReaddirCacheEntry::TagGroup(_)) => true,
                    (TagType::FileDir, ReaddirCacheEntry::Tag(_)) => true,
                    (TagType::Regular(_), ReaddirCacheEntry::Tag(_)) => true,
                    (TagType::Negation(_), ReaddirCacheEntry::Tag(_)) => true,
                    _ => false,
                };
                if fits {
                    return Ok(stat_of_entry(&e));
                }
            },
            None => {},
        }
        let is_tag = match pt {
            TagType::Regular(_) => true,
            TagType::Negation(_) => true,
            _ => false,
        };
        if is_tag {
            match self.op_cache.consume_symlink(req, path) {
                Some(cached_file) => {
                    return Ok(
                        new_link(
                            now,
                            cached_file.uid,
                            cached_file.gid,
                            &cached_file.permissions,
                            0,
                        ),
                    );
                },
                None => {},
            }
            if self.op_cache.consume_rename_delete(path) {
                return Ok(new_dir(now, req.uid, req.gid, &um.dir_perms(), 0));
            }
        }
        match find_entry(&self.store, &self.settings.config.symbols, path) {
            Ok((entry, keep)) => {
                let st = stat_of_entry(&entry);
                if keep {
                    self.op_cache.add_readdir_entry(path, entry);
                }
                Ok(st)
            },
            Err(e) => Err(e),
        }
    }

    /// What the file system reports of a path: the answer to the kernel.
    pub fn getattr(&mut self, req: &Request, path: &str, now: Micros) -> (r: Result<Stat, Errno>)
        requires
            old(self).wf(),
        ensures
            final(self).wf(),
            final(self).store == old(self).store,
            final(self).settings == old(self).settings,
            final(self).alias_files == old(self).alias_files,
            attr_answer(*old(self), *final(self), *req, path@, now, r),
    {
        self.getattr_impl(req, path, now)
    }
}

} // verus!
