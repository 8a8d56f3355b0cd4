//! What holds of the answers of the file system.

use crate::common::group_name_ok;
use crate::constants::{alias_header, ALIAS_HEADER_LEN, STAG_ROOT_CONF_PATH};
use crate::err::{Errno, STagErrorView};
use crate::fsops::ln::{is_recursive, ln_outcome};
use crate::fsops::mv::{mv_tag_outcome, tag_destination};
use crate::fuse::fs::ops::link_destination;
use crate::fuse::fs::readdir::{
    held_by, ids_of_groups, ids_of_tags, listed_groups, listed_pins, listed_tags, listing,
    root_filedir, tag_ids_in,
};
use crate::fuse::opcache::{alias_write, header_scan, AliasView};
use crate::notify::NoteView;
use crate::path::{components, normal_names, runs, PartView, SEPARATOR};
use crate::settings::{joined_path, path_tags, tags_of_names, Settings, SymbolsView};
use crate::sql::model::{tag_rel, StoreView};
use crate::sql::tables::{lemma_filter_has, lemma_filter_part};
use crate::sql::types::{
    tag_entry, FileEntryView, TagGroupView, TagOrTagGroupView, TagView,
};
use crate::types::file_perms::UMask;
use crate::types::{Micros, TagTypeView};
use vstd::prelude::*;

verus! {

/// The file directory at the root lists every tag.
pub proof fn law_root_filedir_lists_every_tag(s: StoreView, syms: SymbolsView, path: Seq<char>)
    requires
        components(path) == root_filedir(syms),
        components(path) != components(STAG_ROOT_CONF_PATH@),
    ensures
        listing(s, syms, path) == Ok::<Seq<FileEntryView>, Errno>(
            s.tags.map_values(|t: TagView| tag_entry(t)),
        ),
{
    let c = components(path);
    let f = |p: PartView|
        match p {
            PartView::Normal(n) => Some(n),
            _ => None,
        };
    let one = c.drop_last();
    let none = one.drop_last();
    assert(one =~= seq![PartView::Root]);
    assert(none =~= Seq::<PartView>::empty());
    assert(none.filter_map(f) =~= Seq::<Seq<char>>::empty());
    assert(one.last() == PartView::Root);
    assert(one.filter_map(f) == none.filter_map(f));
    assert(c.last() == PartView::Normal(syms.filedir_str));
    assert(c.filter_map(f) == one.filter_map(f) + seq![syms.filedir_str]);
    assert(c.filter_map(f).len() == 1);
    assert(normal_names(path).len() == 1);
    let names = normal_names(path);
    assert(names.drop_last().len() == 0);
    assert(tags_of_names(names.drop_last(), syms).len() == 0);
    assert(tags_of_names(names, syms).len() == 1);
}

/// The path of no component has no component.
pub proof fn lemma_empty_path()
    ensures
        components(Seq::<char>::empty()).len() == 0,
{
    let e = Seq::<char>::empty();
    assert(runs(e, SEPARATOR) =~= Seq::<Seq<char>>::empty());
    assert(components(e) =~= Seq::<PartView>::empty());
}

/// A link that is dropped at the root, under no tag, is refused, with a
/// note that a file was dragged to the root.
pub proof fn law_link_at_root_is_refused(
    s: StoreView,
    settings: &Settings,
    abs_src: Seq<char>,
    dst: Seq<char>,
    primary: Seq<char>,
    uid: u32,
    gid: u32,
    umask: UMask,
    src_id: Option<(u64, u64)>,
    now: Micros,
)
    requires
        path_tags(dst, settings.config.symbols@).len() <= 1,
        !is_recursive(settings, abs_src),
    ensures
        ln_outcome(
            s,
            settings,
            abs_src,
            link_destination(dst, settings.config.symbols@),
            primary,
            uid,
            gid,
            umask,
            None,
            src_id,
            now,
        ) == (
            Err::<StoreView, STagErrorView>(STagErrorView::InvalidPath(Seq::empty())),
            Some(NoteView::DraggedToRoot),
        ),
{
    let syms = settings.config.symbols@;
    let tags = path_tags(dst, syms);
    let rest = if tags.len() > 0 {
        tags.drop_last()
    } else {
        tags
    };
    assert(rest.len() == 0);
    assert(crate::settings::path_parts(rest, syms) =~= Seq::<Seq<char>>::empty());
    assert(joined_path(rest, syms) =~= Seq::<char>::empty());
    lemma_empty_path();
}

/// A tag with files that is renamed into a tag group that does not exist
/// is refused, with a note that a tag with files cannot become a tag
/// group.
pub proof fn law_tag_with_files_into_new_group_is_refused(
    s: StoreView,
    syms: SymbolsView,
    src_tag: Seq<char>,
    src_tags: Seq<TagTypeView>,
    dst_tags: Seq<TagTypeView>,
    new_name: Seq<char>,
    uid: u32,
    gid: u32,
    umask: UMask,
    now: Micros,
)
    requires
        s.tag_named(src_tag) is Some,
        tag_destination(src_tags, dst_tags).len() > 0,
        tag_destination(src_tags, dst_tags).last() == TagTypeView::Group(new_name),
        group_name_ok(new_name, syms.tag_group_str, syms.filedir_str),
        s.group_named(new_name) is None,
        s.files_at(seq![TagTypeView::Regular(src_tag)]).len() > 0,
    ensures
        mv_tag_outcome(s, syms, src_tag, src_tags, dst_tags, uid, gid, umask, now) == (
            Err::<StoreView, STagErrorView>(STagErrorView::BadTagGroup(new_name)),
            Some(NoteView::TagToTagGroup(src_tag)),
        ),
{
}

/// Bytes that are the header from position `p` on match it, and the
/// header is known to match once its last byte is among them.
pub proof fn lemma_header_matches(p: nat, q: nat)
    requires
        p <= q <= ALIAS_HEADER_LEN,
    ensures
        header_scan(p, alias_header().subrange(p as int, q as int)) == (
            q,
            if q == ALIAS_HEADER_LEN {
                Some(true)
            } else {
                None::<bool>
            },
        ),
    decreases q - p,
{
    let data = alias_header().subrange(p as int, q as int);
    if p < q {
        lemma_header_matches(p + 1, q);
        assert(data.drop_first() =~= alias_header().subrange(p as int + 1, q as int));
        assert(data[0] == alias_header()[p as int]);
    }
}

/// Bytes that differ from the header at position `j`, and not before,
/// are found not to match.
pub proof fn lemma_header_differs(p: nat, data: Seq<u8>, j: int)
    requires
        0 <= j < data.len(),
        p + j < ALIAS_HEADER_LEN,
        forall|k: int| 0 <= k < j ==> data[k] == alias_header()[p + k],
        data[j] != alias_header()[p + j],
    ensures
        header_scan(p, data).1 == Some(false),
        header_scan(p, data).0 == p + j,
    decreases j,
{
    if j > 0 {
        let rest = data.drop_first();
        assert forall|k: int| 0 <= k < j - 1 implies rest[k] == alias_header()[p + 1 + k] by {
            assert(rest[k] == data[k + 1]);
        }
        assert(rest[j - 1] == data[j]);
        lemma_header_differs(p + 1, rest, j - 1);
    }
}

/// A write of the beginning of the header at the beginning of an alias
/// file is taken. The alias file is known to be valid once the whole
/// header was written, and not before.
pub proof fn law_header_bytes_are_taken(a: AliasView, k: nat, now: Micros)
    requires
        !a.linked,
        k <= ALIAS_HEADER_LEN,
    ensures
        alias_write(a, alias_header().subrange(0, k as int), 0, now).1,
        alias_write(a, alias_header().subrange(0, k as int), 0, now).0.valid == (if k
            == ALIAS_HEADER_LEN {
            Some(true)
        } else {
            None::<bool>
        }),
        alias_write(a, alias_header().subrange(0, k as int), 0, now).0.header_ptr == k,
        alias_write(a, alias_header().subrange(0, k as int), 0, now).0.written == k,
{
    lemma_header_matches(0, k);
}

/// The header may come in two writes: after its first `k` bytes at the
/// beginning and the rest behind them, the alias file is known to be
/// valid, with the header written and no more.
pub proof fn law_header_in_two_writes(a: AliasView, k: nat, now1: Micros, now2: Micros)
    requires
        !a.linked,
        k <= ALIAS_HEADER_LEN,
    ensures
        ({
            let first = alias_write(a, alias_header().subrange(0, k as int), 0, now1).0;
            let second = alias_write(
                first,
                alias_header().subrange(k as int, ALIAS_HEADER_LEN as int),
                k as usize,
                now2,
            );
            second.1 && second.0.valid == Some(true) && second.0.written == ALIAS_HEADER_LEN
                && second.0.header_ptr == ALIAS_HEADER_LEN
        }),
{
    lemma_header_matches(0, k);
    lemma_header_matches(k, ALIAS_HEADER_LEN as nat);
}

/// An alias file whose header matched and that holds more than the
/// header is valid: after the header at the beginning and at least one
/// byte behind it, the header is known to match and more than the header
/// is written.
pub proof fn law_header_and_more_is_valid(a: AliasView, more: Seq<u8>, now1: Micros, now2: Micros)
    requires
        !a.linked,
        more.len() > 0,
        ALIAS_HEADER_LEN + more.len() <= usize::MAX,
    ensures
        ({
            let first = alias_write(a, alias_header(), 0, now1).0;
            let second = alias_write(first, more, ALIAS_HEADER_LEN, now2);
            second.1 && second.0.valid == Some(true) && second.0.written == ALIAS_HEADER_LEN
                + more.len() && second.0.written > ALIAS_HEADER_LEN && !second.0.linked
        }),
{
    lemma_header_matches(0, ALIAS_HEADER_LEN as nat);
    assert(alias_header().subrange(0, ALIAS_HEADER_LEN as int) =~= alias_header());
}

/// A write at the beginning whose byte at position `j` is the first that
/// differs from the header is refused, and leaves the alias file invalid;
/// an invalid alias file takes no write that begins beyond the header.
pub proof fn law_first_wrong_byte_invalidates(
    a: AliasView,
    data: Seq<u8>,
    j: int,
    later: Seq<u8>,
    offset: usize,
    now: Micros,
)
    requires
        !a.linked,
        0 <= j < data.len(),
        j < ALIAS_HEADER_LEN,
        forall|k: int| 0 <= k < j ==> data[k] == alias_header()[k],
        data[j] != alias_header()[j],
        offset >= ALIAS_HEADER_LEN,
    ensures
        !alias_write(a, data, 0, now).1,
        alias_write(a, data, 0, now).0.valid == Some(false),
        !alias_write(alias_write(a, data, 0, now).0, later, offset, now).1,
        alias_write(alias_write(a, data, 0, now).0, later, offset, now).0.valid == Some(false),
{
    lemma_header_differs(0, data, j);
}

/// The rows that a filtering map gives come from the table in its order.
pub proof fn lemma_filter_map_part<A, B>(s: Seq<A>, f: spec_fn(A) -> Option<B>) -> (at: spec_fn(
    int,
) -> int)
    ensures
        forall|i: int|
            0 <= i < s.filter_map(f).len() ==> 0 <= #[trigger] at(i) < s.len() && f(s[at(i)])
                == Some(s.filter_map(f)[i]),
        forall|i: int, j: int|
            0 <= i < j < s.filter_map(f).len() ==> #[trigger] at(i) < #[trigger] at(j),
    decreases s.len(),
{
    if s.len() == 0 {
        |i: int| 0int
    } else {
        let head = s.drop_last();
        let prev = lemma_filter_map_part(head, f);
        let n = head.filter_map(f).len() as int;
        let last = s.len() - 1;
        let at = |i: int|
            if i < n {
                prev(i)
            } else {
                last
            };
        let t = s.filter_map(f);
        assert forall|i: int| 0 <= i < t.len() implies 0 <= #[trigger] at(i) < s.len() && f(
            s[at(i)],
        ) == Some(t[i]) by {
            if i < n {
                assert(t[i] == head.filter_map(f)[i]);
                assert(head[prev(i)] == s[prev(i)]);
            }
        }
        assert forall|i: int, j: int| 0 <= i < j < t.len() implies #[trigger] at(i) < #[trigger] at(
            j,
        ) by {
            if j < n {
                assert(prev(i) < prev(j));
            } else {
                assert(0 <= prev(i) < head.len());
            }
        }
        at
    }
}

/// Whether all tags have different ids.
pub open spec fn distinct_tag_ids(tags: Seq<TagView>) -> bool {
    forall|i: int, j: int|
        0 <= i < tags.len() && 0 <= j < tags.len() && (#[trigger] tags[i]).id == (
        #[trigger] tags[j]).id ==> i == j
}

/// The tags that show below a path have different ids and different
/// names.
pub proof fn lemma_tags_below_distinct(s: StoreView, tags: Seq<TagTypeView>, exclude: bool)
    requires
        s.wf(),
    ensures
        distinct_tag_ids(s.tags_below(tags, exclude)),
        forall|i: int, j: int|
            0 <= i < j < s.tags_below(tags, exclude).len() ==> (#[trigger] s.tags_below(
                tags,
                exclude,
            )[i]).name != (#[trigger] s.tags_below(tags, exclude)[j]).name,
{
    let below = s.tags_below(tags, exclude);
    if tags.len() == 0 {
        assert forall|i: int, j: int|
            0 <= i < below.len() && 0 <= j < below.len() && (#[trigger] below[i]).id == (
            #[trigger] below[j]).id implies i == j by {
            if i < j {
                assert(tag_rel()(s.tags[i], s.tags[j]));
            } else if j < i {
                assert(tag_rel()(s.tags[j], s.tags[i]));
            }
        }
        assert forall|i: int, j: int| 0 <= i < j < below.len() implies (#[trigger] below[i]).name
            != (#[trigger] below[j]).name by {
            assert(tag_rel()(s.tags[i], s.tags[j]));
            crate::text::lemma_lex_irreflexive(below[i].name);
        }
    } else {
        let f = |t: TagView| s.tag_below(t, tags, exclude);
        let at = lemma_filter_map_part(s.tags, f);
        assert forall|i: int, j: int|
            0 <= i < below.len() && 0 <= j < below.len() && (#[trigger] below[i]).id == (
            #[trigger] below[j]).id implies i == j by {
            assert(f(s.tags[at(i)]) == Some(below[i]));
            assert(f(s.tags[at(j)]) == Some(below[j]));
            if i < j {
                assert(at(i) < at(j));
                assert(tag_rel()(s.tags[at(i)], s.tags[at(j)]));
            } else if j < i {
                assert(at(j) < at(i));
                assert(tag_rel()(s.tags[at(j)], s.tags[at(i)]));
            }
        }
        assert forall|i: int, j: int| 0 <= i < j < below.len() implies (#[trigger] below[i]).name
            != (#[trigger] below[j]).name by {
            assert(f(s.tags[at(i)]) == Some(below[i]));
            assert(f(s.tags[at(j)]) == Some(below[j]));
            assert(at(i) < at(j));
            assert(tag_rel()(s.tags[at(i)], s.tags[at(j)]));
            crate::text::lemma_lex_irreflexive(below[i].name);
        }
    }
}

/// No pinned tag is listed that was listed before or that a listed tag
/// group holds, and none is listed twice.
pub proof fn lemma_listed_pins(
    pins: Seq<TagOrTagGroupView>,
    shown: Seq<TagView>,
    groups: Seq<TagGroupView>,
)
    ensures
        forall|i: int|
            0 <= i < listed_pins(pins, shown, groups).len() ==> pins.contains(
                #[trigger] listed_pins(pins, shown, groups)[i],
            ) && match listed_pins(pins, shown, groups)[i] {
                TagOrTagGroupView::Tag(t) => !ids_of_tags(shown).contains(t.id) && !held_by(
                    groups,
                    t.id,
                ),
                TagOrTagGroupView::Group(g) => !ids_of_groups(groups).contains(g.id),
            },
        forall|i: int, j: int|
            0 <= i < j < listed_pins(pins, shown, groups).len() ==> match (
                #[trigger] listed_pins(pins, shown, groups)[i],
                #[trigger] listed_pins(pins, shown, groups)[j],
            ) {
                (TagOrTagGroupView::Tag(a), TagOrTagGroupView::Tag(b)) => a.id != b.id,
                (TagOrTagGroupView::Group(a), TagOrTagGroupView::Group(b)) => a.id != b.id,
                _ => true,
            },
    decreases pins.len(),
{
    if pins.len() > 0 {
        let earlier = pins.drop_last();
        lemma_listed_pins(earlier, shown, groups);
        let head = listed_pins(earlier, shown, groups);
        let all = listed_pins(pins, shown, groups);
        assert forall|i: int| 0 <= i < all.len() implies pins.contains(#[trigger] all[i]) && match all[i] {
            TagOrTagGroupView::Tag(t) => !ids_of_tags(shown).contains(t.id) && !held_by(
                groups,
                t.id,
            ),
            TagOrTagGroupView::Group(g) => !ids_of_groups(groups).contains(g.id),
        } by {
            if i < head.len() {
                assert(all[i] == head[i]);
                let k = choose|k: int| 0 <= k < earlier.len() && earlier[k] == head[i];
                assert(pins[k] == head[i]);
            } else {
                assert(all[i] == pins[pins.len() - 1]);
            }
        }
        assert forall|i: int, j: int| 0 <= i < j < all.len() implies match (
            #[trigger] all[i],
            #[trigger] all[j],
        ) {
            (TagOrTagGroupView::Tag(a), TagOrTagGroupView::Tag(b)) => a.id != b.id,
            (TagOrTagGroupView::Group(a), TagOrTagGroupView::Group(b)) => a.id != b.id,
            _ => true,
        } by {
            if j < head.len() {
                assert(all[i] == head[i] && all[j] == head[j]);
            } else {
                assert(all[i] == head[i]);
                assert(all[j] == pins.last());
                let k = choose|k: int| 0 <= k < earlier.len() && earlier[k] == head[i];
                match (all[i], all[j]) {
                    (TagOrTagGroupView::Tag(a), TagOrTagGroupView::Tag(b)) => {
                        lemma_tag_ids_in_has(earlier, k);
                    },
                    (TagOrTagGroupView::Group(a), TagOrTagGroupView::Group(b)) => {
                        lemma_group_ids_in_has(earlier, k);
                    },
                    _ => {},
                }
            }
        }
    }
}

/// The id of a tag among the records is among the ids of the tags.
pub proof fn lemma_tag_ids_in_has(recs: Seq<TagOrTagGroupView>, k: int)
    requires
        0 <= k < recs.len(),
        recs[k] is Tag,
    ensures
        tag_ids_in(recs).contains(recs[k]->Tag_0.id),
    decreases recs.len(),
{
    let f = |r: TagOrTagGroupView|
        match r {
            TagOrTagGroupView::Tag(t) => Some(t.id),
            _ => None,
        };
    let all = recs.filter_map(f);
    if k == recs.len() - 1 {
        assert(all[all.len() - 1] == recs[k]->Tag_0.id);
    } else {
        let head = recs.drop_last();
        assert(head[k] == recs[k]);
        lemma_tag_ids_in_has(head, k);
        let i = choose|i: int|
            0 <= i < head.filter_map(f).len() && head.filter_map(f)[i] == recs[k]->Tag_0.id;
        assert(all[i] == head.filter_map(f)[i]);
    }
}

/// The id of a tag group among the records is among the ids of the
/// groups.
pub proof fn lemma_group_ids_in_has(recs: Seq<TagOrTagGroupView>, k: int)
    requires
        0 <= k < recs.len(),
        recs[k] is Group,
    ensures
        crate::fuse::fs::readdir::group_ids_in(recs).contains(recs[k]->Group_0.id),
    decreases recs.len(),
{
    let f = |r: TagOrTagGroupView|
        match r {
            TagOrTagGroupView::Group(g) => Some(g.id),
            _ => None,
        };
    let all = recs.filter_map(f);
    if k == recs.len() - 1 {
        assert(all[all.len() - 1] == recs[k]->Group_0.id);
    } else {
        let head = recs.drop_last();
        assert(head[k] == recs[k]);
        lemma_group_ids_in_has(head, k);
        let i = choose|i: int|
            0 <= i < head.filter_map(f).len() && head.filter_map(f)[i] == recs[k]->Group_0.id;
        assert(all[i] == head.filter_map(f)[i]);
    }
}

/// A tag directory lists every tag that shows below its path exactly
/// once, but for the tags that a listed tag group holds, which it does
/// not list: such a tag is among the listed tags at one position only,
/// and is none of the pinned tags that are listed after them.
pub proof fn law_tags_below_listed_once(s: StoreView, tags: Seq<TagTypeView>, i: int)
    requires
        s.wf(),
        0 <= i < s.tags_below(tags, true).len(),
    ensures
        ({
            let t = s.tags_below(tags, true)[i];
            let shown = listed_tags(s, tags);
            let pins = listed_pins(s.pinned_below(tags), shown, listed_groups(s, tags));
            &&& held_by(listed_groups(s, tags), t.id) ==> forall|j: int|
                0 <= j < shown.len() ==> (#[trigger] shown[j]).id != t.id
            &&& !held_by(listed_groups(s, tags), t.id) ==> exists|j: int|
                0 <= j < shown.len() && #[trigger] shown[j] == t
            &&& distinct_tag_ids(shown)
            &&& forall|k: int|
                0 <= k < pins.len() ==> (#[trigger] pins[k]) is Tag ==> pins[k]->Tag_0.id != t.id
        }),
{
    let below = s.tags_below(tags, true);
    let t = below[i];
    let groups = listed_groups(s, tags);
    let keep = |x: TagView| !held_by(groups, x.id);
    let shown = listed_tags(s, tags);
    let at = lemma_filter_part(below, keep);
    lemma_tags_below_distinct(s, tags, true);
    assert forall|a: int, b: int|
        0 <= a < shown.len() && 0 <= b < shown.len() && (#[trigger] shown[a]).id == (
        #[trigger] shown[b]).id implies a == b by {
        assert(shown[a] == below[at(a)] && shown[b] == below[at(b)]);
        if a < b {
            assert(at(a) < at(b));
        } else if b < a {
            assert(at(b) < at(a));
        }
    }
    if held_by(groups, t.id) {
        assert forall|j: int| 0 <= j < shown.len() implies (#[trigger] shown[j]).id != t.id by {
            assert(shown[j] == below[at(j)]);
            assert(keep(shown[j]));
        }
    } else {
        lemma_filter_has(below, keep, i);
        let j = choose|j: int| 0 <= j < shown.len() && shown[j] == below[i];
        assert(shown[j] == t);
    }
    let pins = listed_pins(s.pinned_below(tags), shown, groups);
    lemma_listed_pins(s.pinned_below(tags), shown, groups);
    assert forall|k: int| 0 <= k < pins.len() && (#[trigger] pins[k]) is Tag implies pins[k]->Tag_0.id
        != t.id by {
        if pins[k]->Tag_0.id == t.id {
            if !held_by(groups, t.id) {
                let j = choose|j: int| 0 <= j < shown.len() && shown[j] == t;
                assert(ids_of_tags(shown)[j] == t.id);
            }
        }
    }
}

/// Making the directory of a tag or tag group that did not exist, and
/// removing the directory again, gives back the store as it was, but for
/// the time of its last change.
pub proof fn law_mkdir_then_rmdir(
    s: StoreView,
    syms: SymbolsView,
    path: Seq<char>,
    uid: u32,
    gid: u32,
    permissions: crate::types::file_perms::Permissions,
    now1: Micros,
    now2: Micros,
)
    requires
        s.wf(),
        path_tags(path, syms).len() == 1,
        match path_tags(path, syms)[0] {
            TagTypeView::Regular(t) => s.tag_named(t) is None && s.next_tag_id() <= i64::MAX,
            TagTypeView::Group(g) => s.group_named(g) is None && s.next_group_id() <= i64::MAX,
            _ => false,
        },
    ensures
        crate::fsops::mkdir::mkdir_outcome(s, syms, path, uid, gid, permissions, now1) is Ok,
        crate::fsops::rmdir::rmdir_outcome(
            crate::fsops::mkdir::mkdir_outcome(s, syms, path, uid, gid, permissions, now1)->Ok_0,
            syms,
            path,
            now2,
        ) == Ok::<StoreView, STagErrorView>(s.with_root(now2)),
{
    let tags = path_tags(path, syms);
    let f = |t: TagTypeView| crate::types::tag_or_group_only(t);
    assert(tags.drop_last() =~= Seq::<TagTypeView>::empty());
    assert(tags.drop_last().filter_map(f) =~= Seq::<TagTypeView>::empty());
    assert(tags.last() == tags[0]);
    assert(crate::types::tags_and_groups(tags).len() == 1);
    match tags[0] {
        TagTypeView::Regular(t) => {
            crate::sql::laws::law_make_then_remove_tag(s, t, uid, gid, permissions, now1, now2);
        },
        TagTypeView::Group(g) => {
            crate::sql::laws::law_make_then_remove_group(s, g, uid, gid, permissions, now1, now2);
        },
        _ => {},
    }
}

/// What a tag directory yields for a tag that shows below its path: the
/// entry of the tag itself, where no listed tag group holds it; else the
/// entry of a listed tag group that holds it, in its place. A tag that
/// the path names does not show below the path, so none is yielded.
pub proof fn law_each_tag_below_is_yielded(
    s: StoreView,
    syms: SymbolsView,
    tags: Seq<TagTypeView>,
    i: int,
)
    requires
        s.wf(),
        tags.len() > 0,
        0 <= i < s.tags_below(tags, true).len(),
    ensures
        ({
            let t = s.tags_below(tags, true)[i];
            let groups = listed_groups(s, tags);
            let listing = crate::fuse::fs::readdir::tag_dir_listing(s, syms, tags);
            &&& !crate::types::regular_names(tags).contains(t.name)
            &&& !held_by(groups, t.id) ==> exists|k: int|
                0 <= k < listing.len() && #[trigger] listing[k] == tag_entry(t)
            &&& held_by(groups, t.id) ==> exists|g: int|
                0 <= g < groups.len() && (#[trigger] groups[g]).tag_ids.contains(t.id)
                    && g < listing.len() && listing[g] == crate::sql::types::group_entry(
                    groups[g],
                    syms.tag_group_str,
                )
        }),
{
    let below = s.tags_below(tags, true);
    let t = below[i];
    let groups = listed_groups(s, tags);
    let shown = listed_tags(s, tags);
    let listing = crate::fuse::fs::readdir::tag_dir_listing(s, syms, tags);
    let f = |x: TagView| s.tag_below(x, tags, true);
    let at = lemma_filter_map_part(s.tags, f);
    assert(f(s.tags[at(i)]) == Some(t));
    assert(s.tags[at(i)].name == t.name);
    law_tags_below_listed_once(s, tags, i);
    if !held_by(groups, t.id) {
        let j = choose|j: int| 0 <= j < shown.len() && #[trigger] shown[j] == t;
        assert(listing[groups.len() + j] == tag_entry(shown[j]));
    } else {
        let g = choose|g: int| 0 <= g < groups.len() && (#[trigger] groups[g]).tag_ids.contains(t.id);
        assert(listing[g] == crate::sql::types::group_entry(groups[g], syms.tag_group_str));
    }
}

/// Linking a file that the store knows under a tag that exists, and
/// then removing it from that tag by the name that holds its device and
/// inode, gives back the links as they were, and every tag keeps its id,
/// its name and its count: every file directory answers as before. The
/// file had no link to the tag before; the rows of the file and of the
/// tag stay.
pub proof fn law_ln_then_rm(
    s: StoreView,
    settings: &Settings,
    src: Seq<char>,
    dst: Seq<char>,
    file: Seq<char>,
    primary_tag: Seq<char>,
    tag: Seq<char>,
    df: crate::types::DeviceFileView,
    uid: u32,
    gid: u32,
    umask: UMask,
    now1: Micros,
    now2: Micros,
)
    requires
        s.wf(),
        !is_recursive(settings, src),
        components(dst).len() > 0,
        crate::types::regular_names(path_tags(dst, settings.config.symbols@)) == seq![tag],
        path_tags(file, settings.config.symbols@).len() > 0,
        path_tags(file, settings.config.symbols@).last() == TagTypeView::DeviceFileSymlink(df),
        crate::types::regular_names(path_tags(file, settings.config.symbols@)) == seq![tag],
        s.file_at(df.device, df.inode) is Some,
        s.tag_named(tag) is Some,
        !crate::sql::model::linked(
            s.links,
            s.file_at(df.device, df.inode)->0.id,
            s.tag_named(tag)->0.id,
        ),
        s.links.len() < i64::MAX,
    ensures
        ({
            let linked = ln_outcome(
                s,
                settings,
                src,
                dst,
                primary_tag,
                uid,
                gid,
                umask,
                None,
                Some((df.device, df.inode)),
                now1,
            ).0;
            let removed = crate::fsops::rm::rm_outcome(
                linked->Ok_0,
                settings.config.symbols@,
                file,
                now2,
            );
            &&& linked is Ok
            &&& removed is Ok
            &&& removed->Ok_0.links == s.links
            &&& removed->Ok_0.files == s.files
            &&& removed->Ok_0.tags.len() == s.tags.len()
            &&& forall|i: int|
                0 <= i < s.tags.len() ==> (#[trigger] removed->Ok_0.tags[i]).id == s.tags[i].id
                    && removed->Ok_0.tags[i].name == s.tags[i].name
                    && removed->Ok_0.tags[i].num_files == s.tags[i].num_files
        }),
{
    crate::sql::laws::law_add_then_remove_devicefile(
        s,
        df.device,
        df.inode,
        src,
        primary_tag,
        tag,
        uid,
        gid,
        umask,
        now1,
        now2,
    );
    assert(seq![tag].last() == tag);
}

} // verus!
