//! What holds of every well-formed store, and of its changes.

use crate::sql::model::{
    count_links, find_first, lemma_find_first, link_rel, linked, tag_ids, tag_names, tag_rel,
    FileRowView, Link, PinId, StoreView,
};
use crate::sql::mutate::{left, lemma_tag_at, lex_lt_names, taken};
use crate::sql::remove::{member_left, pin_left};
use crate::sql::tables::{lemma_filter_part, lemma_lower_len, lemma_max_id, lower_len, max_id};
use crate::sql::types::TagView;
use crate::text::{lemma_lex_irreflexive, lemma_lex_transitive, lex_lt};
use crate::types::file_perms::Permissions;
use crate::types::{negated_names, regular_names, Micros, TagTypeView};
use vstd::prelude::*;

verus! {

/// The files that are linked to a tag.
pub open spec fn files_of_tag(links: Seq<Link>, tag_id: i64) -> Set<i64> {
    Set::new(|f: i64| linked(links, f, tag_id))
}

/// The ids of the files of the links of a tag.
pub open spec fn linked_files(links: Seq<Link>, tag_id: i64) -> Seq<i64> {
    links.filter(|l: Link| l.tag_id == tag_id).map_values(|l: Link| l.file_id)
}

/// In a well-formed store the number of files that a tag keeps is the
/// number of files that are linked to it.
pub proof fn law_num_files_counts_files(s: StoreView, i: int)
    requires
        s.wf(),
        0 <= i < s.tags.len(),
    ensures
        s.tags[i].num_files == count_links(s.links, s.tags[i].id),
        files_of_tag(s.links, s.tags[i].id).finite(),
        s.tags[i].num_files == files_of_tag(s.links, s.tags[i].id).len(),
{
    let id = s.tags[i].id;
    let keep = |l: Link| l.tag_id == id;
    let kept = s.links.filter(keep);
    let ids = linked_files(s.links, id);
    let at = lemma_filter_part(s.links, keep);
    assert(ids.no_duplicates()) by {
        assert forall|a: int, b: int| 0 <= a < ids.len() && 0 <= b < ids.len() && a != b implies ids[a]
            != ids[b] by {
            assert(kept[a] == s.links[at(a)] && kept[b] == s.links[at(b)]);
            if a < b {
                assert(at(a) < at(b));
                assert(link_rel()(s.links[at(a)], s.links[at(b)]));
            } else {
                assert(at(b) < at(a));
                assert(link_rel()(s.links[at(b)], s.links[at(a)]));
            }
        }
    }
    ids.unique_seq_to_set();
    assert(ids.to_set() =~= files_of_tag(s.links, id)) by {
        assert forall|f: i64| ids.to_set().contains(f) implies files_of_tag(s.links, id).contains(
            f,
        ) by {
            let a = choose|a: int| 0 <= a < ids.len() && ids[a] == f;
            assert(kept[a] == s.links[at(a)]);
            assert(s.links[at(a)].file_id == f && s.links[at(a)].tag_id == id);
        }
        assert forall|f: i64| files_of_tag(s.links, id).contains(f) implies ids.to_set().contains(
            f,
        ) by {
            let k = choose|k: int|
                0 <= k < s.links.len() && (#[trigger] s.links[k]).file_id == f && s.links[k].tag_id
                    == id;
            crate::sql::tables::lemma_filter_has(s.links, keep, k);
            let a = choose|a: int| 0 <= a < kept.len() && kept[a] == s.links[k];
            assert(ids[a] == f);
        }
    }
}

/// A file without links stands at no path.
pub proof fn law_unlinked_file_unreachable(s: StoreView, file_id: i64, tags: Seq<TagTypeView>)
    requires
        forall|k: int| 0 <= k < s.links.len() ==> (#[trigger] s.links[k]).file_id != file_id,
    ensures
        !s.at_path(file_id, tags),
        forall|i: int|
            0 <= i < s.files_at(tags).len() ==> (#[trigger] s.files_at(tags)[i]).id != file_id,
{
    let r = regular_names(tags);
    if s.at_path(file_id, tags) {
        if r.len() > 0 {
            assert(s.carries(file_id, r[0]));
        } else {
            assert(s.carries_any_of(file_id, crate::sql::model::last_group(tags)->0));
        }
    }
    lemma_files_at_ids(s, tags);
}

/// Every file at a path stands at the path.
pub proof fn lemma_files_at_ids(s: StoreView, tags: Seq<TagTypeView>)
    ensures
        forall|i: int|
            0 <= i < s.files_at(tags).len() ==> s.at_path(
                (#[trigger] s.files_at(tags)[i]).id,
                tags,
            ),
{
    let f = |f: FileRowView|
        if s.at_path(f.id, tags) {
            Some(s.tagged(f))
        } else {
            None
        };
    lemma_filter_map_from(s.files, f);
    assert forall|i: int| 0 <= i < s.files_at(tags).len() implies s.at_path(
        (#[trigger] s.files_at(tags)[i]).id,
        tags,
    ) by {
        let k = choose|k: int| 0 <= k < s.files.len() && f(s.files[k]) == Some(s.files_at(tags)[i]);
        assert(s.tagged(s.files[k]).id == s.files[k].id);
    }
}

/// Every item that a filtering map gives comes from an item of the
/// sequence.
pub proof fn lemma_filter_map_from<A, B>(s: Seq<A>, f: spec_fn(A) -> Option<B>)
    ensures
        forall|i: int|
            0 <= i < s.filter_map(f).len() ==> exists|k: int|
                0 <= k < s.len() && f(s[k]) == Some(#[trigger] s.filter_map(f)[i]),
    decreases s.len(),
{
    if s.len() > 0 {
        let head = s.drop_last();
        lemma_filter_map_from(head, f);
        let t = s.filter_map(f);
        assert forall|i: int| 0 <= i < t.len() implies exists|k: int|
            0 <= k < s.len() && f(s[k]) == Some(#[trigger] t[i]) by {
            if i < head.filter_map(f).len() {
                assert(t[i] == head.filter_map(f)[i]);
                let k = choose|k: int|
                    0 <= k < head.len() && f(head[k]) == Some(head.filter_map(f)[i]);
                assert(s[k] == head[k]);
            } else {
                assert(f(s[s.len() - 1]) == Some(t[i]));
            }
        }
    }
}

/// Two filtering maps that agree on every item of a sequence give the
/// same.
pub proof fn lemma_filter_map_same<A, B>(s: Seq<A>, f: spec_fn(A) -> Option<B>, g: spec_fn(A) -> Option<
    B,
>)
    requires
        forall|k: int| 0 <= k < s.len() ==> f(#[trigger] s[k]) == g(s[k]),
    ensures
        s.filter_map(f) == s.filter_map(g),
    decreases s.len(),
{
    if s.len() > 0 {
        let head = s.drop_last();
        assert(forall|k: int| 0 <= k < head.len() ==> head[k] == s[k]);
        lemma_filter_map_same(head, f, g);
        assert(f(s[s.len() - 1]) == g(s[s.len() - 1]));
    }
}

/// Whether two sequences hold the same names, in whatever order and
/// number.
pub open spec fn same_names(a: Seq<Seq<char>>, b: Seq<Seq<char>>) -> bool {
    &&& forall|i: int| 0 <= i < a.len() ==> b.contains(#[trigger] a[i])
    &&& forall|i: int| 0 <= i < b.len() ==> a.contains(#[trigger] b[i])
}

/// Which files stand at a path does not depend on the order of the tags
/// in the path: two paths with the same tags, the same negated tags and
/// the same tag group at the end hold the same files.
pub proof fn law_intersection_commutes(s: StoreView, a: Seq<TagTypeView>, b: Seq<TagTypeView>)
    requires
        same_names(regular_names(a), regular_names(b)),
        same_names(negated_names(a), negated_names(b)),
        crate::sql::model::last_group(a) == crate::sql::model::last_group(b),
    ensures
        forall|f: i64| s.at_path(f, a) == s.at_path(f, b),
        s.files_at(a) == s.files_at(b),
{
    assert forall|f: i64| s.at_path(f, a) == s.at_path(f, b) by {
        if s.at_path(f, a) {
            lemma_at_path_one_way(s, f, a, b);
        }
        if s.at_path(f, b) {
            lemma_at_path_one_way(s, f, b, a);
        }
    }
    let fa = |f: FileRowView|
        if s.at_path(f.id, a) {
            Some(s.tagged(f))
        } else {
            None
        };
    let fb = |f: FileRowView|
        if s.at_path(f.id, b) {
            Some(s.tagged(f))
        } else {
            None
        };
    lemma_filter_map_same(s.files, fa, fb);
}

/// A file at a path is at every path with the same tags.
pub proof fn lemma_at_path_one_way(s: StoreView, f: i64, a: Seq<TagTypeView>, b: Seq<TagTypeView>)
    requires
        same_names(regular_names(a), regular_names(b)),
        same_names(negated_names(a), negated_names(b)),
        crate::sql::model::last_group(a) == crate::sql::model::last_group(b),
        s.at_path(f, a),
    ensures
        s.at_path(f, b),
{
    let ra = regular_names(a);
    let rb = regular_names(b);
    let na = negated_names(a);
    let nb = negated_names(b);
    assert forall|i: int| 0 <= i < rb.len() implies s.carries(f, #[trigger] rb[i]) by {
        assert(ra.contains(rb[i]));
        let j = choose|j: int| 0 <= j < ra.len() && ra[j] == rb[i];
        assert(s.carries(f, ra[j]));
    }
    assert forall|i: int| 0 <= i < nb.len() implies !s.carries(f, #[trigger] nb[i]) by {
        assert(na.contains(nb[i]));
        let j = choose|j: int| 0 <= j < na.len() && na[j] == nb[i];
        assert(!s.carries(f, na[j]));
    }
    if ra.len() > 0 {
        assert(rb.contains(ra[0]));
    }
}

/// A filter that keeps every item changes nothing.
pub proof fn lemma_filter_all<T>(s: Seq<T>, keep: spec_fn(T) -> bool)
    requires
        forall|k: int| 0 <= k < s.len() ==> keep(#[trigger] s[k]),
    ensures
        s.filter(keep) == s,
    decreases s.len(),
{
    reveal(Seq::filter);
    if s.len() > 0 {
        let head = s.drop_last();
        assert(forall|k: int| 0 <= k < head.len() ==> head[k] == s[k]);
        lemma_filter_all(head, keep);
        assert(head.push(s.last()) =~= s);
    } else {
        assert(s.filter(keep) =~= s);
    }
}

/// Linking a file to a tag and then taking that link away gives back the
/// store as it was: where the two were not linked before, nothing is
/// left of the link.
pub proof fn law_link_then_unlink(
    s: StoreView,
    file_id: i64,
    tag_id: i64,
    uid: u32,
    gid: u32,
    permissions: Permissions,
    now: Micros,
)
    requires
        s.wf(),
        !linked(s.links, file_id, tag_id),
    ensures
        s.with_link(file_id, tag_id, uid, gid, permissions, now).without_links(
            Some(seq![file_id]),
            Some(seq![tag_id]),
        ) == s,
{
    let l = Link { file_id, tag_id, mtime: now, uid, gid, permissions };
    let s1 = s.with_link(file_id, tag_id, uid, gid, permissions, now);
    let keep = left(Some(seq![file_id]), Some(seq![tag_id]));
    assert(seq![file_id].contains(file_id)) by {
        assert(seq![file_id][0] == file_id);
    }
    assert(seq![tag_id].contains(tag_id)) by {
        assert(seq![tag_id][0] == tag_id);
    }
    assert(!keep(l));
    assert forall|k: int| 0 <= k < s.links.len() implies keep(#[trigger] s.links[k]) by {
        let x = s.links[k];
        if seq![file_id].contains(x.file_id) && seq![tag_id].contains(x.tag_id) {
            assert(x.file_id == file_id && x.tag_id == tag_id);
        }
    }
    lemma_filter_all(s.links, keep);
    reveal(Seq::filter);
    assert(s.links.push(l).drop_last() =~= s.links);
    assert(s1.links.filter(keep) == s.links);
    let s2 = s1.without_links(Some(seq![file_id]), Some(seq![tag_id]));
    assert(s2.tags =~= s.tags) by {
        assert forall|i: int| 0 <= i < s.tags.len() implies s2.tags[i] == s.tags[i] by {
            assert(s1.tags[i].id == s.tags[i].id);
        }
    }
}

/// Taking links away takes no other link: every link that the removal
/// does not name is still there, and no other.
pub proof fn law_unlink_takes_only_named(s: StoreView, fids: Option<Seq<i64>>, tids: Option<Seq<i64>>)
    ensures
        forall|l: Link|
            s.without_links(fids, tids).links.contains(l) <==> s.links.contains(l) && !taken(
                fids,
                tids,
            )(l),
{
    let keep = left(fids, tids);
    let at = lemma_filter_part(s.links, keep);
    let t = s.without_links(fids, tids).links;
    assert forall|l: Link| t.contains(l) <==> s.links.contains(l) && !taken(fids, tids)(l) by {
        if t.contains(l) {
            let i = choose|i: int| 0 <= i < t.len() && t[i] == l;
            assert(t[i] == s.links[at(i)]);
        }
        if s.links.contains(l) && !taken(fids, tids)(l) {
            let k = choose|k: int| 0 <= k < s.links.len() && s.links[k] == l;
            crate::sql::tables::lemma_filter_has(s.links, keep, k);
        }
    }
}

/// Every change of the store that succeeds and changes anything leaves
/// the store last changed at the time of the change: a later time than
/// that of the change before it.
pub proof fn law_changes_set_root_mtime(
    s: StoreView,
    name: Seq<char>,
    other: Seq<char>,
    tags: Seq<TagTypeView>,
    names: Seq<Seq<char>>,
    device: u64,
    inode: u64,
    uid: u32,
    gid: u32,
    permissions: Permissions,
    umask: crate::types::file_perms::UMask,
    now: Micros,
)
    ensures
        s.ensured_tag(name, uid, gid, permissions, now) is Ok ==> s.ensured_tag(
            name,
            uid,
            gid,
            permissions,
            now,
        )->Ok_0.root_mtime == now,
        s.ensured_group(name, uid, gid, permissions, now) is Ok ==> s.ensured_group(
            name,
            uid,
            gid,
            permissions,
            now,
        )->Ok_0.root_mtime == now,
        s.linked_to(device, inode, name, uid, gid, permissions, now) is Ok ==> s.linked_to(
            device,
            inode,
            name,
            uid,
            gid,
            permissions,
            now,
        )->Ok_0.root_mtime == now,
        s.added_file(device, inode, name, other, names, uid, gid, umask, now, None) is Ok
            ==> s.added_file(
            device,
            inode,
            name,
            other,
            names,
            uid,
            gid,
            umask,
            now,
            None,
        )->Ok_0.root_mtime == now,
        s.removed_devicefile(device, inode, names, now) is Ok ==> s.removed_devicefile(
            device,
            inode,
            names,
            now,
        )->Ok_0.root_mtime == now,
        s.removed_links(name, tags, now) == s || s.removed_links(name, tags, now).root_mtime == now,
        s.removed_from_intersection(name, tags, now) is Ok ==> s.removed_from_intersection(
            name,
            tags,
            now,
        )->Ok_0.root_mtime == now,
        s.group_removed_from_intersection(name, tags, now) is Ok
            ==> s.group_removed_from_intersection(name, tags, now)->Ok_0.root_mtime == now,
        s.without_tag(name).with_root(now).root_mtime == now,
        s.without_group(name).with_root(now).root_mtime == now,
        s.renamed_tag(name, other, now) is Ok ==> s.renamed_tag(name, other, now)->Ok_0.root_mtime
            == now,
        s.renamed_group(name, other, now) is Ok ==> s.renamed_group(
            name,
            other,
            now,
        )->Ok_0.root_mtime == now,
        s.renamed_file(device, inode, name, now).root_mtime == now,
        s.merged(name, tags, names, now) is Ok ==> s.merged(name, tags, names, now)->Ok_0.root_mtime
            == now,
        s.with_member(name, other, uid, gid, permissions, now).root_mtime == now,
        s.pinned_with(tags, uid, gid, permissions, now) is Ok ==> s.pinned_with(
            tags,
            uid,
            gid,
            permissions,
            now,
        )->Ok_0.root_mtime == now,
{
}

/// In a sorted table without `name`, the position of `name` is the one
/// position with only lesser names before it and only greater ones from
/// it on.
pub proof fn lemma_lower_len_is(names: Seq<Seq<char>>, name: Seq<char>, i: int)
    requires
        forall|a: int, b: int|
            0 <= a < b < names.len() ==> lex_lt(#[trigger] names[a], #[trigger] names[b]),
        !names.contains(name),
        0 <= i <= names.len(),
        forall|k: int| 0 <= k < i ==> lex_lt(#[trigger] names[k], name),
        forall|k: int| i <= k < names.len() ==> lex_lt(name, #[trigger] names[k]),
    ensures
        lower_len(names, name) == i,
{
    lemma_lower_len(names, name);
    let p = lower_len(names, name);
    if p < i {
        assert(lex_lt(names[p], name));
        assert(lex_lt(name, names[p]));
        lemma_lex_transitive(name, names[p], name);
        lemma_lex_irreflexive(name);
    } else if p > i {
        assert(lex_lt(names[i], name));
        assert(lex_lt(name, names[i]));
        lemma_lex_transitive(name, names[i], name);
        lemma_lex_irreflexive(name);
    }
}

/// Renaming a tag to a free name and back gives back the store as it
/// was, but for the times of the last change of the tag and of the store.
pub proof fn law_rename_round_trip(s: StoreView, a: Seq<char>, b: Seq<char>, now1: Micros, now2: Micros)
    requires
        s.wf(),
        s.tag_named(a) is Some,
        s.tag_named(b) is None,
    ensures
        s.renamed_tag(a, b, now1) is Ok,
        s.renamed_tag(a, b, now1)->Ok_0.renamed_tag(b, a, now2) is Ok,
        s.renamed_tag(a, b, now1)->Ok_0.renamed_tag(b, a, now2)->Ok_0 == s.touch_tag(
            a,
            now2,
        ).with_root(now2),
{
    let names = tag_names(s.tags);
    lemma_find_first(names, a);
    lemma_find_first(names, b);
    let i = find_first(names, a)->0;
    assert(names[i] == s.tags[i].name);
    assert(a != b);
    let rest = s.tags.remove(i);
    let rnames = tag_names(rest);
    assert(rnames =~= names.remove(i));
    let p1 = lower_len(rnames, b);
    let row_b = TagView { name: b, mtime: now1, ..s.tags[i] };
    let s1 = s.renamed_tag(a, b, now1)->Ok_0;
    crate::sql::remove::lemma_renamed_tag_wf(s, i, b, now1);
    assert(s1.wf());
    // the names of the other tags, in order, and without `a` and `b`
    assert forall|x: int, y: int| 0 <= x < y < rnames.len() implies lex_lt(
        #[trigger] rnames[x],
        #[trigger] rnames[y],
    ) by {
        let x0 = if x < i {
            x
        } else {
            x + 1
        };
        let y0 = if y < i {
            y
        } else {
            y + 1
        };
        assert(tag_rel()(s.tags[x0], s.tags[y0]));
        assert(names[x0] == s.tags[x0].name && names[y0] == s.tags[y0].name);
    }
    assert forall|k: int| 0 <= k < rnames.len() implies #[trigger] rnames[k] != a && rnames[k]
        != b by {
        let k0 = if k < i {
            k
        } else {
            k + 1
        };
        assert(names[k0] == s.tags[k0].name);
        if k0 < i {
            assert(tag_rel()(s.tags[k0], s.tags[i]));
        } else {
            assert(tag_rel()(s.tags[i], s.tags[k0]));
        }
        lemma_lex_irreflexive(a);
    }
    assert(!rnames.contains(a) && !rnames.contains(b));
    lemma_lower_len(rnames, b);
    // in the renamed store the tag stands at `p1` under the name `b`
    assert(s1.tags[p1] == row_b);
    lemma_tag_at(s1, p1);
    let names1 = tag_names(s1.tags);
    assert(names1 =~= rnames.insert(p1, b));
    assert(s1.tag_named(a) is None) by {
        lemma_find_first(names1, a);
        if find_first(names1, a) is Some {
            let k = find_first(names1, a)->0;
            if k < p1 {
                assert(names1[k] == rnames[k]);
            } else if k > p1 {
                assert(names1[k] == rnames[k - 1]);
            }
        }
    }
    let rest2 = s1.tags.remove(p1);
    assert(rest2 =~= rest);
    assert forall|k: int| 0 <= k < i implies lex_lt(#[trigger] rnames[k], a) by {
        assert(tag_rel()(s.tags[k], s.tags[i]));
        assert(names[k] == s.tags[k].name);
    }
    assert forall|k: int| i <= k < rnames.len() implies lex_lt(a, #[trigger] rnames[k]) by {
        assert(tag_rel()(s.tags[i], s.tags[k + 1]));
        assert(names[k + 1] == s.tags[k + 1].name);
    }
    lemma_lower_len_is(rnames, a, i);
    let row_a = TagView { name: a, mtime: now2, ..row_b };
    assert(rest.insert(i, row_a) =~= s.tags.update(i, TagView { mtime: now2, ..s.tags[i] }));
}

/// Making a tag that did not exist and removing it again gives back the
/// store as it was, but for the time of its last change.
pub proof fn law_make_then_remove_tag(
    s: StoreView,
    name: Seq<char>,
    uid: u32,
    gid: u32,
    permissions: Permissions,
    now1: Micros,
    now2: Micros,
)
    requires
        s.wf(),
        s.tag_named(name) is None,
        s.next_tag_id() <= i64::MAX,
    ensures
        s.ensured_tag(name, uid, gid, permissions, now1) is Ok,
        s.ensured_tag(name, uid, gid, permissions, now1)->Ok_0.without_tag(name).with_root(now2)
            == s.with_root(now2),
{
    let s1 = s.ensured_tag(name, uid, gid, permissions, now1)->Ok_0;
    crate::sql::mutate::lemma_new_tag_wf(s, name, uid, gid, permissions, now1);
    assert(s1.wf());
    let p = lower_len(tag_names(s.tags), name);
    let ids = tag_ids(s.tags);
    lemma_max_id(ids);
    lemma_find_first(tag_names(s.tags), name);
    assert forall|a: int, b: int| 0 <= a < b < tag_names(s.tags).len() implies lex_lt_names(
        tag_names(s.tags),
        a,
        b,
    ) by {
        assert(tag_rel()(s.tags[a], s.tags[b]));
    }
    lemma_lower_len(tag_names(s.tags), name);
    let id = s1.tags[p].id;
    assert(s1.tags[p].name == name);
    lemma_tag_at(s1, p);
    assert(seq![id].contains(id)) by {
        assert(seq![id][0] == id);
    }
    // nothing of the old store refers to the new tag
    assert forall|x: i64| ids.contains(x) implies x != id by {
        let k = choose|k: int| 0 <= k < ids.len() && ids[k] == x;
        assert(ids[k] <= max_id(ids));
    }
    assert forall|k: int| 0 <= k < s1.links.len() implies left(None, Some(seq![id]))(
        #[trigger] s1.links[k],
    ) by {
        assert(ids.contains(s.links[k].tag_id));
        if seq![id].contains(s.links[k].tag_id) {
            assert(s.links[k].tag_id == id);
        }
    }
    lemma_filter_all(s1.links, left(None, Some(seq![id])));
    let unlinked = s1.without_links(None, Some(seq![id]));
    crate::sql::mutate::lemma_recount_same(s1);
    assert(unlinked == s1);
    assert forall|k: int| 0 <= k < s1.members.len() implies member_left(None, Some(seq![id]))(
        #[trigger] s1.members[k],
    ) by {
        assert(ids.contains(s.members[k].tag_id));
        if seq![id].contains(s.members[k].tag_id) {
            assert(s.members[k].tag_id == id);
        }
    }
    lemma_filter_all(s1.members, member_left(None, Some(seq![id])));
    assert forall|k: int| 0 <= k < s1.pins.len() implies pin_left(PinId::Tag(id))(
        #[trigger] s1.pins[k],
    ) by {
        if s1.pins[k].contains(PinId::Tag(id)) {
            let j = choose|j: int| 0 <= j < s1.pins[k].len() && s1.pins[k][j] == PinId::Tag(id);
            assert(crate::sql::model::step_exists(s.pins[k][j], s.tags, s.groups));
        }
    }
    lemma_filter_all(s1.pins, pin_left(PinId::Tag(id)));
    assert(s1.tags.remove(p) =~= s.tags);
}

/// Making a tag group that did not exist and removing it again gives
/// back the store as it was, but for the time of its last change.
pub proof fn law_make_then_remove_group(
    s: StoreView,
    name: Seq<char>,
    uid: u32,
    gid: u32,
    permissions: Permissions,
    now1: Micros,
    now2: Micros,
)
    requires
        s.wf(),
        s.group_named(name) is None,
        s.next_group_id() <= i64::MAX,
    ensures
        s.ensured_group(name, uid, gid, permissions, now1) is Ok,
        s.ensured_group(name, uid, gid, permissions, now1)->Ok_0.without_group(name).with_root(
            now2,
        ) == s.with_root(now2),
{
    let s1 = s.ensured_group(name, uid, gid, permissions, now1)->Ok_0;
    crate::sql::mutate::lemma_new_group_wf(s, name, uid, gid, permissions, now1);
    assert(s1.wf());
    let names = crate::sql::model::group_names(s.groups);
    let p = lower_len(names, name);
    let ids = crate::sql::model::group_ids(s.groups);
    lemma_max_id(ids);
    lemma_find_first(names, name);
    assert forall|a: int, b: int| 0 <= a < b < names.len() implies lex_lt_names(names, a, b) by {
        assert(crate::sql::model::group_rel()(s.groups[a], s.groups[b]));
    }
    lemma_lower_len(names, name);
    let id = s1.groups[p].id;
    assert(s1.groups[p].name == name);
    crate::sql::mutate::lemma_group_at(s1, p);
    assert(seq![id].contains(id)) by {
        assert(seq![id][0] == id);
    }
    assert forall|x: i64| ids.contains(x) implies x != id by {
        let k = choose|k: int| 0 <= k < ids.len() && ids[k] == x;
        assert(ids[k] <= max_id(ids));
    }
    assert forall|k: int| 0 <= k < s1.members.len() implies member_left(Some(seq![id]), None)(
        #[trigger] s1.members[k],
    ) by {
        assert(ids.contains(s.members[k].tg_id));
        if seq![id].contains(s.members[k].tg_id) {
            assert(s.members[k].tg_id == id);
        }
    }
    lemma_filter_all(s1.members, member_left(Some(seq![id]), None));
    assert forall|k: int| 0 <= k < s1.pins.len() implies pin_left(PinId::Group(id))(
        #[trigger] s1.pins[k],
    ) by {
        if s1.pins[k].contains(PinId::Group(id)) {
            let j = choose|j: int| 0 <= j < s1.pins[k].len() && s1.pins[k][j] == PinId::Group(id);
            assert(crate::sql::model::step_exists(s.pins[k][j], s.tags, s.groups));
        }
    }
    lemma_filter_all(s1.pins, pin_left(PinId::Group(id)));
    assert(s1.groups.remove(p) =~= s.groups);
}

/// A link more is counted by its tag and by no other.
pub proof fn lemma_count_pushed(links: Seq<Link>, l: Link, x: i64)
    ensures
        count_links(links.push(l), x) == count_links(links, x) + (if l.tag_id == x {
            1int
        } else {
            0int
        }),
{
    reveal(Seq::filter);
    assert(links.push(l).drop_last() =~= links);
}

/// Touching a tag changes the time of its last change and nothing else
/// of the tags: ids, names and counts stay.
pub proof fn lemma_touch_keeps(s: StoreView, name: Seq<char>, now: Micros)
    ensures
        s.touch_tag(name, now).tags.len() == s.tags.len(),
        forall|i: int|
            0 <= i < s.tags.len() ==> (#[trigger] s.touch_tag(name, now).tags[i]).id
                == s.tags[i].id && s.touch_tag(name, now).tags[i].name == s.tags[i].name
                && s.touch_tag(name, now).tags[i].num_files == s.tags[i].num_files,
        tag_names(s.touch_tag(name, now).tags) == tag_names(s.tags),
        s.touch_tag(name, now).links == s.links,
        s.touch_tag(name, now).files == s.files,
{
    lemma_find_first(tag_names(s.tags), name);
    assert(tag_names(s.touch_tag(name, now).tags) =~= tag_names(s.tags));
}

/// Linking a file to a tag puts the pair among the links, once: where
/// the two were linked already the links stay as they are; else there is
/// one link more, which the tag counts and no other tag does. After it
/// every tag counts its links, and linking the two again changes no
/// link.
pub proof fn law_link_is_counted_once(
    s: StoreView,
    device: u64,
    inode: u64,
    tag: Seq<char>,
    uid: u32,
    gid: u32,
    permissions: Permissions,
    now: Micros,
    x: i64,
)
    requires
        s.wf(),
        s.linked_to(device, inode, tag, uid, gid, permissions, now) is Ok,
    ensures
        ({
            let f = s.file_at(device, inode)->0;
            let t = s.tag_named(tag)->0;
            let was = linked(s.links, f.id, t.id);
            let s1 = s.linked_to(device, inode, tag, uid, gid, permissions, now)->Ok_0;
            &&& s.file_at(device, inode) is Some
            &&& s.tag_named(tag) is Some
            &&& s1.links == (if was {
                s.links
            } else {
                s.links.push(
                    Link { file_id: f.id, tag_id: t.id, mtime: now, uid, gid, permissions },
                )
            })
            &&& linked(s1.links, f.id, t.id)
            &&& count_links(s1.links, x) == count_links(s.links, x) + (if !was && x == t.id {
                1int
            } else {
                0int
            })
            &&& s1.tags.len() == s.tags.len()
            &&& forall|i: int|
                0 <= i < s1.tags.len() ==> (#[trigger] s1.tags[i]).id == s.tags[i].id
                    && s1.tags[i].num_files == count_links(s1.links, s1.tags[i].id)
            &&& s1.linked_to(device, inode, tag, uid, gid, permissions, now) is Ok
            &&& s1.linked_to(device, inode, tag, uid, gid, permissions, now)->Ok_0.links
                == s1.links
        }),
{
    let f = s.file_at(device, inode)->0;
    let t = s.tag_named(tag)->0;
    let was = linked(s.links, f.id, t.id);
    let s1 = s.linked_to(device, inode, tag, uid, gid, permissions, now)->Ok_0;
    let l = Link { file_id: f.id, tag_id: t.id, mtime: now, uid, gid, permissions };
    lemma_find_first(tag_names(s.tags), tag);
    if was {
        lemma_touch_keeps(s, tag, now);
        assert forall|i: int| 0 <= i < s1.tags.len() implies (#[trigger] s1.tags[i]).id
            == s.tags[i].id && s1.tags[i].num_files == count_links(s1.links, s1.tags[i].id) by {
            assert(s.tags[i].num_files == count_links(s.links, s.tags[i].id));
        }
        assert(tag_names(s1.tags) == tag_names(s.tags));
        assert(s1.tag_named(tag) is Some && s1.tag_named(tag)->0.id == t.id);
    } else {
        let linked_store = s.with_link(f.id, t.id, uid, gid, permissions, now);
        lemma_touch_keeps(linked_store, tag, now);
        lemma_count_pushed(s.links, l, x);
        assert(s1.links == s.links.push(l));
        assert(s1.links[s.links.len() as int] == l);
        assert forall|i: int| 0 <= i < s1.tags.len() implies (#[trigger] s1.tags[i]).id
            == s.tags[i].id && s1.tags[i].num_files == count_links(s1.links, s1.tags[i].id) by {
            assert(linked_store.tags[i].id == s.tags[i].id);
            assert(linked_store.tags[i].num_files == count_links(linked_store.links, s.tags[i].id));
        }
        assert(tag_names(linked_store.tags) =~= tag_names(s.tags));
        assert(tag_names(s1.tags) == tag_names(s.tags));
        let p = find_first(tag_names(s.tags), tag)->0;
        assert(s1.tags[p].id == s.tags[p].id);
        assert(s1.tag_named(tag) is Some && s1.tag_named(tag)->0.id == t.id);
    }
    assert(s1.files == s.files);
    assert(s1.file_at(device, inode) == s.file_at(device, inode));
    assert(linked(s1.links, f.id, t.id));
}

/// Whether every tag counts its links, of which there are no more than
/// a count can hold.
pub open spec fn counts_hold(s: StoreView) -> bool {
    crate::sql::model::counted(s.tags, s.links) && s.links.len() <= i64::MAX
}

/// Counting again makes every tag count its links.
pub proof fn lemma_recount_counts(s: StoreView)
    requires
        s.links.len() <= i64::MAX,
    ensures
        counts_hold(s.recount()),
{
    let r = s.recount();
    assert forall|i: int| 0 <= i < r.tags.len() implies (#[trigger] r.tags[i]).num_files
        == count_links(r.links, r.tags[i].id) by {
        crate::sql::tables::lemma_filter_len(s.links, |l: Link| l.tag_id == s.tags[i].id);
    }
}

/// Linking files to a tag leaves every tag counting its links.
pub proof fn lemma_links_of_keep_counts(
    s: StoreView,
    files: Seq<crate::sql::types::TaggedFileView>,
    tag_id: i64,
    now: Micros,
)
    requires
        counts_hold(s),
        s.with_links_of(files, tag_id, now) is Ok,
    ensures
        counts_hold(s.with_links_of(files, tag_id, now)->Ok_0),
    decreases files.len(),
{
    if files.len() > 0 {
        lemma_links_of_keep_counts(s, files.drop_last(), tag_id, now);
        let mid = s.with_links_of(files.drop_last(), tag_id, now)->Ok_0;
        let f = files.last();
        if !(linked(mid.links, f.id, tag_id) || !crate::sql::model::file_ids(mid.files).contains(
            f.id,
        ) || !tag_ids(mid.tags).contains(tag_id)) {
            lemma_recount_counts(
                StoreView {
                    links: mid.links.push(
                        Link {
                            file_id: f.id,
                            tag_id,
                            mtime: now,
                            uid: f.uid,
                            gid: f.gid,
                            permissions: f.permissions,
                        },
                    ),
                    ..mid
                },
            );
        }
    }
}

/// Linking files to each of the named tags leaves every tag counting its
/// links.
pub proof fn lemma_merged_into_keeps_counts(
    s: StoreView,
    files: Seq<crate::sql::types::TaggedFileView>,
    dst: Seq<Seq<char>>,
    now: Micros,
)
    requires
        counts_hold(s),
        s.merged_into(files, dst, now) is Ok,
    ensures
        counts_hold(s.merged_into(files, dst, now)->Ok_0),
    decreases dst.len(),
{
    if dst.len() > 0 {
        lemma_merged_into_keeps_counts(s, files, dst.drop_last(), now);
        let mid = s.merged_into(files, dst.drop_last(), now)->Ok_0;
        match mid.tag_named(dst.last()) {
            Some(t) => {
                lemma_links_of_keep_counts(mid, files, t.id, now);
                let linked_store = mid.with_links_of(files, t.id, now)->Ok_0;
                lemma_touch_keeps(linked_store, dst.last(), now);
            },
            None => {},
        }
    }
}

/// After a merge every tag counts its links: the tags that gained files,
/// the tag that lost them, and all others.
pub proof fn law_merge_keeps_counts(
    s: StoreView,
    src_tag: Seq<char>,
    src_tags: Seq<TagTypeView>,
    dst_tags: Seq<Seq<char>>,
    now: Micros,
)
    requires
        s.wf(),
        s.merged(src_tag, src_tags, dst_tags, now) is Ok,
    ensures
        counts_hold(s.merged(src_tag, src_tags, dst_tags, now)->Ok_0),
{
    let t = s.tag_named(src_tag)->0;
    let fids = Some(crate::sql::ops::ids_of_files(s.files_at(src_tags)));
    let kept = StoreView { links: s.links.filter(left(fids, Some(seq![t.id]))), ..s };
    crate::sql::tables::lemma_filter_len(s.links, left(fids, Some(seq![t.id])));
    lemma_recount_counts(kept);
    let cut = s.removed_from_intersection(src_tag, src_tags, now)->Ok_0;
    assert(counts_hold(cut));
    lemma_merged_into_keeps_counts(cut, s.files_at(src_tags), dst_tags, now);
}

/// Adding a file that the store knows under a tag that exists, and then
/// removing it from that tag by its device and inode, gives back the
/// links as they were, and every tag keeps its id, its name and its
/// count. The file had no link to the tag before.
pub proof fn law_add_then_remove_devicefile(
    s: StoreView,
    device: u64,
    inode: u64,
    path: Seq<char>,
    primary_tag: Seq<char>,
    tag: Seq<char>,
    uid: u32,
    gid: u32,
    umask: crate::types::file_perms::UMask,
    now1: Micros,
    now2: Micros,
)
    requires
        s.wf(),
        s.file_at(device, inode) is Some,
        s.tag_named(tag) is Some,
        !linked(s.links, s.file_at(device, inode)->0.id, s.tag_named(tag)->0.id),
        s.links.len() < i64::MAX,
    ensures
        ({
            let added = s.added_file(
                device,
                inode,
                path,
                primary_tag,
                seq![tag],
                uid,
                gid,
                umask,
                now1,
                None,
            );
            let removed = added->Ok_0.removed_devicefile(device, inode, seq![tag], now2);
            &&& added is Ok
            &&& linked(added->Ok_0.links, s.file_at(device, inode)->0.id, s.tag_named(tag)->0.id)
            &&& removed is Ok
            &&& removed->Ok_0.links == s.links
            &&& removed->Ok_0.files == s.files
            &&& removed->Ok_0.tags.len() == s.tags.len()
            &&& forall|i: int|
                0 <= i < s.tags.len() ==> (#[trigger] removed->Ok_0.tags[i]).id == s.tags[i].id
                    && removed->Ok_0.tags[i].name == s.tags[i].name
                    && removed->Ok_0.tags[i].num_files == s.tags[i].num_files
        }),
{
    let f = s.file_at(device, inode)->0;
    let t = s.tag_named(tag)->0;
    let dir_perms = crate::types::file_perms::perms_of((0o777u32 & !umask.0) as nat);
    let file_perms = crate::types::file_perms::perms_of((0o666u32 & !umask.0) as nat);
    let names = seq![tag];
    assert(names.drop_last() =~= Seq::<Seq<char>>::empty());
    assert(names.last() == tag);
    // the tag is made sure of
    let s2 = s.touch_tag(tag, now1).with_root(now1);
    assert(s.ensured_tag(tag, uid, gid, dir_perms, now1) == Ok::<StoreView, crate::err::StoreError>(
        s2,
    ));
    lemma_touch_keeps(s, tag, now1);
    lemma_find_first(tag_names(s.tags), tag);
    let p = find_first(tag_names(s.tags), tag)->0;
    assert(s2.tags[p].id == t.id);
    assert(s2.tag_named(tag) is Some && s2.tag_named(tag)->0.id == t.id);
    assert(s2.file_at(device, inode) == Some(f));
    // and linked
    let l = Link { file_id: f.id, tag_id: t.id, mtime: now1, uid, gid, permissions: file_perms };
    let s3 = s2.with_link(f.id, t.id, uid, gid, file_perms, now1);
    lemma_touch_keeps(s3, tag, now1);
    let s4 = s3.touch_tag(tag, now1).with_root(now1);
    assert(s2.linked_to(device, inode, tag, uid, gid, file_perms, now1) == Ok::<
        StoreView,
        crate::err::StoreError,
    >(s4));
    let added = s.added_file(device, inode, path, primary_tag, names, uid, gid, umask, now1, None);
    assert(s.linked_all(device, inode, names.drop_last(), uid, gid, umask, now1) == Ok::<
        StoreView,
        crate::err::StoreError,
    >(s));
    assert(added == Ok::<StoreView, crate::err::StoreError>(s4.with_root(now1)));
    let s5 = s4.with_root(now1);
    assert(s5.links == s.links.push(l));
    assert(s5.links[s.links.len() as int] == l);
    // the removal finds the file and the tag
    assert(tag_names(s3.tags) =~= tag_names(s.tags));
    assert(tag_names(s5.tags) == tag_names(s.tags));
    assert(s5.tags[p].id == t.id);
    assert(s5.tag_named(tag) is Some && s5.tag_named(tag)->0.id == t.id);
    assert(s5.file_at(device, inode) == Some(f));
    let pick = |n: Seq<char>|
        match s5.tag_named(n) {
            Some(x) => Some(x.id),
            None => None,
        };
    assert(names.drop_last().filter_map(pick) =~= Seq::<i64>::empty());
    assert(s5.ids_of_names(names) =~= seq![t.id]);
    let keep = left(Some(seq![f.id]), Some(seq![t.id]));
    assert(seq![f.id].contains(f.id)) by {
        assert(seq![f.id][0] == f.id);
    }
    assert(seq![t.id].contains(t.id)) by {
        assert(seq![t.id][0] == t.id);
    }
    assert(!keep(l));
    assert forall|k: int| 0 <= k < s.links.len() implies keep(#[trigger] s.links[k]) by {
        let x = s.links[k];
        if seq![f.id].contains(x.file_id) && seq![t.id].contains(x.tag_id) {
            assert(x.file_id == f.id && x.tag_id == t.id);
        }
    }
    lemma_filter_all(s.links, keep);
    reveal(Seq::filter);
    assert(s.links.push(l).drop_last() =~= s.links);
    assert(s5.links.filter(keep) == s.links);
    let removed = s5.removed_devicefile(device, inode, names, now2)->Ok_0;
    assert(removed.links == s.links);
    assert forall|i: int| 0 <= i < s.tags.len() implies (#[trigger] removed.tags[i]).id
        == s.tags[i].id && removed.tags[i].name == s.tags[i].name && removed.tags[i].num_files
        == s.tags[i].num_files by {
        assert(s3.tags[i].id == s.tags[i].id && s3.tags[i].name == s.tags[i].name);
        assert(s5.tags[i].id == s.tags[i].id && s5.tags[i].name == s.tags[i].name);
        assert(s.tags[i].num_files == count_links(s.links, s.tags[i].id));
        crate::sql::tables::lemma_filter_len(s.links, |x: Link| x.tag_id == s.tags[i].id);
    }
}

} // verus!
