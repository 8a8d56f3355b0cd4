//! The names under which a directory lists its entries, and when no two
//! of them are the same.

use crate::common::{ext_of, ext_prefix_set, stem_of, with_ext};
use crate::constants::{DB_FILE_NAME, STAG_ROOT_CONF_PATH, UNLINK_CANARY};
use crate::fuse::fs::getattr::named_files;
use crate::fuse::fs::readdir::{
    common_listing, either_entry, file_dir_listing, ids_of_groups, ids_of_tags, listed_groups,
    listed_name, listed_pins, listed_tags, listing, root_filedir, root_listing, tag_dir_listing,
};
use crate::fuse::laws::{lemma_filter_map_part, lemma_listed_pins, lemma_tags_below_distinct};
use crate::num::{digits_of, is_digit, lemma_digits_round_trip};
use crate::path::components;
use crate::settings::{inodified, path_tags, SymbolsView};
use crate::sql::model::{file_rel, group_rel, tag_rel, FileRowView, GroupRowView, StoreView};
use crate::sql::tables::{lemma_filter_has, lemma_filter_part};
use crate::sql::types::{
    group_entry, tag_entry, FileEntryView, TagGroupView, TagOrTagGroupView, TagView,
    TaggedFileView,
};
use crate::text::{last_index_of, lemma_last_index_of, lemma_lex_irreflexive};
use crate::types::TagTypeView;
use vstd::prelude::*;

verus! {

/// A name is its stem and its extension put together.
pub proof fn lemma_stem_and_ext(name: Seq<char>)
    ensures
        with_ext(stem_of(name), ext_of(name)) == name,
{
    lemma_last_index_of(name, '.');
    match last_index_of(name, '.') {
        Some(i) => {
            assert(name.take(i) + seq!['.'] + name.skip(i + 1) =~= name);
        },
        None => {},
    }
}

/// A marker without a dot, put before the extension of a name, leaves
/// the extension as it is and stands at the end of the stem.
pub proof fn lemma_marked_parts(name: Seq<char>, marker: Seq<char>)
    requires
        !marker.contains('.'),
    ensures
        stem_of(ext_prefix_set(name, marker)) == stem_of(name) + marker,
        ext_of(ext_prefix_set(name, marker)) == ext_of(name),
{
    let marked = ext_prefix_set(name, marker);
    lemma_last_index_of(name, '.');
    lemma_last_index_of(marked, '.');
    assert forall|k: int| 0 <= k < marker.len() implies marker[k] != '.' by {
        if marker[k] == '.' {
            assert(marker.contains('.'));
        }
    }
    match last_index_of(name, '.') {
        Some(i) => {
            let at = i + marker.len();
            assert(marked =~= name.take(i) + marker + seq!['.'] + name.skip(i + 1));
            assert(marked[at] == '.');
            assert forall|k: int| at < k < marked.len() implies marked[k] != '.' by {
                assert(marked[k] == name[k - marker.len()]);
            }
            assert(last_index_of(marked, '.') == Some(at));
            assert(marked.take(at) =~= name.take(i) + marker);
            assert(marked.skip(at + 1) =~= name.skip(i + 1));
        },
        None => {
            assert(marked =~= name + marker);
            assert forall|k: int| 0 <= k < marked.len() implies marked[k] != '.' by {
                if k < name.len() {
                    assert(marked[k] == name[k]);
                } else {
                    assert(marked[k] == marker[k - name.len()]);
                }
            }
            assert(last_index_of(marked, '.') is None);
        },
    }
}

/// Two names differ with the marker as they differ without it, where the
/// marker holds no dot.
pub proof fn lemma_marked_names_differ(a: Seq<char>, b: Seq<char>, marker: Seq<char>)
    requires
        !marker.contains('.'),
        a != b,
    ensures
        ext_prefix_set(a, marker) != ext_prefix_set(b, marker),
{
    if ext_prefix_set(a, marker) == ext_prefix_set(b, marker) {
        lemma_marked_parts(a, marker);
        lemma_marked_parts(b, marker);
        let sa = stem_of(a);
        let sb = stem_of(b);
        assert(sa + marker == sb + marker);
        assert(sa.len() == sb.len());
        assert(sa =~= (sa + marker).take(sa.len() as int));
        assert(sb =~= (sb + marker).take(sb.len() as int));
        lemma_stem_and_ext(a);
        lemma_stem_and_ext(b);
    }
}

/// Whether the device character and the inode character can be told from
/// digits and from each other.
pub open spec fn marks_differ(syms: SymbolsView) -> bool {
    !is_digit(syms.device_char, 10) && !is_digit(syms.inode_char, 10) && syms.device_char
        != syms.inode_char
}

/// The numbers that stand behind a name: the device, the inode character,
/// the inode.
pub open spec fn numbers_tail(device: u64, inode: u64, syms: SymbolsView) -> Seq<char> {
    digits_of(device as nat, 10) + seq![syms.inode_char] + digits_of(inode as nat, 10)
}

/// Equal texts of device and inode are texts of the same device and
/// inode.
pub proof fn lemma_numbers_differ(d1: u64, i1: u64, d2: u64, i2: u64, syms: SymbolsView)
    requires
        marks_differ(syms),
        numbers_tail(d1, i1, syms) == numbers_tail(d2, i2, syms),
    ensures
        d1 == d2,
        i1 == i2,
{
    let a = digits_of(d1 as nat, 10);
    let b = digits_of(i1 as nat, 10);
    let c = digits_of(d2 as nat, 10);
    let e = digits_of(i2 as nat, 10);
    lemma_digits_round_trip(d1 as nat, 10);
    lemma_digits_round_trip(i1 as nat, 10);
    lemma_digits_round_trip(d2 as nat, 10);
    lemma_digits_round_trip(i2 as nat, 10);
    let x = numbers_tail(d1, i1, syms);
    let y = numbers_tail(d2, i2, syms);
    assert(x[a.len() as int] == syms.inode_char);
    assert(y[c.len() as int] == syms.inode_char);
    if a.len() < c.len() {
        assert(y[a.len() as int] == c[a.len() as int]);
        assert(is_digit(c[a.len() as int], 10));
    } else if c.len() < a.len() {
        assert(x[c.len() as int] == a[c.len() as int]);
        assert(is_digit(a[c.len() as int], 10));
    }
    assert(a =~= x.take(a.len() as int));
    assert(c =~= y.take(c.len() as int));
    assert(b =~= x.skip(a.len() as int + 1));
    assert(e =~= y.skip(c.len() as int + 1));
}

/// Every character of the text of device and inode is a digit or the
/// inode character.
pub proof fn lemma_numbers_chars(device: u64, inode: u64, syms: SymbolsView, k: int)
    requires
        0 <= k < numbers_tail(device, inode, syms).len(),
    ensures
        is_digit(numbers_tail(device, inode, syms)[k], 10) || numbers_tail(device, inode, syms)[k]
            == syms.inode_char,
        is_digit(numbers_tail(device, inode, syms).last(), 10),
{
    let a = digits_of(device as nat, 10);
    let b = digits_of(inode as nat, 10);
    lemma_digits_round_trip(device as nat, 10);
    lemma_digits_round_trip(inode as nat, 10);
    let x = numbers_tail(device, inode, syms);
    if k < a.len() {
        assert(x[k] == a[k]);
    } else if k > a.len() {
        assert(x[k] == b[k - a.len() - 1]);
    }
    assert(x.last() == b[b.len() - 1]);
}

/// Names with device and inode attached are the same only for the same
/// name, device and inode.
pub proof fn lemma_qualified_names_differ(
    p: Seq<char>,
    d1: u64,
    i1: u64,
    q: Seq<char>,
    d2: u64,
    i2: u64,
    syms: SymbolsView,
)
    requires
        marks_differ(syms),
        inodified(p, d1, i1, syms) == inodified(q, d2, i2, syms),
    ensures
        p == q,
        d1 == d2,
        i1 == i2,
{
    let x = numbers_tail(d1, i1, syms);
    let y = numbers_tail(d2, i2, syms);
    let whole = inodified(p, d1, i1, syms);
    let other = inodified(q, d2, i2, syms);
    assert(whole =~= p + seq![syms.device_char] + x);
    assert(other =~= q + seq![syms.device_char] + y);
    assert(whole[p.len() as int] == syms.device_char);
    assert(other[q.len() as int] == syms.device_char);
    if p.len() < q.len() {
        let k = q.len() - p.len() - 1;
        assert(whole[q.len() as int] == x[k]);
        lemma_numbers_chars(d1, i1, syms, k);
    } else if q.len() < p.len() {
        let k = p.len() - q.len() - 1;
        assert(other[p.len() as int] == y[k]);
        lemma_numbers_chars(d2, i2, syms, k);
    }
    assert(p =~= whole.take(p.len() as int));
    assert(q =~= other.take(q.len() as int));
    assert(x =~= whole.skip(p.len() as int + 1));
    assert(y =~= other.skip(q.len() as int + 1));
    lemma_numbers_differ(d1, i1, d2, i2, syms);
}

/// The names of the entries.
pub open spec fn entry_names(es: Seq<FileEntryView>) -> Seq<Seq<char>> {
    es.map_values(|e: FileEntryView| e.name)
}

/// Whether the name is one that directories list of themselves: `.`,
/// `..` or the file directory.
pub open spec fn fixed_name(name: Seq<char>, syms: SymbolsView) -> bool {
    name == "."@ || name == ".."@ || name == syms.filedir_str
}

/// Whether the symbols keep names apart: the group marker holds no dot,
/// the device and inode characters can be told from digits and from each
/// other, and the file directory has none of the names that directories
/// list of themselves.
pub open spec fn symbols_tell_apart(syms: SymbolsView) -> bool {
    &&& !syms.tag_group_str.contains('.')
    &&& marks_differ(syms)
    &&& syms.filedir_str != "."@
    &&& syms.filedir_str != ".."@
    &&& syms.filedir_str != DB_FILE_NAME@
}

/// Whether the names of the tags and tag groups are clear of each other:
/// no tag and no tag group is listed under a name that directories list
/// of themselves, and no tag under the name under which a tag group is
/// listed.
pub open spec fn names_clear(s: StoreView, syms: SymbolsView) -> bool {
    &&& forall|i: int| 0 <= i < s.tags.len() ==> !fixed_name((#[trigger] s.tags[i]).name, syms)
    &&& forall|i: int|
        0 <= i < s.groups.len() ==> !fixed_name(
            ext_prefix_set((#[trigger] s.groups[i]).name, syms.tag_group_str),
            syms,
        )
    &&& forall|i: int, j: int|
        0 <= i < s.tags.len() && 0 <= j < s.groups.len() ==> (#[trigger] s.tags[i]).name
            != ext_prefix_set((#[trigger] s.groups[j]).name, syms.tag_group_str)
}

/// Whether the names of the files are clear of each other: none is
/// listed as `.`, `..` or the canary, and none that is listed under its
/// plain name has the name under which another is listed with device and
/// inode.
pub open spec fn file_names_clear(files: Seq<TaggedFileView>, syms: SymbolsView) -> bool {
    &&& forall|i: int|
        0 <= i < files.len() ==> {
            let n = listed_name(files, #[trigger] files[i], syms);
            n != "."@ && n != ".."@ && n != UNLINK_CANARY@
        }
    &&& forall|i: int, j: int|
        0 <= i < files.len() && 0 <= j < files.len() && named_files(
            files,
            files[i].primary_tag,
        ).len() <= 1 && named_files(files, files[j].primary_tag).len() > 1 ==> (
        #[trigger] files[i]).primary_tag != inodified(
            (#[trigger] files[j]).primary_tag,
            files[j].device,
            files[j].inode,
            syms,
        )
}

/// Whether the directory at the path lists files.
pub open spec fn lists_files(syms: SymbolsView, path: Seq<char>) -> bool {
    let tags = path_tags(path, syms);
    tags.len() > 0 && components(path) != components(STAG_ROOT_CONF_PATH@) && components(path)
        != root_filedir(syms) && tags.last() is FileDir
}

/// Two files at a path differ in device or inode.
pub proof fn lemma_files_at_differ(s: StoreView, tags: Seq<TagTypeView>, i: int, j: int)
    requires
        s.wf(),
        0 <= i < j < s.files_at(tags).len(),
    ensures
        s.files_at(tags)[i].device != s.files_at(tags)[j].device || s.files_at(tags)[i].inode
            != s.files_at(tags)[j].inode,
{
    let f = |f: FileRowView|
        if s.at_path(f.id, tags) {
            Some(s.tagged(f))
        } else {
            None
        };
    let at = lemma_filter_map_part(s.files, f);
    let files = s.files_at(tags);
    assert(f(s.files[at(i)]) == Some(files[i]));
    assert(f(s.files[at(j)]) == Some(files[j]));
    assert(at(i) < at(j));
    assert(file_rel()(s.files[at(i)], s.files[at(j)]));
}

/// Of two different files of one name, both are among the files of that
/// name.
pub proof fn lemma_two_of_a_name(files: Seq<TaggedFileView>, i: int, j: int)
    requires
        0 <= i < files.len(),
        0 <= j < files.len(),
        files[i] != files[j],
        files[i].primary_tag == files[j].primary_tag,
    ensures
        named_files(files, files[i].primary_tag).len() > 1,
{
    let name = files[i].primary_tag;
    let keep = |f: TaggedFileView| f.primary_tag == name;
    lemma_filter_has(files, keep, i);
    lemma_filter_has(files, keep, j);
    let t = files.filter(keep);
    let a = choose|a: int| 0 <= a < t.len() && t[a] == files[i];
    let b = choose|b: int| 0 <= b < t.len() && t[b] == files[j];
    assert(a != b);
}

/// A file directory lists no name twice, where the names of its files
/// are clear of each other.
pub proof fn lemma_file_names_differ(s: StoreView, syms: SymbolsView, tags: Seq<TagTypeView>)
    requires
        s.wf(),
        marks_differ(syms),
        file_names_clear(s.files_at(tags), syms),
    ensures
        (seq!["."@, ".."@] + entry_names(file_dir_listing(s, syms, tags))).no_duplicates(),
{
    reveal_strlit(".");
    reveal_strlit("..");
    reveal_strlit(".unlink_canary");
    let files = s.files_at(tags);
    let names = seq!["."@, ".."@] + entry_names(file_dir_listing(s, syms, tags));
    assert("."@.len() == 1 && ".."@.len() == 2 && UNLINK_CANARY@.len() == 14);
    assert(names.len() == files.len() + 3);
    assert(names[0] == "."@ && names[1] == ".."@ && names[2] == UNLINK_CANARY@);
    assert forall|k: int| 0 <= k < files.len() implies #[trigger] names[k + 3] == listed_name(
        files,
        files[k],
        syms,
    ) by {
        assert(names[k + 3] == entry_names(file_dir_listing(s, syms, tags))[k + 1]);
    }
    assert forall|a: int, b: int| 0 <= a < names.len() && 0 <= b < names.len() && a != b implies names[a]
        != names[b] by {
        let (lo, hi) = if a < b {
            (a, b)
        } else {
            (b, a)
        };
        if hi >= 3 {
            let l = hi - 3;
            assert(names[l + 3] == listed_name(files, files[l], syms));
            if lo >= 3 {
                let k = lo - 3;
                assert(names[k + 3] == listed_name(files, files[k], syms));
                let f = files[k];
                let g = files[l];
                lemma_files_at_differ(s, tags, k, l);
                let f_many = named_files(files, f.primary_tag).len() > 1;
                let g_many = named_files(files, g.primary_tag).len() > 1;
                if f_many && g_many {
                    if names[lo] == names[hi] {
                        lemma_qualified_names_differ(
                            f.primary_tag,
                            f.device,
                            f.inode,
                            g.primary_tag,
                            g.device,
                            g.inode,
                            syms,
                        );
                    }
                } else if !f_many && !g_many {
                    if f.primary_tag == g.primary_tag {
                        lemma_two_of_a_name(files, k, l);
                    }
                }
            }
        }
    }
}

/// What a listed name goes back to: a tag or a tag group, by its id.
pub enum Origin {
    Tag(i64),
    Group(i64),
}

/// What the entry of a tag or tag group goes back to.
pub open spec fn origin_of(r: TagOrTagGroupView) -> Origin {
    match r {
        TagOrTagGroupView::Tag(t) => Origin::Tag(t.id),
        TagOrTagGroupView::Group(g) => Origin::Group(g.id),
    }
}

/// Whether the name is that under which the tag or tag group is listed.
pub open spec fn named_by(s: StoreView, syms: SymbolsView, o: Origin, name: Seq<char>) -> bool {
    match o {
        Origin::Tag(id) => exists|k: int|
            0 <= k < s.tags.len() && (#[trigger] s.tags[k]).id == id && s.tags[k].name == name,
        Origin::Group(id) => exists|k: int|
            0 <= k < s.groups.len() && (#[trigger] s.groups[k]).id == id && ext_prefix_set(
                s.groups[k].name,
                syms.tag_group_str,
            ) == name,
    }
}

/// Names that go back to different tags and tag groups are different
/// names, and none is a name that directories list of themselves.
pub proof fn lemma_origins(
    s: StoreView,
    syms: SymbolsView,
    origins: Seq<Origin>,
    names: Seq<Seq<char>>,
)
    requires
        s.wf(),
        !syms.tag_group_str.contains('.'),
        names_clear(s, syms),
        origins.len() == names.len(),
        origins.no_duplicates(),
        forall|i: int| 0 <= i < names.len() ==> named_by(s, syms, origins[i], #[trigger] names[i]),
    ensures
        names.no_duplicates(),
        forall|i: int| 0 <= i < names.len() ==> !fixed_name(#[trigger] names[i], syms),
{
    let m = syms.tag_group_str;
    assert forall|i: int| 0 <= i < names.len() implies !fixed_name(#[trigger] names[i], syms) by {
        assert(named_by(s, syms, origins[i], names[i]));
        match origins[i] {
            Origin::Tag(id) => {
                let k = choose|k: int|
                    0 <= k < s.tags.len() && (#[trigger] s.tags[k]).id == id && s.tags[k].name
                        == names[i];
                assert(!fixed_name(s.tags[k].name, syms));
            },
            Origin::Group(id) => {
                let k = choose|k: int|
                    0 <= k < s.groups.len() && (#[trigger] s.groups[k]).id == id && ext_prefix_set(
                        s.groups[k].name,
                        m,
                    ) == names[i];
                assert(!fixed_name(ext_prefix_set(s.groups[k].name, m), syms));
            },
        }
    }
    assert forall|i: int, j: int| 0 <= i < names.len() && 0 <= j < names.len() && i != j implies names[i]
        != names[j] by {
        assert(named_by(s, syms, origins[i], names[i]));
        assert(named_by(s, syms, origins[j], names[j]));
        assert(origins[i] != origins[j]);
        match (origins[i], origins[j]) {
            (Origin::Tag(a), Origin::Tag(b)) => {
                let k = choose|k: int|
                    0 <= k < s.tags.len() && (#[trigger] s.tags[k]).id == a && s.tags[k].name
                        == names[i];
                let l = choose|l: int|
                    0 <= l < s.tags.len() && (#[trigger] s.tags[l]).id == b && s.tags[l].name
                        == names[j];
                if k < l {
                    assert(tag_rel()(s.tags[k], s.tags[l]));
                } else {
                    assert(tag_rel()(s.tags[l], s.tags[k]));
                }
                lemma_lex_irreflexive(names[i]);
            },
            (Origin::Group(a), Origin::Group(b)) => {
                let k = choose|k: int|
                    0 <= k < s.groups.len() && (#[trigger] s.groups[k]).id == a && ext_prefix_set(
                        s.groups[k].name,
                        m,
                    ) == names[i];
                let l = choose|l: int|
                    0 <= l < s.groups.len() && (#[trigger] s.groups[l]).id == b && ext_prefix_set(
                        s.groups[l].name,
                        m,
                    ) == names[j];
                if k < l {
                    assert(group_rel()(s.groups[k], s.groups[l]));
                } else {
                    assert(group_rel()(s.groups[l], s.groups[k]));
                }
                lemma_lex_irreflexive(s.groups[k].name);
                lemma_marked_names_differ(s.groups[k].name, s.groups[l].name, m);
            },
            (Origin::Tag(a), Origin::Group(b)) => {
                let k = choose|k: int|
                    0 <= k < s.tags.len() && (#[trigger] s.tags[k]).id == a && s.tags[k].name
                        == names[i];
                let l = choose|l: int|
                    0 <= l < s.groups.len() && (#[trigger] s.groups[l]).id == b && ext_prefix_set(
                        s.groups[l].name,
                        m,
                    ) == names[j];
                assert(s.tags[k].name != ext_prefix_set(s.groups[l].name, m));
            },
            (Origin::Group(a), Origin::Tag(b)) => {
                let k = choose|k: int|
                    0 <= k < s.groups.len() && (#[trigger] s.groups[k]).id == a && ext_prefix_set(
                        s.groups[k].name,
                        m,
                    ) == names[i];
                let l = choose|l: int|
                    0 <= l < s.tags.len() && (#[trigger] s.tags[l]).id == b && s.tags[l].name
                        == names[j];
                assert(s.tags[l].name != ext_prefix_set(s.groups[k].name, m));
            },
        }
    }
}

/// The origins of tags.
pub open spec fn tag_origins(tags: Seq<TagView>) -> Seq<Origin> {
    tags.map_values(|t: TagView| Origin::Tag(t.id))
}

/// The origins of tag groups.
pub open spec fn group_origins(groups: Seq<TagGroupView>) -> Seq<Origin> {
    groups.map_values(|g: TagGroupView| Origin::Group(g.id))
}

/// The tag groups that hold one of the given tags are rows of the table
/// of tag groups, each once.
pub proof fn lemma_groups_of_tags_rows(s: StoreView, ids: Seq<i64>, n: i64)
    requires
        s.wf(),
    ensures
        forall|i: int|
            0 <= i < s.groups_of_tags(ids, n).len() ==> exists|k: int|
                0 <= k < s.groups.len() && (#[trigger] s.groups[k]).id == (
                #[trigger] s.groups_of_tags(ids, n)[i]).id && s.groups[k].name == s.groups_of_tags(
                    ids,
                    n,
                )[i].name,
        forall|i: int, j: int|
            0 <= i < j < s.groups_of_tags(ids, n).len() ==> (#[trigger] s.groups_of_tags(
                ids,
                n,
            )[i]).id != (#[trigger] s.groups_of_tags(ids, n)[j]).id,
{
    let f = |g: GroupRowView|
        if s.member_ids_among(g.id, ids).len() > 0 {
            Some(StoreView::group_record(g, s.member_ids_among(g.id, ids), n))
        } else {
            None
        };
    let at = lemma_filter_map_part(s.groups, f);
    let got = s.groups_of_tags(ids, n);
    assert forall|i: int| 0 <= i < got.len() implies exists|k: int|
        0 <= k < s.groups.len() && (#[trigger] s.groups[k]).id == (#[trigger] got[i]).id
            && s.groups[k].name == got[i].name by {
        assert(f(s.groups[at(i)]) == Some(got[i]));
    }
    assert forall|i: int, j: int| 0 <= i < j < got.len() implies (#[trigger] got[i]).id != (
    #[trigger] got[j]).id by {
        assert(f(s.groups[at(i)]) == Some(got[i]));
        assert(f(s.groups[at(j)]) == Some(got[j]));
        assert(at(i) < at(j));
        assert(group_rel()(s.groups[at(i)], s.groups[at(j)]));
    }
}

/// The tags that show below a path are rows of the table of tags.
pub proof fn lemma_tags_below_rows(s: StoreView, tags: Seq<TagTypeView>, exclude: bool)
    ensures
        forall|i: int|
            0 <= i < s.tags_below(tags, exclude).len() ==> exists|k: int|
                0 <= k < s.tags.len() && (#[trigger] s.tags[k]).id == (#[trigger] s.tags_below(
                    tags,
                    exclude,
                )[i]).id && s.tags[k].name == s.tags_below(tags, exclude)[i].name,
{
    let below = s.tags_below(tags, exclude);
    if tags.len() == 0 {
        assert forall|i: int| 0 <= i < below.len() implies exists|k: int|
            0 <= k < s.tags.len() && (#[trigger] s.tags[k]).id == (#[trigger] below[i]).id
                && s.tags[k].name == below[i].name by {
            assert(s.tags[i].id == below[i].id);
        }
    } else {
        let f = |t: TagView| s.tag_below(t, tags, exclude);
        let at = lemma_filter_map_part(s.tags, f);
        assert forall|i: int| 0 <= i < below.len() implies exists|k: int|
            0 <= k < s.tags.len() && (#[trigger] s.tags[k]).id == (#[trigger] below[i]).id
                && s.tags[k].name == below[i].name by {
            assert(f(s.tags[at(i)]) == Some(below[i]));
        }
    }
}

/// What is pinned below a path are rows of the tables of tags and tag
/// groups.
pub proof fn lemma_pinned_below_rows(s: StoreView, syms: SymbolsView, tags: Seq<TagTypeView>)
    ensures
        forall|i: int|
            0 <= i < s.pinned_below(tags).len() ==> named_by(
                s,
                syms,
                origin_of(#[trigger] s.pinned_below(tags)[i]),
                either_entry(s.pinned_below(tags)[i], syms.tag_group_str).name,
            ),
{
    let pinned = s.pinned_below(tags);
    match s.pin_steps(tags) {
        Some(steps) => {
            let f = |p: Seq<crate::sql::model::PinId>| s.pin_below(p, steps);
            let at = lemma_filter_map_part(s.pins, f);
            assert forall|i: int| 0 <= i < pinned.len() implies named_by(
                s,
                syms,
                origin_of(#[trigger] pinned[i]),
                either_entry(pinned[i], syms.tag_group_str).name,
            ) by {
                assert(f(s.pins[at(i)]) == Some(pinned[i]));
                let step = s.pins[at(i)][steps.len() as int];
                assert(s.step_record(step) == Some(pinned[i]));
                match step {
                    crate::sql::model::PinId::Tag(id) => {
                        crate::sql::model::lemma_find_first(crate::sql::model::tag_ids(s.tags), id);
                        let k = crate::sql::model::find_first(
                            crate::sql::model::tag_ids(s.tags),
                            id,
                        )->0;
                        assert(s.tags[k].id == id);
                    },
                    crate::sql::model::PinId::Group(id) => {
                        crate::sql::model::lemma_find_first(
                            crate::sql::model::group_ids(s.groups),
                            id,
                        );
                        let k = crate::sql::model::find_first(
                            crate::sql::model::group_ids(s.groups),
                            id,
                        )->0;
                        assert(s.groups[k].id == id);
                    },
                }
            }
        },
        None => {},
    }
}

/// A tag directory lists no name twice and no name that directories
/// list of themselves, where the names of the tags and tag groups are
/// clear of each other.
pub proof fn lemma_tag_names_differ(s: StoreView, syms: SymbolsView, tags: Seq<TagTypeView>)
    requires
        s.wf(),
        !syms.tag_group_str.contains('.'),
        names_clear(s, syms),
        tags.len() > 0,
    ensures
        entry_names(tag_dir_listing(s, syms, tags)).no_duplicates(),
        forall|i: int|
            0 <= i < tag_dir_listing(s, syms, tags).len() ==> !fixed_name(
                #[trigger] entry_names(tag_dir_listing(s, syms, tags))[i],
                syms,
            ),
{
    let m = syms.tag_group_str;
    let groups = listed_groups(s, tags);
    let shown = listed_tags(s, tags);
    let pinned = s.pinned_below(tags);
    let pins = listed_pins(pinned, shown, groups);
    let below = s.tags_below(tags, true);
    let ids = ids_of_tags(below);
    let from = s.groups_of_tags(ids, 0);
    let names = entry_names(tag_dir_listing(s, syms, tags));
    let origins = group_origins(groups) + tag_origins(shown) + pins.map_values(
        |r: TagOrTagGroupView| origin_of(r),
    );
    let ng = groups.len() as int;
    let nt = shown.len() as int;
    let keep_group = |g: TagGroupView| !crate::fuse::fs::readdir::names_group(tags, g.name);
    let keep_tag = |t: TagView| !crate::fuse::fs::readdir::held_by(groups, t.id);
    let at_group = lemma_filter_part(from, keep_group);
    let at_tag = lemma_filter_part(below, keep_tag);
    lemma_groups_of_tags_rows(s, ids, 0);
    lemma_tags_below_rows(s, tags, true);
    lemma_tags_below_distinct(s, tags, true);
    lemma_pinned_below_rows(s, syms, tags);
    lemma_listed_pins(pinned, shown, groups);
    assert forall|i: int| 0 <= i < ng implies #[trigger] groups[i] == from[at_group(i)] && 0
        <= at_group(i) < from.len() by {
        assert(!(tags.last() is Group));
    }
    assert forall|i: int| 0 <= i < names.len() implies named_by(
        s,
        syms,
        origins[i],
        #[trigger] names[i],
    ) by {
        if i < ng {
            assert(groups[i] == from[at_group(i)]);
            assert(names[i] == group_entry(groups[i], m).name);
            let k = choose|k: int|
                0 <= k < s.groups.len() && (#[trigger] s.groups[k]).id == from[at_group(i)].id
                    && s.groups[k].name == from[at_group(i)].name;
            assert(s.groups[k].id == groups[i].id);
        } else if i < ng + nt {
            let j = i - ng;
            assert(shown[j] == below[at_tag(j)]);
            assert(names[i] == tag_entry(shown[j]).name);
            let k = choose|k: int|
                0 <= k < s.tags.len() && (#[trigger] s.tags[k]).id == below[at_tag(j)].id
                    && s.tags[k].name == below[at_tag(j)].name;
            assert(s.tags[k].id == shown[j].id);
        } else {
            let j = i - ng - nt;
            assert(names[i] == either_entry(pins[j], m).name);
            assert(pinned.contains(pins[j]));
            let k = choose|k: int| 0 <= k < pinned.len() && pinned[k] == pins[j];
            assert(named_by(s, syms, origin_of(pinned[k]), either_entry(pinned[k], m).name));
        }
    }
    assert forall|a: int, b: int| 0 <= a < b < origins.len() implies origins[a] != origins[b] by {
        if b < ng {
            assert(groups[a] == from[at_group(a)] && groups[b] == from[at_group(b)]);
            assert(at_group(a) < at_group(b));
        } else if a < ng {
            if b >= ng + nt {
                let j = b - ng - nt;
                assert(origins[b] == origin_of(pins[j]));
                assert(ids_of_groups(groups)[a] == groups[a].id);
            }
        } else if b < ng + nt {
            let i = a - ng;
            let j = b - ng;
            assert(shown[i] == below[at_tag(i)] && shown[j] == below[at_tag(j)]);
            assert(at_tag(i) < at_tag(j));
        } else if a < ng + nt {
            let i = a - ng;
            let j = b - ng - nt;
            assert(origins[b] == origin_of(pins[j]));
            assert(ids_of_tags(shown)[i] == shown[i].id);
        } else {
            let i = a - ng - nt;
            let j = b - ng - nt;
            assert(origins[a] == origin_of(pins[i]));
            assert(origins[b] == origin_of(pins[j]));
        }
    }
    assert(origins.no_duplicates()) by {
        assert forall|a: int, b: int|
            0 <= a < origins.len() && 0 <= b < origins.len() && a != b implies origins[a]
            != origins[b] by {
            if a < b {
                assert(origins[a] != origins[b]);
            } else {
                assert(origins[b] != origins[a]);
            }
        }
    }
    lemma_origins(s, syms, origins, names);
}

/// The root lists no name twice and no name that directories list of
/// themselves, where the names of the tags and tag groups are clear of
/// each other.
pub proof fn lemma_root_names_differ(s: StoreView, syms: SymbolsView)
    requires
        s.wf(),
        !syms.tag_group_str.contains('.'),
        names_clear(s, syms),
    ensures
        entry_names(root_listing(s, syms)).no_duplicates(),
        forall|i: int|
            0 <= i < root_listing(s, syms).len() ==> !fixed_name(
                #[trigger] entry_names(root_listing(s, syms))[i],
                syms,
            ),
{
    let m = syms.tag_group_str;
    let keep = |t: TagView| !crate::fuse::fs::readdir::grouped(s.members, t.id);
    let loose = s.tags.filter(keep);
    let groups = s.all_groups();
    let at = lemma_filter_part(s.tags, keep);
    let names = entry_names(root_listing(s, syms));
    let origins = tag_origins(loose) + group_origins(groups);
    let nt = loose.len() as int;
    assert forall|i: int| 0 <= i < names.len() implies named_by(
        s,
        syms,
        origins[i],
        #[trigger] names[i],
    ) by {
        if i < nt {
            assert(loose[i] == s.tags[at(i)]);
            assert(names[i] == tag_entry(loose[i]).name);
        } else {
            let j = i - nt;
            assert(names[i] == group_entry(groups[j], m).name);
            assert(s.groups[j].id == groups[j].id);
        }
    }
    assert forall|a: int, b: int|
        0 <= a < origins.len() && 0 <= b < origins.len() && a != b implies origins[a]
        != origins[b] by {
        let (lo, hi) = if a < b {
            (a, b)
        } else {
            (b, a)
        };
        if hi < nt {
            assert(loose[lo] == s.tags[at(lo)] && loose[hi] == s.tags[at(hi)]);
            assert(at(lo) < at(hi));
            assert(tag_rel()(s.tags[at(lo)], s.tags[at(hi)]));
        } else if lo >= nt {
            assert(group_rel()(s.groups[lo - nt], s.groups[hi - nt]));
        }
    }
    lemma_origins(s, syms, origins, names);
}

/// The file directory at the root lists no name twice.
pub proof fn lemma_all_tag_names_differ(s: StoreView, syms: SymbolsView)
    requires
        s.wf(),
        !syms.tag_group_str.contains('.'),
        names_clear(s, syms),
    ensures
        entry_names(s.tags.map_values(|t: TagView| tag_entry(t))).no_duplicates(),
{
    let names = entry_names(s.tags.map_values(|t: TagView| tag_entry(t)));
    let origins = tag_origins(s.tags);
    assert forall|i: int| 0 <= i < names.len() implies named_by(
        s,
        syms,
        origins[i],
        #[trigger] names[i],
    ) by {
        assert(s.tags[i].name == names[i]);
    }
    assert forall|a: int, b: int|
        0 <= a < origins.len() && 0 <= b < origins.len() && a != b implies origins[a]
        != origins[b] by {
        if a < b {
            assert(tag_rel()(s.tags[a], s.tags[b]));
        } else {
            assert(tag_rel()(s.tags[b], s.tags[a]));
        }
    }
    lemma_origins(s, syms, origins, names);
}

/// No directory lists a name twice: not among `.`, `..` and the file
/// directory, not among the entries that follow them, and not between
/// the two. This holds where the symbols keep names apart, and where the
/// names of the files of a file directory, or else those of the tags and
/// tag groups, are clear of each other.
pub proof fn law_no_name_listed_twice(s: StoreView, syms: SymbolsView, path: Seq<char>)
    requires
        s.wf(),
        symbols_tell_apart(syms),
        if lists_files(syms, path) {
            file_names_clear(s.files_at(path_tags(path, syms)), syms)
        } else {
            names_clear(s, syms)
        },
    ensures
        match listing(s, syms, path) {
            Ok(entries) => entry_names(common_listing(s, syms, path) + entries).no_duplicates(),
            Err(_) => true,
        },
{
    reveal_strlit(".");
    reveal_strlit("..");
    reveal_strlit("db.sqlite3");
    let tags = path_tags(path, syms);
    let common = entry_names(common_listing(s, syms, path));
    assert("."@.len() == 1 && ".."@.len() == 2 && DB_FILE_NAME@.len() == 10);
    assert(common =~= seq!["."@, ".."@] || common =~= seq!["."@, ".."@, syms.filedir_str]);
    assert(common.no_duplicates());
    assert forall|i: int| 0 <= i < common.len() implies fixed_name(#[trigger] common[i], syms) by {}
    match listing(s, syms, path) {
        Ok(entries) => {
            let names = entry_names(entries);
            assert(entry_names(common_listing(s, syms, path) + entries) =~= common + names);
            if tags.len() == 0 {
                lemma_root_names_differ(s, syms);
            } else if components(path) == components(STAG_ROOT_CONF_PATH@) {
                assert(names =~= seq![DB_FILE_NAME@]);
            } else if components(path) == root_filedir(syms) {
                lemma_all_tag_names_differ(s, syms);
                assert forall|j: int| 0 <= j < names.len() implies !fixed_name(
                    #[trigger] names[j],
                    syms,
                ) by {
                    assert(names[j] == s.tags[j].name);
                }
            } else if tags.last() is FileDir {
                lemma_file_names_differ(s, syms, tags);
                assert(common =~= seq!["."@, ".."@]);
            } else {
                lemma_tag_names_differ(s, syms, tags);
            }
            if !(tags.len() > 0 && components(path) != components(STAG_ROOT_CONF_PATH@)
                && components(path) != root_filedir(syms) && tags.last() is FileDir) {
                assert forall|i: int, j: int|
                    0 <= i < common.len() && 0 <= j < names.len() implies common[i]
                    != names[j] by {
                    assert(fixed_name(common[i], syms));
                }
                vstd::seq_lib::lemma_no_dup_in_concat(common, names);
            }
        },
        Err(_) => {},
    }
}

} // verus!
