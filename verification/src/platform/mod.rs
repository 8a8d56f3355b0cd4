//! What the platform says of mounted collections: the lines of the list
//! of mounts that name a collection, and the collection that is used
//! where none is named.

pub mod mac;

use crate::text::{chars_of, has_prefix, is_prefix, slice_of, str_eq, string_of};
use vstd::prelude::*;

verus! {

/// Whether a character is white space.
pub open spec fn is_space(c: char) -> bool {
    let n = c as int;
    (0x9 <= n <= 0xd) || n == 0x20 || n == 0x85 || n == 0xa0 || n == 0x1680 || (0x2000 <= n
        <= 0x200a) || n == 0x2028 || n == 0x2029 || n == 0x202f || n == 0x205f || n == 0x3000
}

/// Whether a character is white space.
pub fn space(c: char) -> (r: bool)
    ensures
        r == is_space(c),
{
    let n = c as u32;
    (0x9 <= n && n <= 0xd) || n == 0x20 || n == 0x85 || n == 0xa0 || n == 0x1680 || (0x2000 <= n
        && n <= 0x200a) || n == 0x2028 || n == 0x2029 || n == 0x202f || n == 0x205f || n == 0x3000
}

/// The first position from `from` on at which `pat` stands in `s`.
pub open spec fn first_at(s: Seq<char>, pat: Seq<char>, from: int) -> Option<int>
    decreases s.len() - from,
{
    if from < 0 || from >= s.len() || from + pat.len() > s.len() {
        None
    } else if s.subrange(from, from + pat.len()) == pat {
        Some(from)
    } else {
        first_at(s, pat, from + 1)
    }
}

/// The first position from `from` on that holds white space.
pub open spec fn first_space(s: Seq<char>, from: int) -> Option<int>
    decreases s.len() - from,
{
    if from < 0 || from >= s.len() {
        None
    } else if is_space(s[from]) {
        Some(from)
    } else {
        first_space(s, from + 1)
    }
}

/// What a line of the list of mounts says: where it begins with
/// `supertag:`, then has a name, then ` on `, then a mount point, and
/// then white space or, where `ended` holds, the end of the line, the
/// name and the mount point, each the shortest that fits.
pub open spec fn mount_line(line: Seq<char>, ended: bool) -> Option<(Seq<char>, Seq<char>)> {
    let head = "supertag:"@;
    if !is_prefix(head, line) {
        None
    } else {
        let rest = line.skip(head.len() as int);
        match first_at(rest, " on "@, 1) {
            None => None,
            Some(i) => {
                let after = rest.skip(i + 4);
                match first_space(after, 1) {
                    Some(j) => Some((rest.take(i), after.take(j))),
                    None => if ended && after.len() >= 1 {
                        Some((rest.take(i), after))
                    } else {
                        None
                    },
                }
            },
        }
    }
}

/// Finds the first position from `from` on at which `pat` stands.
fn find_at(s: &[char], pat: &[char], from: usize) -> (r: Option<usize>)
    ensures
        match r {
            Some(i) => first_at(s@, pat@, from as int) == Some(i as int) && from <= i && i
                + pat@.len() <= s@.len(),
            None => first_at(s@, pat@, from as int) is None,
        },
{
    let mut i: usize = from;
    while i < s.len() && pat.len() <= s.len() - i
        invariant
            from <= i,
            first_at(s@, pat@, from as int) == first_at(s@, pat@, i as int),
        decreases s.len() + 1 - i,
    {
        let window = vstd::slice::slice_subrange(s, i, i + pat.len());
        if crate::text::chars_eq(window, pat) {
            return Some(i);
        }
        i += 1;
    }
    None
}

/// Finds the first position from `from` on that holds white space.
fn find_space(s: &[char], from: usize) -> (r: Option<usize>)
    ensures
        match r {
            Some(i) => first_space(s@, from as int) == Some(i as int) && from <= i < s@.len(),
            None => first_space(s@, from as int) is None,
        },
{
    let mut i: usize = from;
    while i < s.len()
        invariant
            from <= i,
            first_space(s@, from as int) == first_space(s@, i as int),
        decreases s.len() - i,
    {
        if space(s[i]) {
            return Some(i);
        }
        i += 1;
    }
    None
}

/// Reads a line of the list of mounts: the name of the collection and
/// its mount point, where the line names one.
pub fn parse_mount_line(line: &[char], ended: bool) -> (r: Option<(String, String)>)
    ensures
        match r {
            Some((name, mnt)) => mount_line(line@, ended) == Some((name@, mnt@)),
            None => mount_line(line@, ended) is None,
        },
{
    let head = chars_of("supertag:");
    let on = chars_of(" on ");
    proof {
        reveal_strlit(" on ");
    }
    if !has_prefix(line, head.as_slice()) {
        return None;
    }
    let rest = slice_of(line, head.len(), line.len());
    assert(rest@ =~= line@.skip("supertag:"@.len() as int));
    let i = match find_at(rest.as_slice(), on.as_slice(), 1) {
        Some(i) => i,
        None => {
            return None;
        },
    };
    let after = slice_of(rest.as_slice(), i + 4, rest.len());
    assert(after@ =~= rest@.skip(i + 4));
    let name = slice_of(rest.as_slice(), 0, i);
    assert(name@ =~= rest@.take(i as int));
    match find_space(after.as_slice(), 1) {
        Some(j) => {
            let mnt = slice_of(after.as_slice(), 0, j);
            assert(mnt@ =~= after@.take(j as int));
            Some((string_of(name.as_slice()), string_of(mnt.as_slice())))
        },
        None => {
            if ended && after.len() >= 1 {
                Some((string_of(name.as_slice()), string_of(after.as_slice())))
            } else {
                None
            }
        },
    }
}

/// What the lines of a list of mounts say, from position `i` on, where
/// `cur` is the line read so far.
pub open spec fn mount_lines_from(
    out: Seq<char>,
    i: int,
    cur: Seq<char>,
) -> Seq<(Seq<char>, Seq<char>)>
    decreases out.len() - i,
{
    if i < 0 || i >= out.len() {
        match mount_line(cur, false) {
            Some(p) => seq![p],
            None => Seq::empty(),
        }
    } else if out[i] == '\n' {
        (match mount_line(cur, true) {
            Some(p) => seq![p],
            None => Seq::empty(),
        }) + mount_lines_from(out, i + 1, Seq::empty())
    } else {
        mount_lines_from(out, i + 1, cur.push(out[i]))
    }
}

/// The views of pairs of strings.
pub open spec fn pairs(v: Seq<(String, String)>) -> Seq<(Seq<char>, Seq<char>)> {
    v.map_values(|p: (String, String)| (p.0@, p.1@))
}

/// The mounted collections in the list of mounts: the name and the mount
/// point of each line that names one.
pub fn mounted_collections(output: &str) -> (r: Vec<(String, String)>)
    ensures
        pairs(r@) == mount_lines_from(output@, 0, Seq::empty()),
{
    let text = chars_of(output);
    let mut out: Vec<(String, String)> = Vec::new();
    let mut cur: Vec<char> = Vec::new();
    let mut i: usize = 0;
    assert(pairs(out@) =~= Seq::<(Seq<char>, Seq<char>)>::empty());
    while i < text.len()
        invariant
            i <= text.len(),
            text@ == output@,
            mount_lines_from(output@, 0, Seq::empty()) == pairs(out@) + mount_lines_from(
                output@,
                i as int,
                cur@,
            ),
        decreases text.len() - i,
    {
        let ghost before = pairs(out@);
        if text[i] == '\n' {
            match parse_mount_line(cur.as_slice(), true) {
                Some(p) => {
                    let ghost pv = (p.0@, p.1@);
                    out.push(p);
                    assert(pairs(out@) =~= before + seq![pv]);
                },
                None => {},
            }
            cur = Vec::new();
            assert(cur@ =~= Seq::<char>::empty());
            assert(mount_lines_from(output@, 0, Seq::empty()) =~= pairs(out@)
                + mount_lines_from(output@, i + 1, cur@));
        } else {
            cur.push(text[i]);
        }
        i += 1;
    }
    match parse_mount_line(cur.as_slice(), false) {
        Some(p) => {
            let ghost before = pairs(out@);
            let ghost pv = (p.0@, p.1@);
            out.push(p);
            assert(pairs(out@) =~= before + seq![pv]);
        },
        None => {
            assert(pairs(out@) + Seq::<(Seq<char>, Seq<char>)>::empty() =~= pairs(out@));
        },
    }
    out
}

/// Whether a collection of the given name is among the mounted.
pub open spec fn is_mounted(mounted: Seq<(Seq<char>, Seq<char>)>, col: Seq<char>) -> bool {
    exists|k: int| 0 <= k < mounted.len() && (#[trigger] mounted[k]).0 == col
}

/// The first of the collections that is mounted.
pub open spec fn first_mounted(
    all: Seq<Seq<char>>,
    mounted: Seq<(Seq<char>, Seq<char>)>,
    from: int,
) -> Option<Seq<char>>
    decreases all.len() - from,
{
    if from < 0 || from >= all.len() {
        None
    } else if is_mounted(mounted, all[from]) {
        Some(all[from])
    } else {
        first_mounted(all, mounted, from + 1)
    }
}

/// The collection that is used where none is named: the first of the
/// known collections, in the order given, that is mounted.
pub fn primary_collection(all_cols: &[String], mounted: &[(String, String)]) -> (r: Option<String>)
    ensures
        crate::sql::types::opt_view(r) == first_mounted(
            crate::text::views_of(all_cols@),
            pairs(mounted@),
            0,
        ),
{
    let ghost all = crate::text::views_of(all_cols@);
    let ghost mv = pairs(mounted@);
    let mut i: usize = 0;
    while i < all_cols.len()
        invariant
            i <= all_cols.len(),
            all == crate::text::views_of(all_cols@),
            mv == pairs(mounted@),
            first_mounted(all, mv, 0) == first_mounted(all, mv, i as int),
        decreases all_cols.len() - i,
    {
        assert(all.len() == all_cols@.len());
        assert(all[i as int] == all_cols@[i as int]@);
        assert(mv.len() == mounted@.len());
        let mut k: usize = 0;
        let mut found = false;
        while k < mounted.len()
            invariant
                k <= mounted.len(),
                i < all_cols.len(),
                mv == pairs(mounted@),
                !found,
                all == crate::text::views_of(all_cols@),
                all.len() == all_cols@.len(),
                all[i as int] == all_cols@[i as int]@,
                first_mounted(all, mv, 0) == first_mounted(all, mv, i as int),
                mv.len() == mounted@.len(),
                forall|j: int| 0 <= j < k ==> (#[trigger] mv[j]).0 != all_cols@[i as int]@,
            decreases mounted.len() - k,
        {
            assert(mv[k as int] == (mounted@[k as int].0@, mounted@[k as int].1@));
            if str_eq(mounted[k].0.as_str(), all_cols[i].as_str()) {
                assert(is_mounted(mv, all[i as int]));
                return Some(all_cols[i].clone());
            }
            k += 1;
        }
        assert(!is_mounted(mv, all[i as int]));
        i += 1;
    }
    None
}

/// The number of leading entries that are no younger than `time`.
pub open spec fn upper_len(entries: Seq<(Seq<char>, u64)>, time: u64) -> int
    decreases entries.len(),
{
    if entries.len() > 0 && entries[0].1 <= time {
        1 + upper_len(entries.drop_first(), time)
    } else {
        0
    }
}

/// The entries in the order of their times: each entry stands behind the
/// entries given before it that are no younger.
pub open spec fn by_time(entries: Seq<(Seq<char>, u64)>) -> Seq<(Seq<char>, u64)>
    decreases entries.len(),
{
    if entries.len() == 0 {
        Seq::empty()
    } else {
        let head = by_time(entries.drop_last());
        head.insert(upper_len(head, entries.last().1), entries.last())
    }
}

/// Whether no entry stands before an older one.
pub open spec fn in_time_order(entries: Seq<(Seq<char>, u64)>) -> bool {
    forall|i: int, j: int| 0 <= i < j < entries.len() ==> entries[i].1 <= entries[j].1
}

/// The leading entries that are no younger than `time` are counted up to
/// the first that is younger.
pub proof fn lemma_upper_len(entries: Seq<(Seq<char>, u64)>, time: u64)
    ensures
        0 <= upper_len(entries, time) <= entries.len(),
        forall|k: int| 0 <= k < upper_len(entries, time) ==> entries[k].1 <= time,
        upper_len(entries, time) < entries.len() ==> entries[upper_len(entries, time)].1 > time,
    decreases entries.len(),
{
    if entries.len() > 0 && entries[0].1 <= time {
        let rest = entries.drop_first();
        lemma_upper_len(rest, time);
        assert forall|k: int| 0 <= k < upper_len(entries, time) implies entries[k].1 <= time by {
            if k > 0 {
                assert(entries[k] == rest[k - 1]);
            }
        }
        if upper_len(entries, time) < entries.len() {
            assert(entries[upper_len(entries, time)] == rest[upper_len(rest, time)]);
        }
    }
}

/// Ordering by time gives the same entries, none before an older one.
pub proof fn law_by_time_orders(entries: Seq<(Seq<char>, u64)>)
    ensures
        in_time_order(by_time(entries)),
        by_time(entries).to_multiset() == entries.to_multiset(),
        by_time(entries).len() == entries.len(),
    decreases entries.len(),
{
    broadcast use vstd::seq_lib::to_multiset_build, vstd::seq_lib::lemma_multiset_commutative;

    if entries.len() == 0 {
        assert(entries =~= Seq::empty());
    } else {
        let earlier = entries.drop_last();
        let x = entries.last();
        law_by_time_orders(earlier);
        let head = by_time(earlier);
        let p = upper_len(head, x.1);
        lemma_upper_len(head, x.1);
        let out = head.insert(p, x);
        assert forall|i: int, j: int| 0 <= i < j < out.len() implies out[i].1 <= out[j].1 by {
            if j < p {
                assert(out[i] == head[i] && out[j] == head[j]);
            } else if j == p {
                assert(out[i] == head[i]);
            } else if i < p {
                assert(out[i] == head[i] && out[j] == head[j - 1]);
                assert(head[p].1 <= head[j - 1].1 || p == j - 1);
            } else if i == p {
                assert(out[j] == head[j - 1]);
                assert(head[p].1 <= head[j - 1].1 || p == j - 1);
            } else {
                assert(out[i] == head[i - 1] && out[j] == head[j - 1]);
            }
        }
        assert(out =~= head.take(p).push(x) + head.skip(p));
        assert(head =~= head.take(p) + head.skip(p));
        assert(entries =~= earlier.push(x));
        assert(out.to_multiset() =~= head.to_multiset().insert(x));
        assert(entries.to_multiset() =~= earlier.to_multiset().insert(x));
    }
}

/// The views of entries of a name and a time.
pub open spec fn timed(v: Seq<(String, u64)>) -> Seq<(Seq<char>, u64)> {
    v.map_values(|e: (String, u64)| (e.0@, e.1))
}

/// The names of entries of a name and a time.
pub open spec fn timed_names(v: Seq<(Seq<char>, u64)>) -> Seq<Seq<char>> {
    v.map_values(|e: (Seq<char>, u64)| e.0)
}

/// The known collections in the order in which they were made, given
/// each with the time at which it was made. Collections made at the same
/// time keep the order in which they are given.
pub fn all_collections(entries: &[(String, u64)]) -> (r: Vec<String>)
    ensures
        crate::text::views_of(r@) == timed_names(by_time(timed(entries@))),
{
    let ghost all = timed(entries@);
    let mut sorted: Vec<(String, u64)> = Vec::new();
    let mut i: usize = 0;
    assert(all.take(0) =~= Seq::empty());
    assert(timed(sorted@) =~= Seq::empty());
    while i < entries.len()
        invariant
            i <= entries.len(),
            all == timed(entries@),
            timed(sorted@) == by_time(all.take(i as int)),
        decreases entries.len() - i,
    {
        let time = entries[i].1;
        let ghost head = timed(sorted@);
        let mut p: usize = 0;
        assert(head.skip(0) =~= head);
        while p < sorted.len() && sorted[p].1 <= time
            invariant
                p <= sorted.len(),
                head == timed(sorted@),
                upper_len(head, time) == p + upper_len(head.skip(p as int), time),
            decreases sorted.len() - p,
        {
            assert(head.skip(p as int)[0] == head[p as int]);
            assert(head.skip(p as int).drop_first() =~= head.skip(p + 1));
            p += 1;
        }
        assert(p < sorted.len() ==> head.skip(p as int)[0] == head[p as int]);
        assert(upper_len(head, time) == p);
        let name = entries[i].0.clone();
        let ghost x = (name@, time);
        sorted.insert(p, (name, time));
        assert(timed(sorted@) =~= head.insert(p as int, x));
        assert(all.take(i + 1).drop_last() =~= all.take(i as int));
        assert(all.take(i + 1).last() == x);
        i += 1;
    }
    assert(all.take(entries.len() as int) =~= all);
    let mut out: Vec<String> = Vec::new();
    let mut k: usize = 0;
    while k < sorted.len()
        invariant
            k <= sorted.len(),
            crate::text::views_of(out@) =~= timed_names(timed(sorted@)).take(k as int),
        decreases sorted.len() - k,
    {
        let ghost before = crate::text::views_of(out@);
        let name = sorted[k].0.clone();
        assert(timed_names(timed(sorted@))[k as int] == name@);
        out.push(name);
        assert(crate::text::views_of(out@) =~= before.push(sorted@[k as int].0@));
        k += 1;
    }
    assert(timed_names(timed(sorted@)).take(sorted.len() as int) =~= timed_names(timed(sorted@)));
    out
}

/// Where a collection is mounted, going by the list of mounts: the mount
/// point of the last line that names it.
pub open spec fn mount_of(mounted: Seq<(Seq<char>, Seq<char>)>, col: Seq<char>) -> Option<Seq<char>>
    decreases mounted.len(),
{
    if mounted.len() == 0 {
        None
    } else if mounted.last().0 == col {
        Some(mounted.last().1)
    } else {
        mount_of(mounted.drop_last(), col)
    }
}

/// The line that the table of collections shows for a collection: two
/// spaces, a star and a space for the primary collection, the name, and
/// an arrow to the mount point where the collection is mounted.
pub open spec fn fstab_line(col: Seq<char>, primary: Option<Seq<char>>, mnt: Option<Seq<char>>) -> Seq<
    char,
> {
    "  "@ + (if primary == Some(col) {
        "* "@
    } else {
        Seq::empty()
    }) + col + (match mnt {
        Some(m) => " => "@ + m,
        None => Seq::empty(),
    })
}

/// Where a collection is mounted, going by the list of mounts.
pub fn find_mount(mounted: &[(String, String)], col: &str) -> (r: Option<String>)
    ensures
        crate::sql::types::opt_view(r) == mount_of(pairs(mounted@), col@),
{
    let ghost all = pairs(mounted@);
    let mut i: usize = mounted.len();
    assert(all.take(i as int) =~= all);
    while i > 0
        invariant
            i <= mounted.len(),
            all == pairs(mounted@),
            mount_of(all, col@) == mount_of(all.take(i as int), col@),
        decreases i,
    {
        assert(all.take(i as int).last() == (mounted@[i - 1].0@, mounted@[i - 1].1@));
        assert(all.take(i as int).drop_last() =~= all.take(i - 1));
        if str_eq(mounted[i - 1].0.as_str(), col) {
            return Some(mounted[i - 1].1.clone());
        }
        i -= 1;
    }
    None
}

/// The table of collections: a line for each known collection, in the
/// order given.
pub fn fstab_lines(all_cols: &[String], mounted: &[(String, String)], primary: &Option<String>) -> (r:
    Vec<String>)
    ensures
        r@.len() == all_cols@.len(),
        forall|i: int|
            0 <= i < r@.len() ==> (#[trigger] r@[i])@ == fstab_line(
                all_cols@[i]@,
                crate::sql::types::opt_view(*primary),
                mount_of(pairs(mounted@), all_cols@[i]@),
            ),
{
    let mut out: Vec<String> = Vec::new();
    let mut i: usize = 0;
    while i < all_cols.len()
        invariant
            i <= all_cols.len(),
            out@.len() == i,
            forall|k: int|
                0 <= k < i ==> (#[trigger] out@[k])@ == fstab_line(
                    all_cols@[k]@,
                    crate::sql::types::opt_view(*primary),
                    mount_of(pairs(mounted@), all_cols@[k]@),
                ),
        decreases all_cols.len() - i,
    {
        let col = &all_cols[i];
        let mut line = chars_of("  ");
        let is_primary = match primary {
            Some(pc) => str_eq(pc.as_str(), col.as_str()),
            None => false,
        };
        if is_primary {
            let star = chars_of("* ");
            crate::text::extend_chars(&mut line, star.as_slice());
        }
        let ghost head = line@;
        assert(head =~= "  "@ + (if crate::sql::types::opt_view(*primary) == Some(col@) {
            "* "@
        } else {
            Seq::empty()
        }));
        let name = chars_of(col.as_str());
        crate::text::extend_chars(&mut line, name.as_slice());
        match find_mount(mounted, col.as_str()) {
            Some(mnt) => {
                let arrow = chars_of(" => ");
                crate::text::extend_chars(&mut line, arrow.as_slice());
                let m = chars_of(mnt.as_str());
                crate::text::extend_chars(&mut line, m.as_slice());
                assert(line@ =~= head + col@ + (" => "@ + mnt@));
            },
            None => {
                assert(line@ =~= head + col@ + Seq::<char>::empty());
            },
        }
        out.push(string_of(line.as_slice()));
        i += 1;
    }
    out
}

} // verus!
