//! Paths as text: the components between separators, the file name, the
//! parent, and the comparison of two paths component by component.

use crate::text::{chars_eq, chars_of, extend_chars, string_of};
use vstd::prelude::*;

verus! {

/// The character that separates the components of a path.
pub const SEPARATOR: char = '/';

/// The runs of characters other than `sep` that `s` holds from position `i`
/// on, where `cur` is the run collected just before `i`.
pub open spec fn runs_from(s: Seq<char>, i: int, cur: Seq<char>, sep: char) -> Seq<Seq<char>>
    decreases s.len() - i,
{
    let done = if cur.len() > 0 {
        seq![cur]
    } else {
        Seq::empty()
    };
    if i < 0 || i >= s.len() {
        done
    } else if s[i] == sep {
        done + runs_from(s, i + 1, Seq::empty(), sep)
    } else {
        runs_from(s, i + 1, cur.push(s[i]), sep)
    }
}

/// The maximal non-empty runs of characters other than `sep` in `s`.
pub open spec fn runs(s: Seq<char>, sep: char) -> Seq<Seq<char>> {
    runs_from(s, 0, Seq::empty(), sep)
}

/// The views of a sequence of character vectors.
pub open spec fn rows(v: Seq<Vec<char>>) -> Seq<Seq<char>> {
    v.map_values(|r: Vec<char>| r@)
}

/// A run is clean where it is not empty and does not hold the separator.
pub open spec fn clean_run(r: Seq<char>, sep: char) -> bool {
    r.len() > 0 && !r.contains(sep)
}

/// No run is empty and none holds the separator.
pub proof fn lemma_runs_clean(s: Seq<char>, i: int, cur: Seq<char>, sep: char)
    requires
        0 <= i <= s.len(),
        !cur.contains(sep),
    ensures
        forall|k: int|
            0 <= k < runs_from(s, i, cur, sep).len() ==> clean_run(
                #[trigger] runs_from(s, i, cur, sep)[k],
                sep,
            ),
    decreases s.len() - i,
{
    let all = runs_from(s, i, cur, sep);
    if i < s.len() {
        if s[i] == sep {
            assert(!Seq::<char>::empty().contains(sep));
            lemma_runs_clean(s, i + 1, Seq::empty(), sep);
            let rest = runs_from(s, i + 1, Seq::empty(), sep);
            assert forall|k: int| 0 <= k < all.len() implies clean_run(#[trigger] all[k], sep) by {
                if cur.len() > 0 {
                    if k > 0 {
                        assert(all[k] == rest[k - 1]);
                    }
                } else {
                    assert(all[k] == rest[k]);
                }
            }
        } else {
            let next = cur.push(s[i]);
            assert forall|j: int| 0 <= j < next.len() implies next[j] != sep by {
                if j < cur.len() {
                    assert(cur.contains(cur[j]));
                }
            }
            lemma_runs_clean(s, i + 1, next, sep);
            assert(all == runs_from(s, i + 1, next, sep));
        }
    } else {
        assert(all == if cur.len() > 0 {
            seq![cur]
        } else {
            Seq::empty()
        });
    }
}

/// Splits `s` at every `sep`, dropping empty pieces.
pub fn split_runs(s: &[char], sep: char) -> (out: Vec<Vec<char>>)
    ensures
        rows(out@) == runs(s@, sep),
{
    let mut out: Vec<Vec<char>> = Vec::new();
    let mut cur: Vec<char> = Vec::new();
    let mut i: usize = 0;
    assert(rows(out@) =~= Seq::<Seq<char>>::empty());
    while i < s.len()
        invariant
            i <= s.len(),
            runs(s@, sep) == rows(out@) + runs_from(s@, i as int, cur@, sep),
        decreases s.len() - i,
    {
        let ghost before = rows(out@);
        let ghost tail = runs_from(s@, i as int, cur@, sep);
        if s[i] == sep {
            assert(tail == (if cur@.len() > 0 {
                seq![cur@]
            } else {
                Seq::empty()
            }) + runs_from(s@, i + 1, Seq::empty(), sep));
            if cur.len() > 0 {
                let ghost run = cur@;
                out.push(cur);
                cur = Vec::new();
                assert(rows(out@) =~= before + seq![run]);
                assert(runs(s@, sep) =~= rows(out@) + runs_from(s@, i + 1, cur@, sep));
            } else {
                assert(cur@ =~= Seq::<char>::empty());
                assert(runs(s@, sep) =~= rows(out@) + runs_from(s@, i + 1, cur@, sep));
            }
        } else {
            assert(tail == runs_from(s@, i + 1, cur@.push(s@[i as int]), sep));
            cur.push(s[i]);
        }
        assert(runs(s@, sep) =~= rows(out@) + runs_from(s@, i + 1, cur@, sep));
        i += 1;
    }
    if cur.len() > 0 {
        let ghost before = rows(out@);
        let ghost last = cur@;
        out.push(cur);
        assert(rows(out@) =~= before + seq![last]);
    }
    out
}

/// One component of a path.
#[derive(Debug, PartialEq, Eq)]
pub enum PathPart {
    /// The leading separator of an absolute path.
    Root,
    /// A leading `.`.
    Cur,
    /// A `..`.
    Parent,
    /// Any other name.
    Normal(String),
}

/// A component with its name as a sequence of characters.
pub enum PartView {
    Root,
    Cur,
    Parent,
    Normal(Seq<char>),
}

impl View for PathPart {
    type V = PartView;

    open spec fn view(&self) -> PartView {
        match self {
            PathPart::Root => PartView::Root,
            PathPart::Cur => PartView::Cur,
            PathPart::Parent => PartView::Parent,
            PathPart::Normal(n) => PartView::Normal(n@),
        }
    }
}

impl Clone for PathPart {
    fn clone(&self) -> (r: Self)
        ensures
            r@ == self@,
    {
        match self {
            PathPart::Root => PathPart::Root,
            PathPart::Cur => PathPart::Cur,
            PathPart::Parent => PathPart::Parent,
            PathPart::Normal(n) => PathPart::Normal(n.clone()),
        }
    }
}

/// The views of a sequence of components.
pub open spec fn part_views(v: Seq<PathPart>) -> Seq<PartView> {
    v.map_values(|p: PathPart| p@)
}

/// The text of `.`.
pub open spec fn dot() -> Seq<char> {
    seq!['.']
}

/// The text of `..`.
pub open spec fn dotdot() -> Seq<char> {
    seq!['.', '.']
}

/// Whether the path begins with the separator.
pub open spec fn is_rooted(path: Seq<char>) -> bool {
    path.len() > 0 && path[0] == SEPARATOR
}

/// The component that a run other than `.` stands for.
pub open spec fn named_part(run: Seq<char>) -> Option<PartView> {
    if run == dot() {
        None
    } else if run == dotdot() {
        Some(PartView::Parent)
    } else {
        Some(PartView::Normal(run))
    }
}

/// The components of a path: the root where the path begins with the
/// separator, a leading `.` where the path begins with one, and then each
/// run between separators except `.`, with `..` as the parent component.
pub open spec fn components(path: Seq<char>) -> Seq<PartView> {
    let rs = runs(path, SEPARATOR);
    let head: Seq<PartView> = if is_rooted(path) {
        seq![PartView::Root]
    } else if rs.len() > 0 && rs[0] == dot() {
        seq![PartView::Cur]
    } else {
        Seq::empty()
    };
    head + rs.filter_map(|r: Seq<char>| named_part(r))
}

/// The names of the ordinary components of a path, in order.
pub open spec fn normal_names(path: Seq<char>) -> Seq<Seq<char>> {
    components(path).filter_map(
        |p: PartView|
            match p {
                PartView::Normal(n) => Some(n),
                _ => None,
            },
    )
}

/// The text of one component.
pub open spec fn part_text(p: PartView) -> Seq<char> {
    match p {
        PartView::Root => seq![SEPARATOR],
        PartView::Cur => dot(),
        PartView::Parent => dotdot(),
        PartView::Normal(n) => n,
    }
}

/// The text of a sequence of components: the names joined by the
/// separator, after the separator itself where the first is the root.
pub open spec fn render(parts: Seq<PartView>) -> Seq<char>
    decreases parts.len(),
{
    if parts.len() == 0 {
        Seq::empty()
    } else if parts.len() == 1 {
        part_text(parts[0])
    } else if parts.len() == 2 && parts[0] is Root {
        seq![SEPARATOR] + part_text(parts[1])
    } else {
        render(parts.drop_last()) + seq![SEPARATOR] + part_text(parts.last())
    }
}

/// The path in its plain form: its components rendered again.
pub open spec fn canonical(path: Seq<char>) -> Seq<char> {
    render(components(path))
}

/// The name of the last component, if the path has any component.
pub open spec fn file_name(path: Seq<char>) -> Option<Seq<char>> {
    let c = components(path);
    if c.len() == 0 {
        None
    } else {
        Some(part_text(c.last()))
    }
}

/// Splits a path into its components.
pub fn components_of(path: &str) -> (out: Vec<PathPart>)
    ensures
        part_views(out@) == components(path@),
{
    let chars = chars_of(path);
    let rs = split_runs(chars.as_slice(), SEPARATOR);
    let dot_v: Vec<char> = vec!['.'];
    let dotdot_v: Vec<char> = vec!['.', '.'];
    assert(dot_v@ =~= dot());
    assert(dotdot_v@ =~= dotdot());
    let mut out: Vec<PathPart> = Vec::new();
    if chars.len() > 0 && chars[0] == SEPARATOR {
        out.push(PathPart::Root);
    } else if rs.len() > 0 && chars_eq(rs[0].as_slice(), dot_v.as_slice()) {
        assert(rows(rs@)[0] == rs@[0]@);
        out.push(PathPart::Cur);
    } else {
        assert(rs@.len() > 0 ==> rows(rs@)[0] == rs@[0]@);
    }
    let ghost head = part_views(out@);
    let ghost f = |r: Seq<char>| named_part(r);
    let mut i: usize = 0;
    assert(rows(rs@).take(0).filter_map(f) =~= Seq::<PartView>::empty());
    assert(part_views(out@) =~= head + rows(rs@).take(0).filter_map(f));
    while i < rs.len()
        invariant
            i <= rs.len(),
            dot_v@ == dot(),
            dotdot_v@ == dotdot(),
            f == (|r: Seq<char>| named_part(r)),
            part_views(out@) == head + rows(rs@).take(i as int).filter_map(f),
        decreases rs.len() - i,
    {
        let run = &rs[i];
        let ghost prev = rows(rs@).take(i as int);
        let ghost next = rows(rs@).take(i as int + 1);
        assert(next.drop_last() =~= prev);
        assert(next.last() == run@);
        let ghost before = part_views(out@);
        if chars_eq(run.as_slice(), dot_v.as_slice()) {
        } else if chars_eq(run.as_slice(), dotdot_v.as_slice()) {
            out.push(PathPart::Parent);
            assert(part_views(out@) =~= before.push(PartView::Parent));
        } else {
            let name = string_of(run.as_slice());
            out.push(PathPart::Normal(name));
            assert(part_views(out@) =~= before.push(PartView::Normal(run@)));
        }
        assert(part_views(out@) =~= head + next.filter_map(f));
        i += 1;
    }
    assert(rows(rs@).take(rs.len() as int) =~= rows(rs@));
    out
}

/// Renders components as text.
pub fn render_parts(parts: &[PathPart]) -> (r: String)
    ensures
        r@ == render(part_views(parts@)),
{
    let mut acc: Vec<char> = Vec::new();
    let mut i: usize = 0;
    assert(part_views(parts@).take(0) =~= Seq::<PartView>::empty());
    while i < parts.len()
        invariant
            i <= parts.len(),
            acc@ == render(part_views(parts@).take(i as int)),
        decreases parts.len() - i,
    {
        let ghost prev = part_views(parts@).take(i as int);
        let ghost next = part_views(parts@).take(i as int + 1);
        assert(next.drop_last() =~= prev);
        assert(next.last() == parts@[i as int]@);
        assert(i > 0 ==> next[0] == prev[0]);
        let rooted_pair = i == 1 && matches!(parts[0], PathPart::Root);
        if i > 0 && !rooted_pair {
            acc.push(SEPARATOR);
        }
        match &parts[i] {
            PathPart::Root => {
                acc.push(SEPARATOR);
            },
            PathPart::Cur => {
                acc.push('.');
            },
            PathPart::Parent => {
                acc.push('.');
                acc.push('.');
            },
            PathPart::Normal(n) => {
                let nv = chars_of(n.as_str());
                extend_chars(&mut acc, nv.as_slice());
            },
        }
        assert(acc@ =~= render(next)) by {
            if i == 1 {
                assert(prev.len() == 1);
                assert(render(prev) == part_text(prev[0]));
            }
        }
        i += 1;
    }
    assert(part_views(parts@).take(parts.len() as int) =~= part_views(parts@));
    string_of(acc.as_slice())
}

/// The names of the ordinary components among `parts`.
pub fn names_of(parts: &[PathPart]) -> (out: Vec<String>)
    ensures
        crate::text::views_of(out@) == part_views(parts@).filter_map(
            |p: PartView|
                match p {
                    PartView::Normal(n) => Some(n),
                    _ => None,
                },
        ),
{
    let ghost f = |p: PartView|
        match p {
            PartView::Normal(n) => Some(n),
            _ => None,
        };
    let mut out: Vec<String> = Vec::new();
    let mut i: usize = 0;
    assert(part_views(parts@).take(0).filter_map(f) =~= Seq::<Seq<char>>::empty());
    assert(crate::text::views_of(out@) =~= Seq::<Seq<char>>::empty());
    while i < parts.len()
        invariant
            i <= parts.len(),
            f == (|p: PartView|
                match p {
                    PartView::Normal(n) => Some(n),
                    _ => None,
                }),
            crate::text::views_of(out@) == part_views(parts@).take(i as int).filter_map(f),
        decreases parts.len() - i,
    {
        let ghost prev = part_views(parts@).take(i as int);
        let ghost next = part_views(parts@).take(i as int + 1);
        assert(next.drop_last() =~= prev);
        assert(next.last() == parts@[i as int]@);
        let ghost before = crate::text::views_of(out@);
        match &parts[i] {
            PathPart::Normal(n) => {
                out.push(n.clone());
                assert(crate::text::views_of(out@) =~= before.push(n@));
            },
            _ => {},
        }
        assert(crate::text::views_of(out@) =~= next.filter_map(f));
        i += 1;
    }
    assert(part_views(parts@).take(parts.len() as int) =~= part_views(parts@));
    out
}

/// The name of the last component of `path`, or `None` for a path without
/// components.
pub fn get_filename(path: &str) -> (r: Option<String>)
    ensures
        match r {
            Some(n) => file_name(path@) == Some(n@),
            None => file_name(path@) is None,
        },
{
    let parts = components_of(path);
    if parts.len() == 0 {
        return None;
    }
    let last = &parts[parts.len() - 1];
    assert(part_views(parts@).last() == last@);
    let r = match last {
        PathPart::Root => String::from_str("/"),
        PathPart::Cur => String::from_str("."),
        PathPart::Parent => String::from_str(".."),
        PathPart::Normal(n) => n.clone(),
    };
    proof {
        reveal_strlit("/");
        reveal_strlit(".");
        reveal_strlit("..");
        assert("/"@ =~= seq![SEPARATOR]);
        assert("."@ =~= dot());
        assert(".."@ =~= dotdot());
    }
    Some(r)
}

/// The plain form of a path.
pub fn canonical_of(path: &str) -> (r: String)
    ensures
        r@ == canonical(path@),
{
    let parts = components_of(path);
    render_parts(parts.as_slice())
}

/// Whether two paths have the same components.
pub fn same_path(a: &str, b: &str) -> (r: bool)
    ensures
        r == (components(a@) == components(b@)),
{
    let pa = components_of(a);
    let pb = components_of(b);
    same_parts(pa.as_slice(), pb.as_slice())
}

/// Whether two components are the same.
pub fn same_part(a: &PathPart, b: &PathPart) -> (r: bool)
    ensures
        r == (a@ == b@),
{
    match (a, b) {
        (PathPart::Root, PathPart::Root) => true,
        (PathPart::Cur, PathPart::Cur) => true,
        (PathPart::Parent, PathPart::Parent) => true,
        (PathPart::Normal(x), PathPart::Normal(y)) => crate::text::str_eq(x.as_str(), y.as_str()),
        _ => false,
    }
}

/// Whether two component sequences are the same.
pub fn same_parts(a: &[PathPart], b: &[PathPart]) -> (r: bool)
    ensures
        r == (part_views(a@) == part_views(b@)),
{
    if a.len() != b.len() {
        assert(part_views(a@).len() != part_views(b@).len());
        return false;
    }
    let mut i: usize = 0;
    while i < a.len()
        invariant
            i <= a.len(),
            a.len() == b.len(),
            forall|j: int| 0 <= j < i ==> a@[j]@ == b@[j]@,
        decreases a.len() - i,
    {
        if !same_part(&a[i], &b[i]) {
            assert(part_views(a@)[i as int] != part_views(b@)[i as int]);
            return false;
        }
        i += 1;
    }
    assert(part_views(a@) =~= part_views(b@));
    true
}

/// Whether the components of `path` end with those of `tail`.
pub open spec fn path_ends_with(path: Seq<char>, tail: Seq<char>) -> bool {
    let p = components(path);
    let t = components(tail);
    t.len() <= p.len() && p.subrange(p.len() - t.len(), p.len() as int) == t
}

/// Whether the components of `path` begin with those of `head`.
pub open spec fn path_starts_with(path: Seq<char>, head: Seq<char>) -> bool {
    let p = components(path);
    let h = components(head);
    h.len() <= p.len() && p.subrange(0, h.len() as int) == h
}

/// Whether `path` ends with the components of `tail`.
pub fn ends_with(path: &str, tail: &str) -> (r: bool)
    ensures
        r == path_ends_with(path@, tail@),
{
    let p = components_of(path);
    let t = components_of(tail);
    if t.len() > p.len() {
        return false;
    }
    let off: usize = p.len() - t.len();
    let mut i: usize = 0;
    while i < t.len()
        invariant
            i <= t.len() <= p.len(),
            off == p.len() - t.len(),
            part_views(p@) == components(path@),
            part_views(t@) == components(tail@),
            forall|j: int| 0 <= j < i ==> p@[off + j]@ == t@[j]@,
        decreases t.len() - i,
    {
        if !same_part(&p[off + i], &t[i]) {
            assert(part_views(p@).subrange(off as int, p.len() as int)[i as int] != part_views(
                t@,
            )[i as int]);
            return false;
        }
        i += 1;
    }
    assert(part_views(p@).subrange(off as int, p.len() as int) =~= part_views(t@));
    true
}

/// Whether `path` begins with the components of `head`.
pub fn starts_with(path: &str, head: &str) -> (r: bool)
    ensures
        r == path_starts_with(path@, head@),
{
    let p = components_of(path);
    let h = components_of(head);
    if h.len() > p.len() {
        return false;
    }
    let mut i: usize = 0;
    while i < h.len()
        invariant
            i <= h.len() <= p.len(),
            part_views(p@) == components(path@),
            part_views(h@) == components(head@),
            forall|j: int| 0 <= j < i ==> p@[j]@ == h@[j]@,
        decreases h.len() - i,
    {
        if !same_part(&p[i], &h[i]) {
            assert(part_views(p@).subrange(0, h.len() as int)[i as int] != part_views(h@)[i as int]);
            return false;
        }
        i += 1;
    }
    assert(part_views(p@).subrange(0, h.len() as int) =~= part_views(h@));
    true
}

/// The path of `name` under `dir`: the components of `dir`, then `name`.
pub open spec fn child_of(dir: Seq<char>, name: Seq<char>) -> Seq<char> {
    render(components(dir).push(PartView::Normal(name)))
}

/// The plain form of the path of `name` under `dir`.
pub fn join_name(dir: &str, name: &str) -> (r: String)
    ensures
        r@ == child_of(dir@, name@),
{
    let mut parts = components_of(dir);
    let ghost before = part_views(parts@);
    parts.push(PathPart::Normal(String::from_str(name)));
    assert(part_views(parts@) =~= before.push(PartView::Normal(name@)));
    render_parts(parts.as_slice())
}

/// The path without its last component, for a path of two components or
/// more, or of one that is not the root.
pub open spec fn parent_of(path: Seq<char>) -> Option<Seq<char>> {
    let c = components(path);
    if c.len() == 0 || c.last() is Root {
        None
    } else {
        Some(render(c.drop_last()))
    }
}

/// The plain form of the parent of `path`.
pub fn parent(path: &str) -> (r: Option<String>)
    ensures
        match r {
            Some(p) => parent_of(path@) == Some(p@),
            None => parent_of(path@) is None,
        },
{
    let mut parts = components_of(path);
    if parts.len() == 0 {
        return None;
    }
    let ghost all = part_views(parts@);
    assert(all.last() == parts@[parts.len() - 1]@);
    if matches!(parts[parts.len() - 1], PathPart::Root) {
        return None;
    }
    parts.pop();
    assert(part_views(parts@) =~= all.drop_last());
    Some(render_parts(parts.as_slice()))
}

} // verus!
