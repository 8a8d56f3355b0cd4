//! Facts about tables as sequences: a relation that holds of every two
//! rows in order, kept by inserting, removing and filtering rows; the
//! position at which a row enters a sorted table; the next free id.

use crate::text::{lemma_lex_total, lemma_lex_transitive, lex_lt};
use vstd::prelude::*;

verus! {

/// The relation holds of every two rows, the earlier first.
pub open spec fn pairwise<T>(s: Seq<T>, r: spec_fn(T, T) -> bool) -> bool {
    forall|i: int, j: int| 0 <= i < j < s.len() ==> r(#[trigger] s[i], #[trigger] s[j])
}

/// A row inserted between the rows that stand before it and those that
/// stand after it keeps the relation.
pub proof fn lemma_pairwise_insert<T>(s: Seq<T>, p: int, x: T, r: spec_fn(T, T) -> bool)
    requires
        0 <= p <= s.len(),
        pairwise(s, r),
        forall|k: int| 0 <= k < p ==> r(#[trigger] s[k], x),
        forall|k: int| p <= k < s.len() ==> r(x, #[trigger] s[k]),
    ensures
        pairwise(s.insert(p, x), r),
{
    let t = s.insert(p, x);
    assert forall|i: int, j: int| 0 <= i < j < t.len() implies r(#[trigger] t[i], #[trigger] t[j]) by {
        if i < p {
            assert(t[i] == s[i]);
        } else if i > p {
            assert(t[i] == s[i - 1]);
        }
        if j < p {
            assert(t[j] == s[j]);
        } else if j > p {
            assert(t[j] == s[j - 1]);
        }
    }
}

/// Removing a row keeps the relation.
pub proof fn lemma_pairwise_remove<T>(s: Seq<T>, p: int, r: spec_fn(T, T) -> bool)
    requires
        0 <= p < s.len(),
        pairwise(s, r),
    ensures
        pairwise(s.remove(p), r),
{
    let t = s.remove(p);
    assert forall|i: int, j: int| 0 <= i < j < t.len() implies r(#[trigger] t[i], #[trigger] t[j]) by {
        if i < p {
            assert(t[i] == s[i]);
        } else {
            assert(t[i] == s[i + 1]);
        }
        if j < p {
            assert(t[j] == s[j]);
        } else {
            assert(t[j] == s[j + 1]);
        }
    }
}

/// `t` holds rows of `s` in the order of `s`: each row of `t` is a row of
/// `s`, and a later row of `t` is a later row of `s`.
pub open spec fn ordered_part<T>(t: Seq<T>, s: Seq<T>, at: spec_fn(int) -> int) -> bool {
    &&& forall|i: int| 0 <= i < t.len() ==> 0 <= #[trigger] at(i) < s.len() && t[i] == s[at(i)]
    &&& forall|i: int, j: int| 0 <= i < j < t.len() ==> #[trigger] at(i) < #[trigger] at(j)
}

/// The rows that a filter keeps are rows of the table, in its order.
pub proof fn lemma_filter_part<T>(s: Seq<T>, keep: spec_fn(T) -> bool) -> (at: spec_fn(int) -> int)
    ensures
        ordered_part(s.filter(keep), s, at),
        forall|i: int| 0 <= i < s.filter(keep).len() ==> keep(#[trigger] s.filter(keep)[i]),
    decreases s.len(),
{
    reveal(Seq::filter);
    if s.len() == 0 {
        |i: int| 0int
    } else {
        let head = s.drop_last();
        let prev = lemma_filter_part(head, keep);
        let n = head.filter(keep).len() as int;
        let last = s.len() - 1;
        let at = |i: int|
            if i < n {
                prev(i)
            } else {
                last
            };
        let t = s.filter(keep);
        assert forall|i: int| 0 <= i < t.len() implies 0 <= #[trigger] at(i) < s.len() && t[i]
            == s[at(i)] by {
            if i < n {
                assert(t[i] == head.filter(keep)[i]);
                assert(head[prev(i)] == s[prev(i)]);
            }
        }
        assert forall|i: int, j: int| 0 <= i < j < t.len() implies #[trigger] at(i) < #[trigger] at(
            j,
        ) by {
            if j < n {
                assert(prev(i) < prev(j));
            } else {
                assert(0 <= prev(i) < head.len());
            }
        }
        assert forall|i: int| 0 <= i < t.len() implies keep(#[trigger] t[i]) by {
            if i < n {
                assert(t[i] == head.filter(keep)[i]);
            }
        }
        at
    }
}

/// Filtering keeps the relation.
pub proof fn lemma_pairwise_filter<T>(s: Seq<T>, keep: spec_fn(T) -> bool, r: spec_fn(T, T) -> bool)
    requires
        pairwise(s, r),
    ensures
        pairwise(s.filter(keep), r),
{
    let at = lemma_filter_part(s, keep);
    let t = s.filter(keep);
    assert forall|i: int, j: int| 0 <= i < j < t.len() implies r(#[trigger] t[i], #[trigger] t[j]) by {
        assert(at(i) < at(j));
        assert(t[i] == s[at(i)]);
        assert(t[j] == s[at(j)]);
    }
}

/// A filter keeps no more rows than there are.
pub proof fn lemma_filter_len<T>(s: Seq<T>, keep: spec_fn(T) -> bool)
    ensures
        s.filter(keep).len() <= s.len(),
    decreases s.len(),
{
    reveal(Seq::filter);
    if s.len() > 0 {
        lemma_filter_len(s.drop_last(), keep);
    }
}

/// A row that the filter keeps is among the rows kept.
pub proof fn lemma_filter_has<T>(s: Seq<T>, keep: spec_fn(T) -> bool, k: int)
    requires
        0 <= k < s.len(),
        keep(s[k]),
    ensures
        s.filter(keep).contains(s[k]),
    decreases s.len(),
{
    reveal(Seq::filter);
    let head = s.drop_last();
    if k == s.len() - 1 {
        let t = s.filter(keep);
        assert(t[t.len() - 1] == s[k]);
    } else {
        lemma_filter_has(head, keep, k);
        let i = choose|i: int| 0 <= i < head.filter(keep).len() && head.filter(keep)[i] == head[k];
        assert(s.filter(keep)[i] == s[k]);
    }
}

/// The number of leading names that stand before `name`.
pub open spec fn lower_len(names: Seq<Seq<char>>, name: Seq<char>) -> int
    decreases names.len(),
{
    if names.len() == 0 || !lex_lt(names[0], name) {
        0
    } else {
        1 + lower_len(names.drop_first(), name)
    }
}

/// In a sorted table without `name`, the names before the position of
/// `name` stand before it and all others after it.
pub proof fn lemma_lower_len(names: Seq<Seq<char>>, name: Seq<char>)
    requires
        forall|i: int, j: int|
            0 <= i < j < names.len() ==> lex_lt(#[trigger] names[i], #[trigger] names[j]),
        !names.contains(name),
    ensures
        0 <= lower_len(names, name) <= names.len(),
        forall|k: int| 0 <= k < lower_len(names, name) ==> lex_lt(#[trigger] names[k], name),
        forall|k: int| lower_len(names, name) <= k < names.len() ==> lex_lt(name, #[trigger] names[k]),
    decreases names.len(),
{
    if names.len() == 0 {
    } else if !lex_lt(names[0], name) {
        assert(names.contains(names[0]));
        lemma_lex_total(names[0], name);
        assert forall|k: int| 0 <= k < names.len() implies lex_lt(name, #[trigger] names[k]) by {
            if k > 0 {
                lemma_lex_transitive(name, names[0], names[k]);
            }
        }
    } else {
        let rest = names.drop_first();
        assert forall|i: int, j: int| 0 <= i < j < rest.len() implies lex_lt(
            #[trigger] rest[i],
            #[trigger] rest[j],
        ) by {
            assert(rest[i] == names[i + 1] && rest[j] == names[j + 1]);
        }
        assert(!rest.contains(name)) by {
            if rest.contains(name) {
                let i = choose|i: int| 0 <= i < rest.len() && rest[i] == name;
                assert(names[i + 1] == name);
            }
        }
        lemma_lower_len(rest, name);
        let p = lower_len(names, name);
        assert forall|k: int| 0 <= k < p implies lex_lt(#[trigger] names[k], name) by {
            if k > 0 {
                assert(names[k] == rest[k - 1]);
            }
        }
        assert forall|k: int| p <= k < names.len() implies lex_lt(name, #[trigger] names[k]) by {
            assert(names[k] == rest[k - 1]);
        }
    }
}

/// The greatest of the ids, zero for none and where all are negative.
pub open spec fn max_id(ids: Seq<i64>) -> int
    decreases ids.len(),
{
    if ids.len() == 0 {
        0
    } else {
        let m = max_id(ids.drop_last());
        if ids.last() > m {
            ids.last() as int
        } else {
            m
        }
    }
}

/// No id is above the greatest.
pub proof fn lemma_max_id(ids: Seq<i64>)
    ensures
        0 <= max_id(ids) <= i64::MAX,
        forall|k: int| 0 <= k < ids.len() ==> #[trigger] ids[k] <= max_id(ids),
    decreases ids.len(),
{
    if ids.len() > 0 {
        let t = ids.drop_last();
        lemma_max_id(t);
        assert(forall|k: int| 0 <= k < t.len() ==> t[k] == ids[k]);
    }
}

} // verus!

verus! {

/// The number of leading rows that stand before `x` by the relation.
pub open spec fn lower_by<T>(s: Seq<T>, x: T, lt: spec_fn(T, T) -> bool) -> int
    decreases s.len(),
{
    if s.len() == 0 || !lt(s[0], x) {
        0
    } else {
        1 + lower_by(s.drop_first(), x, lt)
    }
}

/// In a table where every row stands before `x` or after it, and where
/// `x` standing before a row stands before all later rows, the rows
/// before the position of `x` stand before it and all others after it.
pub proof fn lemma_lower_by<T>(s: Seq<T>, x: T, lt: spec_fn(T, T) -> bool)
    requires
        forall|k: int| 0 <= k < s.len() ==> lt(#[trigger] s[k], x) || lt(x, s[k]),
        forall|i: int, j: int|
            0 <= i < j < s.len() && lt(x, #[trigger] s[i]) ==> lt(x, #[trigger] s[j]),
    ensures
        0 <= lower_by(s, x, lt) <= s.len(),
        forall|k: int| 0 <= k < lower_by(s, x, lt) ==> lt(#[trigger] s[k], x),
        forall|k: int| lower_by(s, x, lt) <= k < s.len() ==> lt(x, #[trigger] s[k]),
    decreases s.len(),
{
    if s.len() == 0 {
    } else if !lt(s[0], x) {
        assert forall|k: int| 0 <= k < s.len() implies lt(x, #[trigger] s[k]) by {
            assert(lt(x, s[0]));
        }
    } else {
        let rest = s.drop_first();
        assert forall|k: int| 0 <= k < rest.len() implies lt(#[trigger] rest[k], x) || lt(
            x,
            rest[k],
        ) by {
            assert(rest[k] == s[k + 1]);
        }
        assert forall|i: int, j: int| 0 <= i < j < rest.len() && lt(x, #[trigger] rest[i]) implies lt(
            x,
            #[trigger] rest[j],
        ) by {
            assert(rest[i] == s[i + 1] && rest[j] == s[j + 1]);
        }
        lemma_lower_by(rest, x, lt);
        let p = lower_by(s, x, lt);
        assert forall|k: int| 0 <= k < p implies lt(#[trigger] s[k], x) by {
            if k > 0 {
                assert(s[k] == rest[k - 1]);
            }
        }
        assert forall|k: int| p <= k < s.len() implies lt(x, #[trigger] s[k]) by {
            assert(s[k] == rest[k - 1]);
        }
    }
}

} // verus!
