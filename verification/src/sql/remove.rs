//! Removing and renaming tags and tag groups, with what hangs on them.

use crate::err::StoreError;
use crate::sql::model::{
    count_links, file_ids, find_first, group_ids, group_names, group_rel, lemma_find_first,
    member_rel, step_exists, tag_ids, tag_names, tag_rel, GroupRowView, Member, PinId, StoreView,
};
use crate::sql::mutate::{lemma_insert_keeps, lex_lt_names};
use crate::sql::query::contains_id;
use crate::sql::tables::{
    lemma_filter_part, lemma_lower_len, lemma_pairwise_filter, lemma_pairwise_insert,
    lemma_pairwise_remove, lower_len,
};
use crate::sql::types::{tag_rows, Tag, TagView};
use crate::sql::{group_row_views, pin_views, Store};
use crate::text::str_eq;
use crate::types::Micros;
use vstd::prelude::*;

verus! {

/// Which memberships a removal takes: those in one of the given groups,
/// or in any group where none is given, that are memberships of one of
/// the given tags, or of any tag where none is given.
pub open spec fn member_taken(gids: Option<Seq<i64>>, tids: Option<Seq<i64>>) -> spec_fn(
    Member,
) -> bool {
    |m: Member|
        (gids is None || gids->0.contains(m.tg_id)) && (tids is None || tids->0.contains(m.tag_id))
}

/// Which memberships a removal leaves.
pub open spec fn member_left(gids: Option<Seq<i64>>, tids: Option<Seq<i64>>) -> spec_fn(
    Member,
) -> bool {
    |m: Member| !member_taken(gids, tids)(m)
}

/// Which pins stay when a row goes: those that do not hold its step.
pub open spec fn pin_left(step: PinId) -> spec_fn(Seq<PinId>) -> bool {
    |p: Seq<PinId>| !p.contains(step)
}

impl StoreView {
    /// The store without the memberships that the removal takes.
    pub open spec fn without_members(self, gids: Option<Seq<i64>>, tids: Option<Seq<i64>>) -> StoreView {
        StoreView { members: self.members.filter(member_left(gids, tids)), ..self }
    }

    /// The store without the pins that hold the step.
    pub open spec fn without_pins_of(self, step: PinId) -> StoreView {
        StoreView { pins: self.pins.filter(pin_left(step)), ..self }
    }

    /// The store without the tag of the given name and without what hangs
    /// on it: its links, its memberships, the pins that go through it.
    pub open spec fn without_tag(self, name: Seq<char>) -> StoreView {
        match find_first(tag_names(self.tags), name) {
            Some(i) => {
                let id = self.tags[i].id;
                let cut = self.without_links(None, Some(seq![id])).without_members(
                    None,
                    Some(seq![id]),
                ).without_pins_of(PinId::Tag(id));
                StoreView { tags: cut.tags.remove(i), ..cut }
            },
            None => self,
        }
    }

    /// The store without the tag group of the given name and without what
    /// hangs on it: its memberships, the pins that go through it.
    pub open spec fn without_group(self, name: Seq<char>) -> StoreView {
        match find_first(group_names(self.groups), name) {
            Some(i) => {
                let id = self.groups[i].id;
                let cut = self.without_members(Some(seq![id]), None).without_pins_of(
                    PinId::Group(id),
                );
                StoreView { groups: cut.groups.remove(i), ..cut }
            },
            None => self,
        }
    }

    /// What renaming a tag does: a missing tag changes nothing; a name
    /// that another tag has is refused; else the tag moves to the place
    /// of its new name. The tag of the new name is touched.
    pub open spec fn renamed_tag(self, old_tag: Seq<char>, new_tag: Seq<char>, now: Micros) -> Result<
        StoreView,
        StoreError,
    > {
        match find_first(tag_names(self.tags), old_tag) {
            None => Ok(self.touch_tag(new_tag, now).with_root(now)),
            Some(i) => if old_tag == new_tag {
                Ok(self.touch_tag(new_tag, now).with_root(now))
            } else if self.tag_named(new_tag) is Some {
                Err(StoreError::Constraint)
            } else {
                let rest = self.tags.remove(i);
                Ok(
                    StoreView {
                        tags: rest.insert(
                            lower_len(tag_names(rest), new_tag),
                            TagView { name: new_tag, mtime: now, ..self.tags[i] },
                        ),
                        root_mtime: now,
                        ..self
                    },
                )
            },
        }
    }

    /// What renaming a tag group does.
    pub open spec fn renamed_group(
        self,
        old_name: Seq<char>,
        new_name: Seq<char>,
        now: Micros,
    ) -> Result<StoreView, StoreError> {
        match find_first(group_names(self.groups), old_name) {
            None => Ok(self.touch_group(new_name, now).with_root(now)),
            Some(i) => if old_name == new_name {
                Ok(self.touch_group(new_name, now).with_root(now))
            } else if self.group_named(new_name) is Some {
                Err(StoreError::Constraint)
            } else {
                let rest = self.groups.remove(i);
                Ok(
                    StoreView {
                        groups: rest.insert(
                            lower_len(group_names(rest), new_name),
                            GroupRowView { name: new_name, mtime: now, ..self.groups[i] },
                        ),
                        root_mtime: now,
                        ..self
                    },
                )
            },
        }
    }
}

/// A table without one row still holds every other item it held.
pub proof fn lemma_remove_keeps<T>(s: Seq<T>, p: int, y: T)
    requires
        0 <= p < s.len(),
        s.contains(y),
        y != s[p],
    ensures
        s.remove(p).contains(y),
{
    let i = choose|i: int| 0 <= i < s.len() && s[i] == y;
    if i < p {
        assert(s.remove(p)[i] == y);
    } else {
        assert(s.remove(p)[i - 1] == y);
    }
}

/// Removing memberships leaves the store well formed.
pub proof fn lemma_without_members_wf(s: StoreView, gids: Option<Seq<i64>>, tids: Option<Seq<i64>>)
    requires
        s.wf(),
    ensures
        s.without_members(gids, tids).wf(),
        forall|k: int|
            0 <= k < s.without_members(gids, tids).members.len() ==> !member_taken(gids, tids)(
                #[trigger] s.without_members(gids, tids).members[k],
            ),
{
    let keep = member_left(gids, tids);
    let t = s.without_members(gids, tids);
    lemma_pairwise_filter(s.members, keep, member_rel());
    let at = lemma_filter_part(s.members, keep);
    assert forall|i: int| 0 <= i < t.members.len() implies group_ids(t.groups).contains(
        (#[trigger] t.members[i]).tg_id,
    ) && tag_ids(t.tags).contains(t.members[i].tag_id) by {
        assert(t.members[i] == s.members[at(i)]);
    }
}

/// Removing pins leaves the store well formed.
pub proof fn lemma_without_pins_wf(s: StoreView, step: PinId)
    requires
        s.wf(),
    ensures
        s.without_pins_of(step).wf(),
        forall|k: int|
            0 <= k < s.without_pins_of(step).pins.len() ==> !(
            #[trigger] s.without_pins_of(step).pins[k]).contains(step),
{
    let keep = pin_left(step);
    let t = s.without_pins_of(step);
    let at = lemma_filter_part(s.pins, keep);
    assert forall|i: int, k: int| 0 <= i < t.pins.len() && 0 <= k < t.pins[i].len() implies step_exists(
        #[trigger] t.pins[i][k],
        t.tags,
        t.groups,
    ) by {
        assert(t.pins[i] == s.pins[at(i)]);
        assert(step_exists(s.pins[at(i)][k], s.tags, s.groups));
    }
}

/// After removing links, none that the removal takes is left.
pub proof fn lemma_without_links_none(s: StoreView, fids: Option<Seq<i64>>, tids: Option<Seq<i64>>)
    ensures
        forall|k: int|
            0 <= k < s.without_links(fids, tids).links.len() ==> !crate::sql::mutate::taken(
                fids,
                tids,
            )(#[trigger] s.without_links(fids, tids).links[k]),
{
    let _ = lemma_filter_part(s.links, crate::sql::mutate::left(fids, tids));
}

/// Removing a tag to which nothing refers leaves the store well formed.
pub proof fn lemma_remove_tag_row_wf(s: StoreView, i: int)
    requires
        s.wf(),
        0 <= i < s.tags.len(),
        forall|k: int| 0 <= k < s.links.len() ==> (#[trigger] s.links[k]).tag_id != s.tags[i].id,
        forall|k: int| 0 <= k < s.members.len() ==> (#[trigger] s.members[k]).tag_id != s.tags[i].id,
        forall|k: int|
            0 <= k < s.pins.len() ==> !(#[trigger] s.pins[k]).contains(PinId::Tag(s.tags[i].id)),
    ensures
        (StoreView { tags: s.tags.remove(i), ..s }).wf(),
{
    let t = StoreView { tags: s.tags.remove(i), ..s };
    let ids = tag_ids(s.tags);
    let id = s.tags[i].id;
    lemma_pairwise_remove(s.tags, i, tag_rel());
    assert(tag_ids(t.tags) =~= ids.remove(i));
    assert(ids[i] == id);
    assert forall|k: int| 0 <= k < t.links.len() implies file_ids(t.files).contains(
        (#[trigger] t.links[k]).file_id,
    ) && tag_ids(t.tags).contains(t.links[k].tag_id) by {
        lemma_remove_keeps(ids, i, s.links[k].tag_id);
    }
    assert forall|k: int| 0 <= k < t.members.len() implies group_ids(t.groups).contains(
        (#[trigger] t.members[k]).tg_id,
    ) && tag_ids(t.tags).contains(t.members[k].tag_id) by {
        lemma_remove_keeps(ids, i, s.members[k].tag_id);
    }
    assert forall|a: int, k: int| 0 <= a < t.pins.len() && 0 <= k < t.pins[a].len() implies step_exists(
        #[trigger] t.pins[a][k],
        t.tags,
        t.groups,
    ) by {
        assert(step_exists(s.pins[a][k], s.tags, s.groups));
        match s.pins[a][k] {
            PinId::Tag(x) => {
                assert(s.pins[a].contains(s.pins[a][k]));
                lemma_remove_keeps(ids, i, x);
            },
            PinId::Group(x) => {},
        }
    }
    assert forall|k: int| 0 <= k < t.tags.len() implies (#[trigger] t.tags[k]).num_files
        == count_links(t.links, t.tags[k].id) by {
        if k < i {
            assert(t.tags[k] == s.tags[k]);
        } else {
            assert(t.tags[k] == s.tags[k + 1]);
        }
    }
}

/// Removing a tag group to which nothing refers leaves the store well
/// formed.
pub proof fn lemma_remove_group_row_wf(s: StoreView, i: int)
    requires
        s.wf(),
        0 <= i < s.groups.len(),
        forall|k: int|
            0 <= k < s.members.len() ==> (#[trigger] s.members[k]).tg_id != s.groups[i].id,
        forall|k: int|
            0 <= k < s.pins.len() ==> !(#[trigger] s.pins[k]).contains(
                PinId::Group(s.groups[i].id),
            ),
    ensures
        (StoreView { groups: s.groups.remove(i), ..s }).wf(),
{
    let t = StoreView { groups: s.groups.remove(i), ..s };
    let ids = group_ids(s.groups);
    let id = s.groups[i].id;
    lemma_pairwise_remove(s.groups, i, group_rel());
    assert(group_ids(t.groups) =~= ids.remove(i));
    assert(ids[i] == id);
    assert forall|k: int| 0 <= k < t.members.len() implies group_ids(t.groups).contains(
        (#[trigger] t.members[k]).tg_id,
    ) && tag_ids(t.tags).contains(t.members[k].tag_id) by {
        lemma_remove_keeps(ids, i, s.members[k].tg_id);
    }
    assert forall|a: int, k: int| 0 <= a < t.pins.len() && 0 <= k < t.pins[a].len() implies step_exists(
        #[trigger] t.pins[a][k],
        t.tags,
        t.groups,
    ) by {
        assert(step_exists(s.pins[a][k], s.tags, s.groups));
        match s.pins[a][k] {
            PinId::Tag(x) => {},
            PinId::Group(x) => {
                assert(s.pins[a].contains(s.pins[a][k]));
                lemma_remove_keeps(ids, i, x);
            },
        }
    }
}

/// A tag under a new name that no tag has leaves the store well formed.
pub proof fn lemma_renamed_tag_wf(s: StoreView, i: int, new_tag: Seq<char>, now: Micros)
    requires
        s.wf(),
        0 <= i < s.tags.len(),
        s.tag_named(new_tag) is None,
    ensures
        (StoreView {
            tags: s.tags.remove(i).insert(
                lower_len(tag_names(s.tags.remove(i)), new_tag),
                TagView { name: new_tag, mtime: now, ..s.tags[i] },
            ),
            ..s
        }).wf(),
{
    let rest = s.tags.remove(i);
    let names = tag_names(rest);
    let p = lower_len(names, new_tag);
    let row = TagView { name: new_tag, mtime: now, ..s.tags[i] };
    let t = StoreView { tags: rest.insert(p, row), ..s };
    lemma_find_first(tag_names(s.tags), new_tag);
    lemma_pairwise_remove(s.tags, i, tag_rel());
    assert forall|a: int, b: int| 0 <= a < b < names.len() implies lex_lt_names(names, a, b) by {
        assert(tag_rel()(rest[a], rest[b]));
    }
    assert(!names.contains(new_tag)) by {
        if names.contains(new_tag) {
            let k = choose|k: int| 0 <= k < names.len() && names[k] == new_tag;
            if k < i {
                assert(tag_names(s.tags)[k] == new_tag);
            } else {
                assert(tag_names(s.tags)[k + 1] == new_tag);
            }
        }
    }
    lemma_lower_len(names, new_tag);
    assert forall|k: int| 0 <= k < rest.len() implies (#[trigger] rest[k]).id != row.id by {
        if k < i {
            assert(tag_rel()(s.tags[k], s.tags[i]));
        } else {
            assert(tag_rel()(s.tags[i], s.tags[k + 1]));
        }
    }
    assert forall|k: int| 0 <= k < p implies tag_rel()(#[trigger] rest[k], row) by {
        assert(names[k] == rest[k].name);
    }
    assert forall|k: int| p <= k < rest.len() implies tag_rel()(row, #[trigger] rest[k]) by {
        assert(names[k] == rest[k].name);
    }
    lemma_pairwise_insert(rest, p, row, tag_rel());
    let ids = tag_ids(s.tags);
    let ids2 = tag_ids(t.tags);
    assert(ids2 =~= ids.remove(i).insert(p, row.id));
    assert(ids[i] == row.id);
    assert forall|x: i64| ids.contains(x) implies ids2.contains(x) by {
        if x == row.id {
            assert(ids2[p] == x);
        } else {
            lemma_remove_keeps(ids, i, x);
            lemma_insert_keeps(ids.remove(i), p, row.id, x);
        }
    }
    assert forall|k: int| 0 <= k < t.links.len() implies file_ids(t.files).contains(
        (#[trigger] t.links[k]).file_id,
    ) && ids2.contains(t.links[k].tag_id) by {
        assert(ids.contains(s.links[k].tag_id));
    }
    assert forall|k: int| 0 <= k < t.members.len() implies group_ids(t.groups).contains(
        (#[trigger] t.members[k]).tg_id,
    ) && ids2.contains(t.members[k].tag_id) by {
        assert(ids.contains(s.members[k].tag_id));
    }
    assert forall|a: int, k: int| 0 <= a < t.pins.len() && 0 <= k < t.pins[a].len() implies step_exists(
        #[trigger] t.pins[a][k],
        t.tags,
        t.groups,
    ) by {
        assert(step_exists(s.pins[a][k], s.tags, s.groups));
    }
    assert forall|k: int| 0 <= k < t.tags.len() implies (#[trigger] t.tags[k]).num_files
        == count_links(t.links, t.tags[k].id) by {
        if k == p {
        } else {
            let r = if k < p {
                k
            } else {
                k - 1
            };
            assert(t.tags[k] == rest[r]);
            if r < i {
                assert(rest[r] == s.tags[r]);
            } else {
                assert(rest[r] == s.tags[r + 1]);
            }
        }
    }
}

/// A tag group under a new name that no group has leaves the store well
/// formed.
pub proof fn lemma_renamed_group_wf(s: StoreView, i: int, new_name: Seq<char>, now: Micros)
    requires
        s.wf(),
        0 <= i < s.groups.len(),
        s.group_named(new_name) is None,
    ensures
        (StoreView {
            groups: s.groups.remove(i).insert(
                lower_len(group_names(s.groups.remove(i)), new_name),
                GroupRowView { name: new_name, mtime: now, ..s.groups[i] },
            ),
            ..s
        }).wf(),
{
    let rest = s.groups.remove(i);
    let names = group_names(rest);
    let p = lower_len(names, new_name);
    let row = GroupRowView { name: new_name, mtime: now, ..s.groups[i] };
    let t = StoreView { groups: rest.insert(p, row), ..s };
    lemma_find_first(group_names(s.groups), new_name);
    lemma_pairwise_remove(s.groups, i, group_rel());
    assert forall|a: int, b: int| 0 <= a < b < names.len() implies lex_lt_names(names, a, b) by {
        assert(group_rel()(rest[a], rest[b]));
    }
    assert(!names.contains(new_name)) by {
        if names.contains(new_name) {
            let k = choose|k: int| 0 <= k < names.len() && names[k] == new_name;
            if k < i {
                assert(group_names(s.groups)[k] == new_name);
            } else {
                assert(group_names(s.groups)[k + 1] == new_name);
            }
        }
    }
    lemma_lower_len(names, new_name);
    assert forall|k: int| 0 <= k < rest.len() implies (#[trigger] rest[k]).id != row.id by {
        if k < i {
            assert(group_rel()(s.groups[k], s.groups[i]));
        } else {
            assert(group_rel()(s.groups[i], s.groups[k + 1]));
        }
    }
    assert forall|k: int| 0 <= k < p implies group_rel()(#[trigger] rest[k], row) by {
        assert(names[k] == rest[k].name);
    }
    assert forall|k: int| p <= k < rest.len() implies group_rel()(row, #[trigger] rest[k]) by {
        assert(names[k] == rest[k].name);
    }
    lemma_pairwise_insert(rest, p, row, group_rel());
    let ids = group_ids(s.groups);
    let ids2 = group_ids(t.groups);
    assert(ids2 =~= ids.remove(i).insert(p, row.id));
    assert(ids[i] == row.id);
    assert forall|x: i64| ids.contains(x) implies ids2.contains(x) by {
        if x == row.id {
            assert(ids2[p] == x);
        } else {
            lemma_remove_keeps(ids, i, x);
            lemma_insert_keeps(ids.remove(i), p, row.id, x);
        }
    }
    assert forall|k: int| 0 <= k < t.members.len() implies ids2.contains(
        (#[trigger] t.members[k]).tg_id,
    ) && tag_ids(t.tags).contains(t.members[k].tag_id) by {
        assert(ids.contains(s.members[k].tg_id));
    }
    assert forall|a: int, k: int| 0 <= a < t.pins.len() && 0 <= k < t.pins[a].len() implies step_exists(
        #[trigger] t.pins[a][k],
        t.tags,
        t.groups,
    ) by {
        assert(step_exists(s.pins[a][k], s.tags, s.groups));
    }
}

/// Whether the pin holds the step.
pub fn pin_has(pin: &[PinId], step: PinId) -> (r: bool)
    ensures
        r == pin@.contains(step),
{
    let mut i: usize = 0;
    while i < pin.len()
        invariant
            i <= pin.len(),
            forall|j: int| 0 <= j < i ==> pin@[j] != step,
        decreases pin.len() - i,
    {
        if pin[i] == step {
            return true;
        }
        i += 1;
    }
    false
}

impl Store {
    /// Removes the memberships that the removal takes.
    pub fn drop_members(&mut self, gids: Option<&Vec<i64>>, tids: Option<&Vec<i64>>)
        requires
            old(self)@.wf(),
        ensures
            final(self)@ == old(self)@.without_members(
                crate::sql::mutate::id_seq(gids),
                crate::sql::mutate::id_seq(tids),
            ),
            final(self)@.wf(),
    {
        let ghost keep = member_left(
            crate::sql::mutate::id_seq(gids),
            crate::sql::mutate::id_seq(tids),
        );
        let mut kept: Vec<Member> = Vec::new();
        let mut i: usize = 0;
        proof {
            reveal(Seq::filter);
        }
        assert(self.members@.take(0).filter(keep) =~= Seq::<Member>::empty());
        while i < self.members.len()
            invariant
                i <= self.members.len(),
                keep == member_left(
                    crate::sql::mutate::id_seq(gids),
                    crate::sql::mutate::id_seq(tids),
                ),
                kept@ == self.members@.take(i as int).filter(keep),
            decreases self.members.len() - i,
        {
            assert(self.members@.take(i + 1).drop_last() =~= self.members@.take(i as int));
            proof {
                reveal(Seq::filter);
            }
            let m = self.members[i];
            let by_group = match gids {
                Some(ids) => contains_id(ids.as_slice(), m.tg_id),
                None => true,
            };
            let by_tag = match tids {
                Some(ids) => contains_id(ids.as_slice(), m.tag_id),
                None => true,
            };
            if !(by_group && by_tag) {
                kept.push(m);
            }
            i += 1;
        }
        assert(self.members@.take(self.members.len() as int) =~= self.members@);
        proof {
            lemma_without_members_wf(
                old(self)@,
                crate::sql::mutate::id_seq(gids),
                crate::sql::mutate::id_seq(tids),
            );
        }
        self.members = kept;
    }

    /// Removes the pins that hold the step.
    pub fn drop_pins_of(&mut self, step: PinId)
        requires
            old(self)@.wf(),
        ensures
            final(self)@ == old(self)@.without_pins_of(step),
            final(self)@.wf(),
    {
        let ghost keep = pin_left(step);
        let ghost all = pin_views(self.pins@);
        let mut kept: Vec<Vec<PinId>> = Vec::new();
        let mut i: usize = 0;
        proof {
            reveal(Seq::filter);
        }
        assert(all.take(0).filter(keep) =~= Seq::<Seq<PinId>>::empty());
        assert(pin_views(kept@) =~= Seq::<Seq<PinId>>::empty());
        while i < self.pins.len()
            invariant
                i <= self.pins.len(),
                keep == pin_left(step),
                all == pin_views(self.pins@),
                pin_views(kept@) == all.take(i as int).filter(keep),
            decreases self.pins.len() - i,
        {
            assert(all.take(i + 1).drop_last() =~= all.take(i as int));
            assert(all.take(i + 1).last() == self.pins@[i as int]@);
            proof {
                reveal(Seq::filter);
            }
            let ghost before = pin_views(kept@);
            if !pin_has(self.pins[i].as_slice(), step) {
                let copy = self.pins[i].clone();
                assert(copy@ =~= self.pins@[i as int]@);
                kept.push(copy);
                assert(pin_views(kept@) =~= before.push(self.pins@[i as int]@));
            }
            i += 1;
        }
        assert(all.take(self.pins.len() as int) =~= all);
        proof {
            lemma_without_pins_wf(old(self)@, step);
        }
        self.pins = kept;
    }

    /// Removes a tag and what hangs on it: its links, its memberships and
    /// the pins that go through it. Without `immediate`, only its links
    /// go and the tag stays.
    pub fn remove_tag(&mut self, tag: &str, now: Micros, immediate: bool)
        requires
            old(self)@.wf(),
        ensures
            final(self)@.wf(),
            immediate ==> final(self)@ == old(self)@.without_tag(tag@).with_root(now),
            !immediate ==> final(self)@ == (match old(self)@.tag_named(tag@) {
                Some(t) => old(self)@.without_links(None, Some(seq![t.id])),
                None => old(self)@,
            }).with_root(now),
    {
        match self.find_tag(tag) {
            Some(i) => {
                let id = self.tags[i].id;
                let ids: Vec<i64> = vec![id];
                assert(ids@ =~= seq![id]);
                self.drop_links(None, Some(&ids));
                proof {
                    lemma_without_links_none(old(self)@, None, Some(seq![id]));
                    assert(seq![id].contains(id)) by {
                        assert(seq![id][0] == id);
                    }
                }
                if immediate {
                    self.drop_members(None, Some(&ids));
                    proof {
                        lemma_without_members_wf(
                            old(self)@.without_links(None, Some(seq![id])),
                            None,
                            Some(seq![id]),
                        );
                    }
                    self.drop_pins_of(PinId::Tag(id));
                    proof {
                        lemma_without_pins_wf(
                            old(self)@.without_links(None, Some(seq![id])).without_members(
                                None,
                                Some(seq![id]),
                            ),
                            PinId::Tag(id),
                        );
                        assert(self@.tags[i as int].id == id);
                        lemma_remove_tag_row_wf(self@, i as int);
                    }
                    self.tags.remove(i);
                    assert(self@.tags =~= old(self)@.without_tag(tag@).tags);
                }
                self.root_mtime = now;
            },
            None => {
                self.root_mtime = now;
            },
        }
    }

    /// Removes a tag group, its memberships and the pins that go through
    /// it. The tags stay.
    pub fn remove_taggroup(&mut self, group: &str, now: Micros)
        requires
            old(self)@.wf(),
        ensures
            final(self)@.wf(),
            final(self)@ == old(self)@.without_group(group@).with_root(now),
    {
        match self.find_group(group) {
            Some(i) => {
                let id = self.groups[i].id;
                let ids: Vec<i64> = vec![id];
                assert(ids@ =~= seq![id]);
                assert(seq![id].contains(id)) by {
                    assert(seq![id][0] == id);
                }
                self.drop_members(Some(&ids), None);
                proof {
                    lemma_without_members_wf(old(self)@, Some(seq![id]), None);
                }
                self.drop_pins_of(PinId::Group(id));
                proof {
                    lemma_without_pins_wf(
                        old(self)@.without_members(Some(seq![id]), None),
                        PinId::Group(id),
                    );
                    assert(self@.groups[i as int].id == id);
                    lemma_remove_group_row_wf(self@, i as int);
                }
                self.groups.remove(i);
                assert(self@.groups =~= old(self)@.without_group(group@).groups);
                self.root_mtime = now;
            },
            None => {
                self.root_mtime = now;
            },
        }
    }

    /// Renames a tag. Fails, leaving the store as it was, where another
    /// tag has the new name.
    pub fn rename_tag(&mut self, old_tag: &str, new_tag: &str, now: Micros) -> (r: Result<
        (),
        StoreError,
    >)
        requires
            old(self)@.wf(),
        ensures
            final(self)@.wf(),
            match r {
                Ok(_) => old(self)@.renamed_tag(old_tag@, new_tag@, now) == Ok::<
                    StoreView,
                    StoreError,
                >(final(self)@),
                Err(e) => old(self)@.renamed_tag(old_tag@, new_tag@, now) == Err::<
                    StoreView,
                    StoreError,
                >(e) && final(self)@ == old(self)@,
            },
    {
        match self.find_tag(old_tag) {
            None => {
                self.update_tag_mtime(new_tag, now);
                self.root_mtime = now;
                Ok(())
            },
            Some(i) => {
                if str_eq(old_tag, new_tag) {
                    self.update_tag_mtime(new_tag, now);
                    self.root_mtime = now;
                    return Ok(());
                }
                if self.find_tag(new_tag).is_some() {
                    return Err(StoreError::Constraint);
                }
                proof {
                    lemma_renamed_tag_wf(self@, i as int, new_tag@, now);
                }
                let mut row = self.tags.remove(i);
                row.name = String::from_str(new_tag);
                row.mtime = now;
                assert(tag_rows(self.tags@) =~= old(self)@.tags.remove(i as int));
                let p = self.tag_insert_pos_of(new_tag);
                self.tags.insert(p, row);
                self.root_mtime = now;
                assert(final(self)@.tags =~= old(self)@.tags.remove(i as int).insert(
                    p as int,
                    TagView { name: new_tag@, mtime: now, ..old(self)@.tags[i as int] },
                ));
                Ok(())
            },
        }
    }

    /// Renames a tag group. Fails, leaving the store as it was, where
    /// another group has the new name.
    pub fn rename_tag_group(&mut self, old_name: &str, new_name: &str, now: Micros) -> (r: Result<
        (),
        StoreError,
    >)
        requires
            old(self)@.wf(),
        ensures
            final(self)@.wf(),
            match r {
                Ok(_) => old(self)@.renamed_group(old_name@, new_name@, now) == Ok::<
                    StoreView,
                    StoreError,
                >(final(self)@),
                Err(e) => old(self)@.renamed_group(old_name@, new_name@, now) == Err::<
                    StoreView,
                    StoreError,
                >(e) && final(self)@ == old(self)@,
            },
    {
        match self.find_group(old_name) {
            None => {
                self.update_tag_group_mtime(new_name, now);
                self.root_mtime = now;
                Ok(())
            },
            Some(i) => {
                if str_eq(old_name, new_name) {
                    self.update_tag_group_mtime(new_name, now);
                    self.root_mtime = now;
                    return Ok(());
                }
                if self.find_group(new_name).is_some() {
                    return Err(StoreError::Constraint);
                }
                proof {
                    lemma_renamed_group_wf(self@, i as int, new_name@, now);
                }
                let mut row = self.groups.remove(i);
                row.name = String::from_str(new_name);
                row.mtime = now;
                assert(group_row_views(self.groups@) =~= old(self)@.groups.remove(i as int));
                let p = self.group_insert_pos_of(new_name);
                self.groups.insert(p, row);
                self.root_mtime = now;
                assert(final(self)@.groups =~= old(self)@.groups.remove(i as int).insert(
                    p as int,
                    GroupRowView { name: new_name@, mtime: now, ..old(self)@.groups[i as int] },
                ));
                Ok(())
            },
        }
    }
}

} // verus!
