//! The changes of the store: what each does to the tables, and the proof
//! that each leaves them well formed.

use crate::err::StoreError;
use crate::sql::model::{
    count_links, file_ids, find_first, group_ids, group_names, group_rel, is_member,
    lemma_find_first, link_rel, linked, links_refer, member_rel, members_refer, pins_refer,
    step_exists, tag_ids, tag_names, tag_rel, GroupRowView, Link, Member, PinId, StoreView,
};
use crate::sql::tables::{
    lemma_lower_len, lemma_max_id, lemma_pairwise_insert, lower_len, max_id, pairwise,
};
use crate::sql::types::{Tag, TagView};
use crate::sql::{GroupRow, Store};
use crate::text::str_lt;
use crate::types::file_perms::Permissions;
use crate::types::Micros;
use vstd::prelude::*;

verus! {

impl StoreView {
    /// The store, last changed at `now`.
    pub open spec fn with_root(self, now: Micros) -> StoreView {
        StoreView { root_mtime: now, ..self }
    }

    /// The store with the tag of the given name last changed at `now`.
    pub open spec fn touch_tag(self, name: Seq<char>, now: Micros) -> StoreView {
        match find_first(tag_names(self.tags), name) {
            Some(i) => StoreView {
                tags: self.tags.update(i, TagView { mtime: now, ..self.tags[i] }),
                ..self
            },
            None => self,
        }
    }

    /// The store with the tag group of the given name last changed at
    /// `now`.
    pub open spec fn touch_group(self, name: Seq<char>, now: Micros) -> StoreView {
        match find_first(group_names(self.groups), name) {
            Some(i) => StoreView {
                groups: self.groups.update(i, GroupRowView { mtime: now, ..self.groups[i] }),
                ..self
            },
            None => self,
        }
    }

    /// The id that the next tag gets: one more than the greatest.
    pub open spec fn next_tag_id(self) -> int {
        max_id(tag_ids(self.tags)) + 1
    }

    /// The id that the next tag group gets.
    pub open spec fn next_group_id(self) -> int {
        max_id(group_ids(self.groups)) + 1
    }

    /// The store with a new tag, without files, at its place in name
    /// order.
    pub open spec fn with_new_tag(
        self,
        name: Seq<char>,
        uid: u32,
        gid: u32,
        permissions: Permissions,
        now: Micros,
    ) -> StoreView {
        StoreView {
            tags: self.tags.insert(
                lower_len(tag_names(self.tags), name),
                TagView {
                    id: self.next_tag_id() as i64,
                    name,
                    mtime: now,
                    uid,
                    gid,
                    permissions,
                    num_files: 0,
                },
            ),
            ..self
        }
    }

    /// The store with a new tag group, without members, at its place in
    /// name order.
    pub open spec fn with_new_group(
        self,
        name: Seq<char>,
        uid: u32,
        gid: u32,
        permissions: Permissions,
        now: Micros,
    ) -> StoreView {
        StoreView {
            groups: self.groups.insert(
                lower_len(group_names(self.groups), name),
                GroupRowView { id: self.next_group_id() as i64, name, mtime: now, uid, gid, permissions },
            ),
            ..self
        }
    }

    /// What making sure of a tag does: an existing tag is touched; a
    /// missing one is created, unless no id is left.
    pub open spec fn ensured_tag(
        self,
        name: Seq<char>,
        uid: u32,
        gid: u32,
        permissions: Permissions,
        now: Micros,
    ) -> Result<StoreView, StoreError> {
        if self.tag_named(name) is Some {
            Ok(self.touch_tag(name, now).with_root(now))
        } else if self.next_tag_id() > i64::MAX {
            Err(StoreError::Full)
        } else {
            Ok(self.with_new_tag(name, uid, gid, permissions, now).with_root(now))
        }
    }

    /// What making sure of a tag group does.
    pub open spec fn ensured_group(
        self,
        name: Seq<char>,
        uid: u32,
        gid: u32,
        permissions: Permissions,
        now: Micros,
    ) -> Result<StoreView, StoreError> {
        if self.group_named(name) is Some {
            Ok(self.touch_group(name, now).with_root(now))
        } else if self.next_group_id() > i64::MAX {
            Err(StoreError::Full)
        } else {
            Ok(self.with_new_group(name, uid, gid, permissions, now).with_root(now))
        }
    }

    /// What putting a tag into a tag group does: where both exist and the
    /// tag is no member yet, it becomes one.
    pub open spec fn with_member(
        self,
        tag: Seq<char>,
        group: Seq<char>,
        uid: u32,
        gid: u32,
        permissions: Permissions,
        now: Micros,
    ) -> StoreView {
        match (self.group_named(group), self.tag_named(tag)) {
            (Some(g), Some(t)) => if is_member(self.members, g.id, t.id) {
                self.with_root(now)
            } else {
                StoreView {
                    members: self.members.push(
                        Member { tg_id: g.id, tag_id: t.id, mtime: now, uid, gid, permissions },
                    ),
                    root_mtime: now,
                    ..self
                }
            },
            _ => self.with_root(now),
        }
    }
}

/// A table with one more row still holds every id it held.
pub proof fn lemma_insert_keeps<T>(s: Seq<T>, p: int, x: T, y: T)
    requires
        0 <= p <= s.len(),
        s.contains(y),
    ensures
        s.insert(p, x).contains(y),
        s.insert(p, x).contains(x),
{
    let i = choose|i: int| 0 <= i < s.len() && s[i] == y;
    if i < p {
        assert(s.insert(p, x)[i] == y);
    } else {
        assert(s.insert(p, x)[i + 1] == y);
    }
    assert(s.insert(p, x)[p] == x);
}

/// A tag without links counts none.
pub proof fn lemma_count_none(links: Seq<Link>, tag_id: i64)
    requires
        forall|k: int| 0 <= k < links.len() ==> (#[trigger] links[k]).tag_id != tag_id,
    ensures
        count_links(links, tag_id) == 0,
    decreases links.len(),
{
    reveal(Seq::filter);
    if links.len() > 0 {
        let t = links.drop_last();
        assert(forall|k: int| 0 <= k < t.len() ==> t[k] == links[k]);
        lemma_count_none(t, tag_id);
    }
}

/// A new tag leaves the store well formed.
pub proof fn lemma_new_tag_wf(
    s: StoreView,
    name: Seq<char>,
    uid: u32,
    gid: u32,
    permissions: Permissions,
    now: Micros,
)
    requires
        s.wf(),
        s.tag_named(name) is None,
        s.next_tag_id() <= i64::MAX,
    ensures
        s.with_new_tag(name, uid, gid, permissions, now).wf(),
{
    let names = tag_names(s.tags);
    let ids = tag_ids(s.tags);
    let p = lower_len(names, name);
    let t2 = s.with_new_tag(name, uid, gid, permissions, now);
    let row = t2.tags[p];
    lemma_find_first(names, name);
    lemma_max_id(ids);
    assert forall|i: int, j: int| 0 <= i < j < names.len() implies lex_lt_names(names, i, j) by {
        assert(tag_rel()(s.tags[i], s.tags[j]));
    }
    assert(!names.contains(name));
    lemma_lower_len(names, name);
    assert forall|k: int| 0 <= k < p implies tag_rel()(#[trigger] s.tags[k], row) by {
        assert(names[k] == s.tags[k].name);
        assert(ids[k] == s.tags[k].id);
    }
    assert forall|k: int| p <= k < s.tags.len() implies tag_rel()(row, #[trigger] s.tags[k]) by {
        assert(names[k] == s.tags[k].name);
        assert(ids[k] == s.tags[k].id);
    }
    lemma_pairwise_insert(s.tags, p, row, tag_rel());
    let ids2 = tag_ids(t2.tags);
    assert(ids2 =~= ids.insert(p, row.id));
    assert forall|i: int| 0 <= i < t2.links.len() implies file_ids(t2.files).contains(
        (#[trigger] t2.links[i]).file_id,
    ) && ids2.contains(t2.links[i].tag_id) by {
        lemma_insert_keeps(ids, p, row.id, s.links[i].tag_id);
    }
    assert forall|i: int| 0 <= i < t2.members.len() implies group_ids(t2.groups).contains(
        (#[trigger] t2.members[i]).tg_id,
    ) && ids2.contains(t2.members[i].tag_id) by {
        lemma_insert_keeps(ids, p, row.id, s.members[i].tag_id);
    }
    assert forall|i: int, k: int|
        0 <= i < t2.pins.len() && 0 <= k < t2.pins[i].len() implies step_exists(
        #[trigger] t2.pins[i][k],
        t2.tags,
        t2.groups,
    ) by {
        assert(step_exists(s.pins[i][k], s.tags, s.groups));
        match s.pins[i][k] {
            PinId::Tag(id) => {
                lemma_insert_keeps(ids, p, row.id, id);
            },
            PinId::Group(id) => {},
        }
    }
    assert forall|k: int| 0 <= k < s.links.len() implies (#[trigger] s.links[k]).tag_id
        != row.id by {
        let x = s.links[k].tag_id;
        assert(ids.contains(x));
        let i = choose|i: int| 0 <= i < ids.len() && ids[i] == x;
        assert(ids[i] <= max_id(ids));
    }
    lemma_count_none(s.links, row.id);
    assert forall|i: int| 0 <= i < t2.tags.len() implies (#[trigger] t2.tags[i]).num_files
        == count_links(t2.links, t2.tags[i].id) by {
        if i < p {
            assert(t2.tags[i] == s.tags[i]);
        } else if i > p {
            assert(t2.tags[i] == s.tags[i - 1]);
        }
    }
}

/// The names at two positions are in order.
pub open spec fn lex_lt_names(names: Seq<Seq<char>>, i: int, j: int) -> bool {
    crate::text::lex_lt(names[i], names[j])
}

/// A new tag group leaves the store well formed.
pub proof fn lemma_new_group_wf(
    s: StoreView,
    name: Seq<char>,
    uid: u32,
    gid: u32,
    permissions: Permissions,
    now: Micros,
)
    requires
        s.wf(),
        s.group_named(name) is None,
        s.next_group_id() <= i64::MAX,
    ensures
        s.with_new_group(name, uid, gid, permissions, now).wf(),
{
    let names = group_names(s.groups);
    let ids = group_ids(s.groups);
    let p = lower_len(names, name);
    let t2 = s.with_new_group(name, uid, gid, permissions, now);
    let row = t2.groups[p];
    lemma_find_first(names, name);
    lemma_max_id(ids);
    assert forall|i: int, j: int| 0 <= i < j < names.len() implies lex_lt_names(names, i, j) by {
        assert(group_rel()(s.groups[i], s.groups[j]));
    }
    assert(!names.contains(name));
    lemma_lower_len(names, name);
    assert forall|k: int| 0 <= k < p implies group_rel()(#[trigger] s.groups[k], row) by {
        assert(names[k] == s.groups[k].name);
        assert(ids[k] == s.groups[k].id);
    }
    assert forall|k: int| p <= k < s.groups.len() implies group_rel()(
        row,
        #[trigger] s.groups[k],
    ) by {
        assert(names[k] == s.groups[k].name);
        assert(ids[k] == s.groups[k].id);
    }
    lemma_pairwise_insert(s.groups, p, row, group_rel());
    let ids2 = group_ids(t2.groups);
    assert(ids2 =~= ids.insert(p, row.id));
    assert forall|i: int| 0 <= i < t2.members.len() implies ids2.contains(
        (#[trigger] t2.members[i]).tg_id,
    ) && tag_ids(t2.tags).contains(t2.members[i].tag_id) by {
        lemma_insert_keeps(ids, p, row.id, s.members[i].tg_id);
    }
    assert forall|i: int, k: int|
        0 <= i < t2.pins.len() && 0 <= k < t2.pins[i].len() implies step_exists(
        #[trigger] t2.pins[i][k],
        t2.tags,
        t2.groups,
    ) by {
        assert(step_exists(s.pins[i][k], s.tags, s.groups));
        match s.pins[i][k] {
            PinId::Tag(id) => {},
            PinId::Group(id) => {
                lemma_insert_keeps(ids, p, row.id, id);
            },
        }
    }
}

/// Two stores whose rows carry the same keys and counts, and whose links,
/// memberships and pins are the same, are well formed together.
pub proof fn lemma_same_keys_wf(s: StoreView, t: StoreView)
    requires
        s.wf(),
        t.tags.len() == s.tags.len(),
        forall|i: int|
            0 <= i < s.tags.len() ==> (#[trigger] t.tags[i]).id == s.tags[i].id && t.tags[i].name
                == s.tags[i].name && t.tags[i].num_files == s.tags[i].num_files,
        t.groups.len() == s.groups.len(),
        forall|i: int|
            0 <= i < s.groups.len() ==> (#[trigger] t.groups[i]).id == s.groups[i].id
                && t.groups[i].name == s.groups[i].name,
        t.files == s.files,
        t.links == s.links,
        t.members == s.members,
        t.pins == s.pins,
    ensures
        t.wf(),
{
    assert(tag_ids(t.tags) =~= tag_ids(s.tags));
    assert(group_ids(t.groups) =~= group_ids(s.groups));
    assert forall|i: int, j: int| 0 <= i < j < t.tags.len() implies tag_rel()(
        #[trigger] t.tags[i],
        #[trigger] t.tags[j],
    ) by {
        assert(tag_rel()(s.tags[i], s.tags[j]));
    }
    assert forall|i: int, j: int| 0 <= i < j < t.groups.len() implies group_rel()(
        #[trigger] t.groups[i],
        #[trigger] t.groups[j],
    ) by {
        assert(group_rel()(s.groups[i], s.groups[j]));
    }
    assert forall|i: int, k: int|
        0 <= i < t.pins.len() && 0 <= k < t.pins[i].len() implies step_exists(
        #[trigger] t.pins[i][k],
        t.tags,
        t.groups,
    ) by {
        assert(step_exists(s.pins[i][k], s.tags, s.groups));
    }
}

/// In a well-formed store the tag at a position is the tag of its name
/// and of its id.
pub proof fn lemma_tag_at(s: StoreView, p: int)
    requires
        s.wf(),
        0 <= p < s.tags.len(),
    ensures
        s.tag_named(s.tags[p].name) == Some(s.tags[p]),
        s.tag_by_id(s.tags[p].id) == Some(s.tags[p]),
        find_first(tag_names(s.tags), s.tags[p].name) == Some(p),
        find_first(tag_ids(s.tags), s.tags[p].id) == Some(p),
{
    let names = tag_names(s.tags);
    let ids = tag_ids(s.tags);
    assert forall|j: int| 0 <= j < p implies names[j] != s.tags[p].name && ids[j]
        != s.tags[p].id by {
        assert(tag_rel()(s.tags[j], s.tags[p]));
        crate::text::lemma_lex_irreflexive(s.tags[p].name);
    }
    crate::sql::model::lemma_find_first_is(names, s.tags[p].name, Some(p));
    crate::sql::model::lemma_find_first_is(ids, s.tags[p].id, Some(p));
}

/// In a well-formed store the tag group at a position is the group of its
/// name and of its id.
pub proof fn lemma_group_at(s: StoreView, p: int)
    requires
        s.wf(),
        0 <= p < s.groups.len(),
    ensures
        s.group_named(s.groups[p].name) == Some(s.groups[p]),
        s.group_by_id(s.groups[p].id) == Some(s.groups[p]),
        find_first(group_names(s.groups), s.groups[p].name) == Some(p),
        find_first(group_ids(s.groups), s.groups[p].id) == Some(p),
{
    let names = group_names(s.groups);
    let ids = group_ids(s.groups);
    assert forall|j: int| 0 <= j < p implies names[j] != s.groups[p].name && ids[j]
        != s.groups[p].id by {
        assert(group_rel()(s.groups[j], s.groups[p]));
        crate::text::lemma_lex_irreflexive(s.groups[p].name);
    }
    crate::sql::model::lemma_find_first_is(names, s.groups[p].name, Some(p));
    crate::sql::model::lemma_find_first_is(ids, s.groups[p].id, Some(p));
}

/// The greatest of the ids.
pub fn greatest_id(ids: &Vec<i64>) -> (m: i64)
    ensures
        m == max_id(ids@),
{
    let mut m: i64 = 0;
    let mut i: usize = 0;
    assert(ids@.take(0) =~= Seq::<i64>::empty());
    while i < ids.len()
        invariant
            i <= ids.len(),
            m == max_id(ids@.take(i as int)),
        decreases ids.len() - i,
    {
        assert(ids@.take(i + 1).drop_last() =~= ids@.take(i as int));
        if ids[i] > m {
            m = ids[i];
        }
        i += 1;
    }
    assert(ids@.take(ids.len() as int) =~= ids@);
    m
}

impl Store {
    /// The ids of the tags, in table order.
    pub fn tag_id_list(&self) -> (ids: Vec<i64>)
        ensures
            ids@ == tag_ids(self@.tags),
    {
        let mut ids: Vec<i64> = Vec::new();
        let mut i: usize = 0;
        while i < self.tags.len()
            invariant
                i <= self.tags.len(),
                ids@ =~= tag_ids(self@.tags).take(i as int),
            decreases self.tags.len() - i,
        {
            ids.push(self.tags[i].id);
            i += 1;
        }
        assert(tag_ids(self@.tags).take(self.tags.len() as int) =~= tag_ids(self@.tags));
        ids
    }

    /// The ids of the tag groups, in table order.
    pub fn group_id_list(&self) -> (ids: Vec<i64>)
        ensures
            ids@ == group_ids(self@.groups),
    {
        let mut ids: Vec<i64> = Vec::new();
        let mut i: usize = 0;
        while i < self.groups.len()
            invariant
                i <= self.groups.len(),
                ids@ =~= group_ids(self@.groups).take(i as int),
            decreases self.groups.len() - i,
        {
            ids.push(self.groups[i].id);
            i += 1;
        }
        assert(group_ids(self@.groups).take(self.groups.len() as int) =~= group_ids(
            self@.groups,
        ));
        ids
    }

    /// The position at which a tag of the given name enters the table.
    pub fn tag_insert_pos_of(&self, name: &str) -> (p: usize)
        ensures
            p == lower_len(tag_names(self@.tags), name@),
            p <= self.tags@.len(),
    {
        self.tag_insert_pos(name)
    }

    /// The position at which a tag group of the given name enters the
    /// table.
    pub fn group_insert_pos_of(&self, name: &str) -> (p: usize)
        ensures
            p == lower_len(group_names(self@.groups), name@),
            p <= self.groups@.len(),
    {
        self.group_insert_pos(name)
    }

    /// The position at which a tag of the given name enters the table.
    fn tag_insert_pos(&self, name: &str) -> (p: usize)
        ensures
            p == lower_len(tag_names(self@.tags), name@),
            p <= self.tags@.len(),
    {
        let ghost names = tag_names(self@.tags);
        let mut i: usize = 0;
        assert(names.skip(0) =~= names);
        while i < self.tags.len() && str_lt(self.tags[i].name.as_str(), name)
            invariant
                i <= self.tags.len(),
                names == tag_names(self@.tags),
                lower_len(names, name@) == i + lower_len(names.skip(i as int), name@),
            decreases self.tags.len() - i,
        {
            assert(names.skip(i as int)[0] == self.tags@[i as int].name@);
            assert(names.skip(i as int).drop_first() =~= names.skip(i + 1));
            i += 1;
        }
        assert(i < self.tags.len() ==> names.skip(i as int)[0] == self.tags@[i as int].name@);
        i
    }

    /// The position at which a tag group of the given name enters the
    /// table.
    fn group_insert_pos(&self, name: &str) -> (p: usize)
        ensures
            p == lower_len(group_names(self@.groups), name@),
            p <= self.groups@.len(),
    {
        let ghost names = group_names(self@.groups);
        let mut i: usize = 0;
        assert(names.skip(0) =~= names);
        while i < self.groups.len() && str_lt(self.groups[i].name.as_str(), name)
            invariant
                i <= self.groups.len(),
                names == group_names(self@.groups),
                lower_len(names, name@) == i + lower_len(names.skip(i as int), name@),
            decreases self.groups.len() - i,
        {
            assert(names.skip(i as int)[0] == self.groups@[i as int].name@);
            assert(names.skip(i as int).drop_first() =~= names.skip(i + 1));
            i += 1;
        }
        assert(i < self.groups.len() ==> names.skip(i as int)[0] == self.groups@[i as int].name@);
        i
    }

    /// Sets the time of the last change.
    pub fn update_root_mtime(&mut self, now: Micros)
        requires
            old(self)@.wf(),
        ensures
            final(self)@ == old(self)@.with_root(now),
            final(self)@.wf(),
    {
        self.root_mtime = now;
    }

    /// Sets the time of the last change of a tag.
    pub fn update_tag_mtime(&mut self, tag: &str, now: Micros)
        requires
            old(self)@.wf(),
        ensures
            final(self)@ == old(self)@.touch_tag(tag@, now),
            final(self)@.wf(),
    {
        match self.find_tag(tag) {
            Some(i) => {
                let mut row = self.tags[i].clone();
                row.mtime = now;
                self.tags.set(i, row);
                assert(final(self)@.tags =~= old(self)@.tags.update(
                    i as int,
                    TagView { mtime: now, ..old(self)@.tags[i as int] },
                ));
                proof {
                    lemma_same_keys_wf(old(self)@, final(self)@);
                }
            },
            None => {},
        }
    }

    /// Sets the time of the last change of a tag group.
    pub fn update_tag_group_mtime(&mut self, name: &str, now: Micros)
        requires
            old(self)@.wf(),
        ensures
            final(self)@ == old(self)@.touch_group(name@, now),
            final(self)@.wf(),
    {
        match self.find_group(name) {
            Some(i) => {
                let mut row = self.groups[i].clone();
                row.mtime = now;
                self.groups.set(i, row);
                assert(final(self)@.groups =~= old(self)@.groups.update(
                    i as int,
                    GroupRowView { mtime: now, ..old(self)@.groups[i as int] },
                ));
                proof {
                    lemma_same_keys_wf(old(self)@, final(self)@);
                }
            },
            None => {},
        }
    }

    /// Makes sure that a tag of the given name exists: an existing tag is
    /// touched, a missing one is created. Returns the name and the id of
    /// the tag. Fails, leaving the store as it was, where no id is left.
    pub fn ensure_tag(
        &mut self,
        tag: &str,
        uid: u32,
        gid: u32,
        permissions: &Permissions,
        now: Micros,
    ) -> (r: Result<(String, i64), StoreError>)
        requires
            old(self)@.wf(),
        ensures
            final(self)@.wf(),
            match r {
                Ok((name, id)) => old(self)@.ensured_tag(tag@, uid, gid, *permissions, now) == Ok::<
                    StoreView,
                    StoreError,
                >(final(self)@) && name@ == tag@ && final(self)@.tag_named(tag@) is Some
                    && final(self)@.tag_named(tag@)->0.id == id,
                Err(e) => old(self)@.ensured_tag(tag@, uid, gid, *permissions, now) == Err::<
                    StoreView,
                    StoreError,
                >(e) && final(self)@ == old(self)@,
            },
    {
        match self.find_tag(tag) {
            Some(i) => {
                let id = self.tags[i].id;
                proof {
                    lemma_find_first(tag_names(self@.tags), tag@);
                    assert(tag_names(self@.tags)[i as int] == self@.tags[i as int].name);
                }
                self.update_tag_mtime(tag, now);
                self.root_mtime = now;
                proof {
                    lemma_tag_at(self@, i as int);
                }
                Ok((String::from_str(tag), id))
            },
            None => {
                let ids = self.tag_id_list();
                let m = greatest_id(&ids);
                if m == i64::MAX {
                    return Err(StoreError::Full);
                }
                let p = self.tag_insert_pos(tag);
                let row = Tag {
                    id: m + 1,
                    name: String::from_str(tag),
                    mtime: now,
                    uid,
                    gid,
                    permissions: *permissions,
                    num_files: 0,
                };
                proof {
                    lemma_new_tag_wf(self@, tag@, uid, gid, *permissions, now);
                }
                self.tags.insert(p, row);
                self.root_mtime = now;
                assert(final(self)@.tags =~= old(self)@.with_new_tag(
                    tag@,
                    uid,
                    gid,
                    *permissions,
                    now,
                ).tags);
                proof {
                    lemma_tag_at(self@, p as int);
                }
                Ok((String::from_str(tag), m + 1))
            },
        }
    }

    /// Makes sure that a tag group of the given name exists. Fails,
    /// leaving the store as it was, where no id is left.
    pub fn ensure_tag_group(
        &mut self,
        name: &str,
        uid: u32,
        gid: u32,
        permissions: &Permissions,
        now: Micros,
    ) -> (r: Result<(), StoreError>)
        requires
            old(self)@.wf(),
        ensures
            final(self)@.wf(),
            match r {
                Ok(_) => old(self)@.ensured_group(name@, uid, gid, *permissions, now) == Ok::<
                    StoreView,
                    StoreError,
                >(final(self)@) && final(self)@.group_named(name@) is Some,
                Err(e) => old(self)@.ensured_group(name@, uid, gid, *permissions, now) == Err::<
                    StoreView,
                    StoreError,
                >(e) && final(self)@ == old(self)@,
            },
    {
        match self.find_group(name) {
            Some(i) => {
                proof {
                    lemma_find_first(group_names(self@.groups), name@);
                    assert(group_names(self@.groups)[i as int] == self@.groups[i as int].name);
                }
                self.update_tag_group_mtime(name, now);
                self.root_mtime = now;
                proof {
                    lemma_group_at(self@, i as int);
                }
                Ok(())
            },
            None => {
                let ids = self.group_id_list();
                let m = greatest_id(&ids);
                if m == i64::MAX {
                    return Err(StoreError::Full);
                }
                let p = self.group_insert_pos(name);
                let row = GroupRow {
                    id: m + 1,
                    name: String::from_str(name),
                    mtime: now,
                    uid,
                    gid,
                    permissions: *permissions,
                };
                proof {
                    lemma_new_group_wf(self@, name@, uid, gid, *permissions, now);
                }
                self.groups.insert(p, row);
                self.root_mtime = now;
                assert(final(self)@.groups =~= old(self)@.with_new_group(
                    name@,
                    uid,
                    gid,
                    *permissions,
                    now,
                ).groups);
                proof {
                    lemma_group_at(self@, p as int);
                }
                Ok(())
            },
        }
    }

    /// Puts a tag into a tag group, where both exist and the tag is no
    /// member yet.
    pub fn add_tag_to_group(
        &mut self,
        tag: &str,
        tag_group: &str,
        uid: u32,
        gid: u32,
        permissions: &Permissions,
        now: Micros,
    )
        requires
            old(self)@.wf(),
        ensures
            final(self)@ == old(self)@.with_member(tag@, tag_group@, uid, gid, *permissions, now),
            final(self)@.wf(),
    {
        self.root_mtime = now;
        match (self.find_group(tag_group), self.find_tag(tag)) {
            (Some(g), Some(t)) => {
                let tg_id = self.groups[g].id;
                let tag_id = self.tags[t].id;
                if !self.is_member_of(tg_id, tag_id) {
                    let m = Member { tg_id, tag_id, mtime: now, uid, gid, permissions: *permissions };
                    self.members.push(m);
                    proof {
                        let s = old(self)@;
                        let t2 = final(self)@;
                        assert(group_ids(s.groups)[g as int] == tg_id);
                        assert(tag_ids(s.tags)[t as int] == tag_id);
                        assert forall|i: int, j: int|
                            0 <= i < j < t2.members.len() implies member_rel()(
                            #[trigger] t2.members[i],
                            #[trigger] t2.members[j],
                        ) by {
                            if j < s.members.len() {
                                assert(member_rel()(s.members[i], s.members[j]));
                            } else {
                                assert(t2.members[i] == s.members[i]);
                            }
                        }
                        assert forall|i: int| 0 <= i < t2.members.len() implies group_ids(
                            t2.groups,
                        ).contains((#[trigger] t2.members[i]).tg_id) && tag_ids(t2.tags).contains(
                            t2.members[i].tag_id,
                        ) by {
                            if i < s.members.len() {
                                assert(t2.members[i] == s.members[i]);
                            }
                        }
                    }
                }
            },
            _ => {},
        }
    }
}

/// The tags, each with the number of its links.
pub open spec fn recounted(tags: Seq<TagView>, links: Seq<Link>) -> Seq<TagView> {
    tags.map_values(|t: TagView| TagView { num_files: count_links(links, t.id) as i64, ..t })
}

/// Which links a removal takes: those of one of the given files, or of
/// any file where none is given, that are links to one of the given tags,
/// or to any tag where none is given.
pub open spec fn taken(fids: Option<Seq<i64>>, tids: Option<Seq<i64>>) -> spec_fn(Link) -> bool {
    |l: Link|
        (fids is None || fids->0.contains(l.file_id)) && (tids is None || tids->0.contains(
            l.tag_id,
        ))
}

/// Which links a removal leaves.
pub open spec fn left(fids: Option<Seq<i64>>, tids: Option<Seq<i64>>) -> spec_fn(Link) -> bool {
    |l: Link| !taken(fids, tids)(l)
}

impl StoreView {
    /// All but the count of links in every tag is well formed.
    pub open spec fn wf_but_counts(self) -> bool {
        &&& pairwise(self.tags, tag_rel())
        &&& pairwise(self.groups, group_rel())
        &&& pairwise(self.files, crate::sql::model::file_rel())
        &&& pairwise(self.links, link_rel())
        &&& pairwise(self.members, member_rel())
        &&& links_refer(self.links, self.files, self.tags)
        &&& members_refer(self.members, self.groups, self.tags)
        &&& pins_refer(self.pins, self.tags, self.groups)
        &&& self.links.len() <= i64::MAX
    }

    /// The store with every tag counting its links.
    pub open spec fn recount(self) -> StoreView {
        StoreView { tags: recounted(self.tags, self.links), ..self }
    }

    /// The store with one more link.
    pub open spec fn with_link(
        self,
        file_id: i64,
        tag_id: i64,
        uid: u32,
        gid: u32,
        permissions: Permissions,
        now: Micros,
    ) -> StoreView {
        StoreView {
            links: self.links.push(Link { file_id, tag_id, mtime: now, uid, gid, permissions }),
            ..self
        }.recount()
    }

    /// The store without the links that the removal takes.
    pub open spec fn without_links(self, fids: Option<Seq<i64>>, tids: Option<Seq<i64>>) -> StoreView {
        StoreView { links: self.links.filter(left(fids, tids)), ..self }.recount()
    }

    /// What linking a file to a tag does: a file already linked stays so;
    /// a file and a tag that exist are linked, unless the table of links
    /// is full; a file or a tag that does not exist is refused. The tag
    /// is touched.
    pub open spec fn linked_to(
        self,
        device: u64,
        inode: u64,
        tag: Seq<char>,
        uid: u32,
        gid: u32,
        permissions: Permissions,
        now: Micros,
    ) -> Result<StoreView, StoreError> {
        match (self.file_at(device, inode), self.tag_named(tag)) {
            (Some(f), Some(t)) => if linked(self.links, f.id, t.id) {
                Ok(self.touch_tag(tag, now).with_root(now))
            } else if self.links.len() >= i64::MAX {
                Err(StoreError::Full)
            } else {
                Ok(
                    self.with_link(f.id, t.id, uid, gid, permissions, now).touch_tag(
                        tag,
                        now,
                    ).with_root(now),
                )
            },
            _ => Err(StoreError::Constraint),
        }
    }
}

/// Counting again leaves a store well formed whose tables are so but for
/// the counts.
pub proof fn lemma_recount_wf(s: StoreView)
    requires
        s.wf_but_counts(),
    ensures
        s.recount().wf(),
{
    let t = s.recount();
    assert(tag_ids(t.tags) =~= tag_ids(s.tags));
    assert forall|i: int, j: int| 0 <= i < j < t.tags.len() implies tag_rel()(
        #[trigger] t.tags[i],
        #[trigger] t.tags[j],
    ) by {
        assert(tag_rel()(s.tags[i], s.tags[j]));
    }
    assert forall|i: int| 0 <= i < t.tags.len() implies (#[trigger] t.tags[i]).num_files
        == count_links(t.links, t.tags[i].id) by {
        crate::sql::tables::lemma_filter_len(s.links, |l: Link| l.tag_id == s.tags[i].id);
    }
    assert forall|i: int, k: int|
        0 <= i < t.pins.len() && 0 <= k < t.pins[i].len() implies step_exists(
        #[trigger] t.pins[i][k],
        t.tags,
        t.groups,
    ) by {
        assert(step_exists(s.pins[i][k], s.tags, s.groups));
    }
}

/// Counting again changes nothing in a well-formed store.
pub proof fn lemma_recount_same(s: StoreView)
    requires
        s.wf(),
    ensures
        s.recount() == s,
{
    assert(recounted(s.tags, s.links) =~= s.tags);
}

/// Removing links leaves the store well formed.
pub proof fn lemma_without_links_wf(s: StoreView, fids: Option<Seq<i64>>, tids: Option<Seq<i64>>)
    requires
        s.wf(),
    ensures
        s.without_links(fids, tids).wf(),
{
    let keep = left(fids, tids);
    let mid = StoreView { links: s.links.filter(keep), ..s };
    crate::sql::tables::lemma_pairwise_filter(s.links, keep, link_rel());
    crate::sql::tables::lemma_filter_len(s.links, keep);
    let at = crate::sql::tables::lemma_filter_part(s.links, keep);
    assert forall|i: int| 0 <= i < mid.links.len() implies file_ids(mid.files).contains(
        (#[trigger] mid.links[i]).file_id,
    ) && tag_ids(mid.tags).contains(mid.links[i].tag_id) by {
        assert(mid.links[i] == s.links[at(i)]);
    }
    lemma_recount_wf(mid);
}

/// A new link between a file and a tag that exist and are not linked
/// leaves the store well formed.
pub proof fn lemma_with_link_wf(
    s: StoreView,
    file_id: i64,
    tag_id: i64,
    uid: u32,
    gid: u32,
    permissions: Permissions,
    now: Micros,
)
    requires
        s.wf(),
        file_ids(s.files).contains(file_id),
        tag_ids(s.tags).contains(tag_id),
        !linked(s.links, file_id, tag_id),
        s.links.len() < i64::MAX,
    ensures
        s.with_link(file_id, tag_id, uid, gid, permissions, now).wf(),
{
    let l = Link { file_id, tag_id, mtime: now, uid, gid, permissions };
    let mid = StoreView { links: s.links.push(l), ..s };
    assert forall|i: int, j: int| 0 <= i < j < mid.links.len() implies link_rel()(
        #[trigger] mid.links[i],
        #[trigger] mid.links[j],
    ) by {
        if j < s.links.len() {
            assert(link_rel()(s.links[i], s.links[j]));
        } else {
            assert(mid.links[i] == s.links[i]);
        }
    }
    assert forall|i: int| 0 <= i < mid.links.len() implies file_ids(mid.files).contains(
        (#[trigger] mid.links[i]).file_id,
    ) && tag_ids(mid.tags).contains(mid.links[i].tag_id) by {
        if i < s.links.len() {
            assert(mid.links[i] == s.links[i]);
        }
    }
    lemma_recount_wf(mid);
}

impl Store {
    /// The number of links of a tag.
    pub fn count_links_of(&self, tag_id: i64) -> (n: usize)
        ensures
            n == count_links(self@.links, tag_id),
    {
        let ghost f = |l: Link| l.tag_id == tag_id;
        let mut n: usize = 0;
        let mut i: usize = 0;
        proof {
            reveal(Seq::filter);
        }
        assert(self.links@.take(0).filter(f) =~= Seq::<Link>::empty());
        while i < self.links.len()
            invariant
                i <= self.links.len(),
                n <= i,
                f == (|l: Link| l.tag_id == tag_id),
                n == self.links@.take(i as int).filter(f).len(),
            decreases self.links.len() - i,
        {
            assert(self.links@.take(i + 1).drop_last() =~= self.links@.take(i as int));
            proof {
                reveal(Seq::filter);
            }
            if self.links[i].tag_id == tag_id {
                n += 1;
            }
            i += 1;
        }
        assert(self.links@.take(self.links.len() as int) =~= self.links@);
        n
    }

    /// Sets the count of every tag to the number of its links.
    fn recount_all(&mut self)
        requires
            old(self)@.wf_but_counts(),
        ensures
            final(self)@ == old(self)@.recount(),
            final(self)@.wf(),
    {
        let mut i: usize = 0;
        let ghost want = recounted(old(self)@.tags, old(self)@.links);
        while i < self.tags.len()
            invariant
                i <= self.tags.len(),
                self.tags@.len() == old(self).tags@.len(),
                self.files == old(self).files,
                self.links == old(self).links,
                self.groups == old(self).groups,
                self.members == old(self).members,
                self.pins == old(self).pins,
                self.root_mtime == old(self).root_mtime,
                self.links@.len() <= i64::MAX,
                want == recounted(old(self)@.tags, old(self)@.links),
                forall|j: int| 0 <= j < i ==> (#[trigger] self.tags@[j])@ == want[j],
                forall|j: int|
                    i <= j < self.tags@.len() ==> (#[trigger] self.tags@[j])@ == old(self)@.tags[j],
            decreases self.tags.len() - i,
        {
            let n = self.count_links_of(self.tags[i].id);
            proof {
                crate::sql::tables::lemma_filter_len(
                    self.links@,
                    |l: Link| l.tag_id == self.tags@[i as int].id,
                );
            }
            let mut row = self.tags[i].clone();
            row.num_files = n as i64;
            self.tags.set(i, row);
            i += 1;
        }
        assert(self@.tags =~= want);
        proof {
            lemma_recount_wf(old(self)@);
        }
    }

    /// Adds a link between a file and a tag that exist and are not linked.
    pub fn push_link(&mut self, l: Link)
        requires
            old(self)@.wf(),
            file_ids(old(self)@.files).contains(l.file_id),
            tag_ids(old(self)@.tags).contains(l.tag_id),
            !linked(old(self)@.links, l.file_id, l.tag_id),
            old(self)@.links.len() < i64::MAX,
        ensures
            final(self)@ == old(self)@.with_link(
                l.file_id,
                l.tag_id,
                l.uid,
                l.gid,
                l.permissions,
                l.mtime,
            ),
            final(self)@.wf(),
    {
        proof {
            lemma_with_link_wf(
                self@,
                l.file_id,
                l.tag_id,
                l.uid,
                l.gid,
                l.permissions,
                l.mtime,
            );
        }
        self.links.push(l);
        self.recount_all();
    }

    /// Removes the links that the removal takes.
    pub fn drop_links(&mut self, fids: Option<&Vec<i64>>, tids: Option<&Vec<i64>>)
        requires
            old(self)@.wf(),
        ensures
            final(self)@ == old(self)@.without_links(id_seq(fids), id_seq(tids)),
            final(self)@.wf(),
    {
        let ghost keep = left(id_seq(fids), id_seq(tids));
        let mut kept: Vec<Link> = Vec::new();
        let mut i: usize = 0;
        proof {
            reveal(Seq::filter);
        }
        assert(self.links@.take(0).filter(keep) =~= Seq::<Link>::empty());
        while i < self.links.len()
            invariant
                i <= self.links.len(),
                keep == left(id_seq(fids), id_seq(tids)),
                kept@ == self.links@.take(i as int).filter(keep),
            decreases self.links.len() - i,
        {
            assert(self.links@.take(i + 1).drop_last() =~= self.links@.take(i as int));
            proof {
                reveal(Seq::filter);
            }
            let l = self.links[i];
            let by_file = match fids {
                Some(ids) => crate::sql::query::contains_id(ids.as_slice(), l.file_id),
                None => true,
            };
            let by_tag = match tids {
                Some(ids) => crate::sql::query::contains_id(ids.as_slice(), l.tag_id),
                None => true,
            };
            if !(by_file && by_tag) {
                kept.push(l);
            }
            i += 1;
        }
        assert(self.links@.take(self.links.len() as int) =~= self.links@);
        proof {
            lemma_without_links_wf(old(self)@, id_seq(fids), id_seq(tids));
            let keep2 = left(id_seq(fids), id_seq(tids));
            let mid = StoreView { links: old(self)@.links.filter(keep2), ..old(self)@ };
            crate::sql::tables::lemma_pairwise_filter(old(self)@.links, keep2, link_rel());
            crate::sql::tables::lemma_filter_len(old(self)@.links, keep2);
            let at = crate::sql::tables::lemma_filter_part(old(self)@.links, keep2);
            assert forall|i: int| 0 <= i < mid.links.len() implies file_ids(mid.files).contains(
                (#[trigger] mid.links[i]).file_id,
            ) && tag_ids(mid.tags).contains(mid.links[i].tag_id) by {
                assert(mid.links[i] == old(self)@.links[at(i)]);
            }
            assert(mid.wf_but_counts());
        }
        self.links = kept;
        self.recount_all();
    }

    /// Links a file to a tag. A file and a tag that are linked already
    /// stay so. Fails, leaving the store as it was, where the file or the
    /// tag does not exist, or where the table of links is full.
    pub fn link_file_to_tag(
        &mut self,
        device: u64,
        inode: u64,
        tag: &str,
        uid: u32,
        gid: u32,
        permissions: &Permissions,
        now: Micros,
    ) -> (r: Result<(), StoreError>)
        requires
            old(self)@.wf(),
        ensures
            final(self)@.wf(),
            match r {
                Ok(_) => old(self)@.linked_to(device, inode, tag@, uid, gid, *permissions, now)
                    == Ok::<StoreView, StoreError>(final(self)@),
                Err(e) => old(self)@.linked_to(device, inode, tag@, uid, gid, *permissions, now)
                    == Err::<StoreView, StoreError>(e) && final(self)@ == old(self)@,
            },
    {
        let (f, t) = match (self.find_file(device, inode), self.find_tag(tag)) {
            (Some(f), Some(t)) => (f, t),
            _ => {
                return Err(StoreError::Constraint);
            },
        };
        let file_id = self.files[f].id;
        let tag_id = self.tags[t].id;
        if !self.is_linked(file_id, tag_id) {
            if self.links.len() as u64 >= 0x7fff_ffff_ffff_ffffu64 {
                return Err(StoreError::Full);
            }
            proof {
                assert(file_ids(self@.files)[f as int] == file_id);
                assert(tag_ids(self@.tags)[t as int] == tag_id);
                lemma_with_link_wf(self@, file_id, tag_id, uid, gid, *permissions, now);
            }
            self.links.push(
                Link { file_id, tag_id, mtime: now, uid, gid, permissions: *permissions },
            );
            self.recount_all();
        }
        self.update_tag_mtime(tag, now);
        self.root_mtime = now;
        Ok(())
    }
}

/// The ids of an optional list.
pub open spec fn id_seq(ids: Option<&Vec<i64>>) -> Option<Seq<i64>> {
    match ids {
        Some(v) => Some(v@),
        None => None,
    }
}

} // verus!
