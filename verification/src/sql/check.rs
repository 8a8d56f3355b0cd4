//! Whether the tables of a store are well formed, found out by looking.

use crate::sql::model::{
    count_links, counted, file_ids, file_rel, group_ids, group_rel, link_rel, links_refer,
    member_rel, members_refer, pins_refer, step_exists, tag_ids, tag_rel, PinId,
};
use crate::sql::query::contains_id;
use crate::sql::tables::pairwise;
use crate::sql::Store;
use crate::text::{str_eq, str_lt};
use vstd::prelude::*;

verus! {

impl Store {
    /// Whether the tags are in order, with different ids.
    fn tags_in_order(&self) -> (r: bool)
        ensures
            r == pairwise(self@.tags, tag_rel()),
    {
        let mut i: usize = 0;
        while i < self.tags.len()
            invariant
                i <= self.tags.len(),
                forall|a: int, b: int|
                    0 <= a < i && a < b < self.tags@.len() ==> tag_rel()(
                        #[trigger] self@.tags[a],
                        #[trigger] self@.tags[b],
                    ),
            decreases self.tags.len() - i,
        {
            let mut j: usize = i + 1;
            while j < self.tags.len()
                invariant
                    i < j <= self.tags.len(),
                    forall|b: int|
                        i < b < j ==> tag_rel()(self@.tags[i as int], #[trigger] self@.tags[b]),
                decreases self.tags.len() - j,
            {
                let x = &self.tags[i];
                let y = &self.tags[j];
                if !(str_lt(x.name.as_str(), y.name.as_str()) && x.id != y.id) {
                    assert(!tag_rel()(self@.tags[i as int], self@.tags[j as int]));
                    return false;
                }
                j += 1;
            }
            i += 1;
        }
        true
    }

    /// Whether the tag groups are in order, with different ids.
    fn groups_in_order(&self) -> (r: bool)
        ensures
            r == pairwise(self@.groups, group_rel()),
    {
        let mut i: usize = 0;
        while i < self.groups.len()
            invariant
                i <= self.groups.len(),
                forall|a: int, b: int|
                    0 <= a < i && a < b < self.groups@.len() ==> group_rel()(
                        #[trigger] self@.groups[a],
                        #[trigger] self@.groups[b],
                    ),
            decreases self.groups.len() - i,
        {
            let mut j: usize = i + 1;
            while j < self.groups.len()
                invariant
                    i < j <= self.groups.len(),
                    forall|b: int|
                        i < b < j ==> group_rel()(
                            self@.groups[i as int],
                            #[trigger] self@.groups[b],
                        ),
                decreases self.groups.len() - j,
            {
                let x = &self.groups[i];
                let y = &self.groups[j];
                if !(str_lt(x.name.as_str(), y.name.as_str()) && x.id != y.id) {
                    assert(!group_rel()(self@.groups[i as int], self@.groups[j as int]));
                    return false;
                }
                j += 1;
            }
            i += 1;
        }
        true
    }

    /// Whether the files are in order, with different ids, paths, and
    /// pairs of device and inode.
    fn files_in_order(&self) -> (r: bool)
        ensures
            r == pairwise(self@.files, file_rel()),
    {
        let mut i: usize = 0;
        while i < self.files.len()
            invariant
                i <= self.files.len(),
                forall|a: int, b: int|
                    0 <= a < i && a < b < self.files@.len() ==> file_rel()(
                        #[trigger] self@.files[a],
                        #[trigger] self@.files[b],
                    ),
            decreases self.files.len() - i,
        {
            let mut j: usize = i + 1;
            while j < self.files.len()
                invariant
                    i < j <= self.files.len(),
                    forall|b: int|
                        i < b < j ==> file_rel()(self@.files[i as int], #[trigger] self@.files[b]),
                decreases self.files.len() - j,
            {
                let x = &self.files[i];
                let y = &self.files[j];
                let before = str_lt(x.primary_tag.as_str(), y.primary_tag.as_str()) || (str_eq(
                    x.primary_tag.as_str(),
                    y.primary_tag.as_str(),
                ) && x.id < y.id);
                let apart = x.id != y.id && !str_eq(x.path.as_str(), y.path.as_str()) && (x.device
                    != y.device || x.inode != y.inode);
                if !(before && apart) {
                    assert(!file_rel()(self@.files[i as int], self@.files[j as int]));
                    return false;
                }
                j += 1;
            }
            i += 1;
        }
        true
    }

    /// Whether no two links join the same file and tag.
    fn links_apart(&self) -> (r: bool)
        ensures
            r == pairwise(self@.links, link_rel()),
    {
        let mut i: usize = 0;
        while i < self.links.len()
            invariant
                i <= self.links.len(),
                forall|a: int, b: int|
                    0 <= a < i && a < b < self.links@.len() ==> link_rel()(
                        #[trigger] self.links@[a],
                        #[trigger] self.links@[b],
                    ),
            decreases self.links.len() - i,
        {
            let mut j: usize = i + 1;
            while j < self.links.len()
                invariant
                    i < j <= self.links.len(),
                    forall|b: int|
                        i < b < j ==> link_rel()(self.links@[i as int], #[trigger] self.links@[b]),
                decreases self.links.len() - j,
            {
                let x = self.links[i];
                let y = self.links[j];
                if !(x.file_id != y.file_id || x.tag_id != y.tag_id) {
                    assert(!link_rel()(self.links@[i as int], self.links@[j as int]));
                    return false;
                }
                j += 1;
            }
            i += 1;
        }
        true
    }

    /// Whether no two memberships join the same group and tag.
    fn members_apart(&self) -> (r: bool)
        ensures
            r == pairwise(self@.members, member_rel()),
    {
        let mut i: usize = 0;
        while i < self.members.len()
            invariant
                i <= self.members.len(),
                forall|a: int, b: int|
                    0 <= a < i && a < b < self.members@.len() ==> member_rel()(
                        #[trigger] self.members@[a],
                        #[trigger] self.members@[b],
                    ),
            decreases self.members.len() - i,
        {
            let mut j: usize = i + 1;
            while j < self.members.len()
                invariant
                    i < j <= self.members.len(),
                    forall|b: int|
                        i < b < j ==> member_rel()(
                            self.members@[i as int],
                            #[trigger] self.members@[b],
                        ),
                decreases self.members.len() - j,
            {
                let x = self.members[i];
                let y = self.members[j];
                if !(x.tg_id != y.tg_id || x.tag_id != y.tag_id) {
                    assert(!member_rel()(self.members@[i as int], self.members@[j as int]));
                    return false;
                }
                j += 1;
            }
            i += 1;
        }
        true
    }

    /// Whether every link, membership and pin names rows that exist, and
    /// every tag counts its links.
    fn rows_refer(&self) -> (r: bool)
        ensures
            r == (links_refer(self@.links, self@.files, self@.tags) && members_refer(
                self@.members,
                self@.groups,
                self@.tags,
            ) && counted(self@.tags, self@.links) && pins_refer(
                self@.pins,
                self@.tags,
                self@.groups,
            )),
    {
        let fids = self.file_id_list();
        let tids = self.tag_id_list();
        let gids = self.group_id_list();
        let mut i: usize = 0;
        while i < self.links.len()
            invariant
                i <= self.links.len(),
                fids@ == file_ids(self@.files),
                tids@ == tag_ids(self@.tags),
                forall|k: int|
                    0 <= k < i ==> file_ids(self@.files).contains(
                        (#[trigger] self.links@[k]).file_id,
                    ) && tag_ids(self@.tags).contains(self.links@[k].tag_id),
            decreases self.links.len() - i,
        {
            let l = self.links[i];
            if !(contains_id(fids.as_slice(), l.file_id) && contains_id(tids.as_slice(), l.tag_id)) {
                assert(!(file_ids(self@.files).contains(self@.links[i as int].file_id) && tag_ids(
                    self@.tags,
                ).contains(self@.links[i as int].tag_id)));
                return false;
            }
            i += 1;
        }
        let mut i: usize = 0;
        while i < self.members.len()
            invariant
                i <= self.members.len(),
                gids@ == group_ids(self@.groups),
                tids@ == tag_ids(self@.tags),
                forall|k: int|
                    0 <= k < i ==> group_ids(self@.groups).contains(
                        (#[trigger] self.members@[k]).tg_id,
                    ) && tag_ids(self@.tags).contains(self.members@[k].tag_id),
            decreases self.members.len() - i,
        {
            let m = self.members[i];
            if !(contains_id(gids.as_slice(), m.tg_id) && contains_id(tids.as_slice(), m.tag_id)) {
                assert(!(group_ids(self@.groups).contains(self@.members[i as int].tg_id)
                    && tag_ids(self@.tags).contains(self@.members[i as int].tag_id)));
                return false;
            }
            i += 1;
        }
        let mut i: usize = 0;
        while i < self.tags.len()
            invariant
                i <= self.tags.len(),
                forall|k: int|
                    0 <= k < i ==> (#[trigger] self@.tags[k]).num_files == count_links(
                        self@.links,
                        self@.tags[k].id,
                    ),
            decreases self.tags.len() - i,
        {
            let n = self.count_links_of(self.tags[i].id);
            let t = &self.tags[i];
            if t.num_files < 0 || (t.num_files as u64) != (n as u64) {
                assert(self@.tags[i as int].num_files != count_links(
                    self@.links,
                    self@.tags[i as int].id,
                ));
                return false;
            }
            i += 1;
        }
        let mut i: usize = 0;
        while i < self.pins.len()
            invariant
                i <= self.pins.len(),
                gids@ == group_ids(self@.groups),
                tids@ == tag_ids(self@.tags),
                forall|a: int, k: int|
                    0 <= a < i && 0 <= k < self@.pins[a].len() ==> step_exists(
                        #[trigger] self@.pins[a][k],
                        self@.tags,
                        self@.groups,
                    ),
            decreases self.pins.len() - i,
        {
            let pin = &self.pins[i];
            assert(self@.pins[i as int] == pin@);
            let mut k: usize = 0;
            while k < pin.len()
                invariant
                    k <= pin.len(),
                    i < self.pins.len(),
                    self@.pins[i as int] == pin@,
                    gids@ == group_ids(self@.groups),
                    tids@ == tag_ids(self@.tags),
                    forall|b: int|
                        0 <= b < k ==> step_exists(#[trigger] pin@[b], self@.tags, self@.groups),
                decreases pin.len() - k,
            {
                let ok = match pin[k] {
                    PinId::Tag(id) => contains_id(tids.as_slice(), id),
                    PinId::Group(id) => contains_id(gids.as_slice(), id),
                };
                if !ok {
                    assert(!step_exists(self@.pins[i as int][k as int], self@.tags, self@.groups));
                    return false;
                }
                k += 1;
            }
            i += 1;
        }
        true
    }

    /// Whether the tables are well formed. A store that was read from
    /// elsewhere is checked with this before it is used.
    pub fn is_well_formed(&self) -> (r: bool)
        ensures
            r == self@.wf(),
    {
        self.tags_in_order() && self.groups_in_order() && self.files_in_order()
            && self.links_apart() && self.members_apart() && self.rows_refer()
            && (self.links.len() as u64) <= 0x7fff_ffff_ffff_ffffu64
    }
}

} // verus!
