//! Alias files: files that are written into a tag directory and, once
//! they prove to be aliases, are linked under the tags of the directory.

use crate::err::{errno_of, Errno};
use crate::fsops::ln::{ln, ln_outcome};
use crate::fuse::fs::ops::{flushed_tags, link_destination};
use crate::fuse::fs::TagFilesystem;
use crate::fuse::opcache::{
    restarted, Alias, AliasView, CacheValueView, ReaddirCacheEntry, Request,
};
use crate::notify::{note_view, Note, NoteView};
use crate::path::{canonical, file_name, get_filename, normal_names};
use crate::settings::{path_tags, SymbolsView};
use crate::sql::model::StoreView;
use crate::sql::query::{first_wanted, FileWanted, FileWantedView};
use crate::sql::types::{clone_opt, opt_view};
use crate::types::{tag_views, Micros, TagCollection, TagType, TagTypeView};
use vstd::prelude::*;

verus! {

/// The managed file behind a path, going by the store alone: that of the
/// file that the path names, where it has one.
pub open spec fn alias_file_at(s: StoreView, syms: SymbolsView, path: Seq<char>) -> Option<Seq<char>> {
    let tags = path_tags(path, syms);
    if tags.len() == 0 {
        None
    } else {
        let want = match tags.last() {
            TagTypeView::DeviceFileSymlink(df) => Some(FileWantedView::Device(df)),
            TagTypeView::Symlink(name) => Some(FileWantedView::Named(name)),
            _ => None,
        };
        match want {
            Some(w) => match first_wanted(s.files_at(tags.drop_last()), w) {
                Some(f) => f.alias_file,
                None => None,
            },
            None => None,
        }
    }
}

/// Whether `r` is the managed file that the file system may give for a
/// path: that of the entry of the path in the listing cache, that of the
/// alias file that is being written there, or that which the store has.
pub open spec fn alias_file_answer(fs: TagFilesystem, path: Seq<char>, r: Option<Seq<char>>) -> bool {
    let syms = fs.settings.config.symbols@;
    let key = canonical(path);
    let c = fs.op_cache@;
    let tags = path_tags(path, syms);
    let names_file = tags.len() > 0 && (tags.last() is DeviceFileSymlink || tags.last() is Symlink);
    ||| names_file && c.readdir.contains_key(key) && c.readdir[key] is Entry
        && c.readdir[key]->Entry_0 is File && r == c.readdir[key]->Entry_0->File_0.alias_file
    ||| tags.len() > 0 && c.aliases.contains_key(key) && c.aliases[key] is Alias && r == Some(
        c.aliases[key]->Alias_0.managed_file,
    )
    ||| r == alias_file_at(fs.store@, syms, path)
}

/// Whether `r` names the managed file behind a path, or fails with
/// `missing` where the path has none.
pub open spec fn alias_file_or(
    fs: TagFilesystem,
    path: Seq<char>,
    missing: Errno,
    r: Result<String, Errno>,
) -> bool {
    match r {
        Ok(f) => alias_file_answer(fs, path, Some(f@)),
        Err(e) => e == missing && alias_file_answer(fs, path, None),
    }
}

/// An alias file that was linked, with the managed file that stands for
/// it from then on.
pub open spec fn linked_as(a: AliasView, managed_file: Seq<char>) -> AliasView {
    AliasView { linked: true, managed_file, ..a }
}

/// Whether an alias file is ready to be linked: it has proved to be an
/// alias file, and it is not linked yet.
pub open spec fn ready(a: AliasView) -> bool {
    a.valid == Some(true) && a.written > crate::constants::ALIAS_HEADER_LEN && !a.linked
}

/// The alias file that is ready to be linked in what a lookup gave: the
/// one found, where one was found and is ready.
pub fn ready_in(entry: Option<Alias>) -> (r: Option<Alias>)
    ensures
        r == (if entry is Some && ready(entry->0@) {
            entry
        } else {
            None
        }),
{
    match entry {
        Some(alias) => {
            if alias.is_valid() && !alias.linked {
                Some(alias)
            } else {
                None
            }
        },
        None => None,
    }
}

/// Whether `a` is an alias file at the path that is ready to be linked:
/// the cache holds it for the path, it has proved to be an alias file,
/// and it is not linked yet.
pub open spec fn ready_alias(c: crate::fuse::opcache::OpCacheView, path: Seq<char>, a: Alias) -> bool {
    c.aliases.contains_key(canonical(path)) && c.aliases[canonical(path)] == CacheValueView::Alias(
        a@,
    ) && ready(a@)
}

impl TagFilesystem {
    /// The managed file behind a path, if the path names a file that has
    /// one: from the entry of the path in the listing cache, from the
    /// alias file that is being written there, or from the store.
    pub fn resolve_to_alias_file(&self, path: &str) -> (r: Option<String>)
        requires
            self.wf(),
        ensures
            alias_file_answer(*self, path@, opt_view(r)),
    {
        let tags = TagCollection::new(&self.settings.config.symbols, path);
        let n = tags.len();
        if n == 0 {
            return None;
        }
        assert(tags.tag_seq().last() == tags.tags@[n - 1]@);
        assert(tag_views(tags.tags@.drop_last()) =~= tags.tag_seq().drop_last());
        let pt = &tags.as_slice()[n - 1];
        let names_file = match pt {
            TagType::DeviceFileSymlink(_) => true,
            TagType::Symlink(_) => true,
            _ => false,
        };
        if names_file {
            match self.op_cache.check_readdir_entry(path) {
                Some(ReaddirCacheEntry::File(file)) => {
                    return clone_opt(&file.alias_file);
                },
                _ => {},
            }
        }
        match self.op_cache.check_alias_entry(path) {
            Some(bmark) => {
                return Some(bmark.managed_file.clone());
            },
            None => {},
        }
        let want = match pt {
            TagType::DeviceFileSymlink(device_file) => FileWanted::Device(device_file.clone()),
            TagType::Symlink(primary_tag) => FileWanted::Named(primary_tag.clone()),
            _ => {
                return None;
            },
        };
        match self.store.contains_file(tags.all_but_last(), &want) {
            Some(match_file) => clone_opt(&match_file.alias_file),
            None => None,
        }
    }

    /// The alias file at the path that is ready to be linked: one that is
    /// being written, has proved to be an alias file, and is not linked
    /// yet.
    pub fn pending_alias(&self, path: &str) -> (r: Option<Alias>)
        ensures
            match r {
                Some(a) => ready_alias(self.op_cache@, path@, a),
                None => true,
            },
    {
        ready_in(self.op_cache.check_alias_entry(path))
    }

    /// Where an alias file at the path is to be linked: under the
    /// components of the path but the last. An alias of a file, as
    /// opposed to a directory, at the root is refused, with a note that a
    /// file was dragged to the root.
    pub fn check_alias_target(&self, path: &str, target_is_file: bool) -> (r: (
        Result<String, Errno>,
        Option<Note>,
    ))
        ensures
            ({
                let syms = self.settings.config.symbols@;
                if target_is_file && path_tags(path@, syms).len() <= 1 {
                    r.0 == Err::<String, Errno>(Errno::EIO) && note_view(r.1) == Some(
                        NoteView::DraggedToRoot,
                    )
                } else {
                    r.0 is Ok && r.0->Ok_0@ == link_destination(path@, syms) && r.1 is None
                }
            }),
    {
        let mut tags = TagCollection::new(&self.settings.config.symbols, path);
        let ghost all = tags.tag_seq();
        tags.pop();
        assert(tags.tag_seq() =~= if all.len() > 0 {
            all.drop_last()
        } else {
            all
        });
        if target_is_file && tags.len() == 0 {
            return (Err(Errno::EIO), Some(Note::DraggedToRoot));
        }
        (Ok(tags.join_path(&self.settings.config.symbols)), None)
    }

    /// Links the file that an alias file at the path points to, under the
    /// tags of the path, with `alias_file` as its managed file. The alias
    /// file is then kept as linked, unless the cache has dropped it
    /// meanwhile, and the listing cache forgets the tag directories that
    /// the path goes through. On an error the store and the caches are as
    /// they were.
    pub fn link_alias(
        &mut self,
        path: &str,
        alias: &Alias,
        alias_target: &str,
        target_id: Option<(u64, u64)>,
        alias_file: &str,
        now: Micros,
    ) -> (r: (Result<(), Errno>, Option<Note>))
        requires
            old(self).wf(),
        ensures
            final(self).wf(),
            final(self).settings == old(self).settings,
            final(self).alias_files == old(self).alias_files,
            match file_name(alias_target@) {
                None => r.0 == Err::<(), Errno>(Errno::EIO) && r.1 is None && final(self).store@
                    == old(self).store@,
                Some(primary) => {
                    let o = ln_outcome(
                        old(self).store@,
                        &old(self).settings,
                        alias_target@,
                        link_destination(path@, old(self).settings.config.symbols@),
                        primary,
                        alias.uid,
                        alias.gid,
                        alias.umask,
                        Some(alias_file@),
                        target_id,
                        now,
                    );
                    note_view(r.1) == o.1 && match o.0 {
                        Ok(s) => r.0 is Ok && final(self).store@ == s
                            && (final(self).op_cache@.aliases == old(self).op_cache@.aliases
                            || (old(self).op_cache@.aliases.contains_key(canonical(path@))
                            && final(self).op_cache@.aliases == old(self).op_cache@.aliases.insert(
                            canonical(path@),
                            CacheValueView::Alias(linked_as(alias@, alias_file@)),
                        ))) && final(self).op_cache@.readdir == flushed_tags(
                            old(self).op_cache@.readdir,
                            normal_names(path@),
                            old(self).settings.config.symbols@,
                        ),
                        Err(e) => r.0 == Err::<(), Errno>(errno_of(e)) && final(self).store@
                            == old(self).store@ && final(self).op_cache@ == old(self).op_cache@,
                    }
                },
            },
            file_name(alias_target@) is None ==> final(self).op_cache@ == old(self).op_cache@,
            final(self).op_cache@.symlinks == old(self).op_cache@.symlinks,
            final(self).op_cache@.denied == old(self).op_cache@.denied,
            final(self).op_cache@.deleted == old(self).op_cache@.deleted,
    {
        let mut tags = TagCollection::new(&self.settings.config.symbols, path);
        let ghost all = tags.tag_seq();
        tags.pop();
        assert(tags.tag_seq() =~= if all.len() > 0 {
            all.drop_last()
        } else {
            all
        });
        let primary_tag = match get_filename(alias_target) {
            Some(n) => n,
            None => {
                return (Err(Errno::EIO), None);
            },
        };
        let rel_dst = tags.join_path(&self.settings.config.symbols);
        let (res, note) = ln(
            &self.settings,
            &mut self.store,
            alias_target,
            rel_dst.as_str(),
            primary_tag.as_str(),
            alias.uid,
            alias.gid,
            &alias.umask,
            Some(alias_file),
            target_id,
            now,
        );
        match res {
            Ok(_) => {
                let mut linked = alias.clone();
                linked.linked = true;
                linked.managed_file = String::from_str(alias_file);
                let _ = self.op_cache.update_alias(path, linked);
                self.flush_paths_tags(path);
                (Ok(()), note)
            },
            Err(e) => (Err(e.errno()), note),
        }
    }

    /// Starts the alias file at the path over, as after a truncation:
    /// nothing counts as written. Says whether that was done: the alias
    /// file that the cache stores for the path is then kept with nothing
    /// written and is otherwise as it was, and nothing else changes. Where
    /// no alias file is found the caches stay as they are.
    pub fn reset_alias(&mut self, path: &str) -> (done: bool)
        requires
            old(self).wf(),
        ensures
            final(self).wf(),
            final(self).store == old(self).store,
            final(self).settings == old(self).settings,
            final(self).alias_files == old(self).alias_files,
            final(self).op_cache@.symlinks == old(self).op_cache@.symlinks,
            final(self).op_cache@.readdir == old(self).op_cache@.readdir,
            final(self).op_cache@.denied == old(self).op_cache@.denied,
            final(self).op_cache@.deleted == old(self).op_cache@.deleted,
            !done ==> final(self).op_cache@ == old(self).op_cache@,
            done ==> old(self).op_cache@.aliases.contains_key(canonical(path@)) && old(
                self,
            ).op_cache@.aliases[canonical(path@)] is Alias,
            done ==> final(self).op_cache@.aliases == old(self).op_cache@.aliases.insert(
                canonical(path@),
                CacheValueView::Alias(
                    restarted(old(self).op_cache@.aliases[canonical(path@)]->Alias_0),
                ),
            ),
    {
        match self.op_cache.check_alias_entry(path) {
            Some(mut alias) => {
                alias.restart();
                self.op_cache.update_alias(path, alias)
            },
            None => false,
        }
    }

    /// The managed file to open for a path, and whether it is opened for
    /// reading and for writing. A path without a managed file is not
    /// found.
    pub fn open(&self, req: &Request, path: &str, flags: i32) -> (r: Result<
        (String, bool, bool),
        Errno,
    >)
        requires
            self.wf(),
        ensures
            match r {
                Ok((f, read, write)) => alias_file_answer(*self, path@, Some(f@)) && (read, write)
                    == crate::fuse::util::open_opts(flags),
                Err(e) => e == Errno::ENOENT && alias_file_answer(*self, path@, None),
            },
    {
        match self.resolve_to_alias_file(path) {
            Some(file_path) => {
                let (read, write) = crate::fuse::util::open_opts_from_mode(flags);
                Ok((file_path, read, write))
            },
            None => Err(Errno::ENOENT),
        }
    }

    /// The managed file to truncate for a path. A path without a managed
    /// file may not be truncated.
    pub fn truncate(&self, req: &Request, path: &str) -> (r: Result<String, Errno>)
        requires
            self.wf(),
        ensures
            alias_file_or(*self, path@, Errno::EPERM, r),
    {
        match self.resolve_to_alias_file(path) {
            Some(file_path) => Ok(file_path),
            None => Err(Errno::EPERM),
        }
    }

    /// What a flush of the file at the path asks for: on macOS, the alias
    /// file there is to be linked, where one is ready; elsewhere nothing
    /// is done.
    pub fn flush(&self, req: &Request, path: &str) -> (r: Result<Option<Alias>, Errno>)
        ensures
            r is Ok,
            !self.alias_files ==> r->Ok_0 is None,
            r->Ok_0 is Some ==> ready_alias(self.op_cache@, path@, r->Ok_0->0),
    {
        if self.alias_files {
            Ok(self.pending_alias(path))
        } else {
            Ok(None)
        }
    }

    /// What the release of the file at the path asks for: on macOS, the
    /// alias file there is to be linked, where one is ready; elsewhere
    /// files are not released, since none is created.
    pub fn release(&self, req: &Request, path: &str) -> (r: Result<Option<Alias>, Errno>)
        ensures
            self.alias_files ==> r is Ok,
            !self.alias_files ==> r == Err::<Option<Alias>, Errno>(Errno::ENOSYS),
            r is Ok && r->Ok_0 is Some ==> ready_alias(self.op_cache@, path@, r->Ok_0->0),
    {
        if self.alias_files {
            Ok(self.pending_alias(path))
        } else {
            Err(Errno::ENOSYS)
        }
    }
}

} // verus!
