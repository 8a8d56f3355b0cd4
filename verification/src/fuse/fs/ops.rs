//! The calls that change something: link, make directory, remove,
//! rename, and the writing of alias files.

use crate::common::{delete_name, should_unlink, should_unlink_with_ext};
use crate::constants::{DB_FILE_PATH, UNLINK_CANARY};
use crate::err::{errno_of, Errno, STagErrorView};
use crate::fsops::ln::{device_of, inode_of, ln, ln_outcome};
use crate::fsops::mkdir::{mkdir, mkdir_outcome};
use crate::fsops::mv::{move_or_merge, mv_outcome};
use crate::fsops::rm::{rm, rm_outcome};
use crate::fsops::rmdir::{rmdir, rmdir_outcome};
use crate::fuse::fs::getattr::flushed;
use crate::fuse::fs::TagFilesystem;
use crate::fuse::opcache::{
    alias_write, kept_but, pid_key, symlink_key, with_filedir, without_filedir, Alias,
    CacheValueView, OpCacheView, ReaddirCacheEntry, Request,
};
use crate::notify::{note_view, Note, NoteView};
use crate::path::{
    canonical, components, file_name, get_filename, names_of, normal_names, path_ends_with,
};
use crate::settings::{abs_path, joined_path, path_tags, SymbolsView};
use crate::sql::files::added_record;
use crate::sql::model::StoreView;
use crate::sql::query::{first_wanted, FileWanted, FileWantedView};
use crate::sql::types::TaggedFileView;
use crate::text::views_of;
use crate::types::file_perms::{perms_of, Permissions, UMask};
use crate::types::{regular_names, Micros, TagCollection, TagType, TagTypeView};
use vstd::prelude::*;

verus! {

/// The outcome of a path operation as the file system reports it: an
/// error becomes its number.
pub open spec fn reported(r: Result<StoreView, STagErrorView>) -> Result<StoreView, Errno> {
    match r {
        Ok(s) => Ok(s),
        Err(e) => Err(errno_of(e)),
    }
}

/// The cache without what it keeps of the tag directories of the given
/// names at the top of the mount.
pub open spec fn flushed_tags(
    readdir: Map<Seq<char>, CacheValueView>,
    names: Seq<Seq<char>>,
    syms: SymbolsView,
) -> Map<Seq<char>, CacheValueView>
    decreases names.len(),
{
    if names.len() == 0 {
        readdir
    } else {
        flushed(flushed_tags(readdir, names.drop_last(), syms), seq!['/'] + names.last(), syms)
    }
}

/// What a rename does to the store, and the note that it posts. A rename
/// to the delete name removes the source: a file from its tag, a tag or
/// tag group as a directory. Any other rename moves or merges.
pub open spec fn rename_outcome(
    s: StoreView,
    syms: SymbolsView,
    src: Seq<char>,
    dst: Seq<char>,
    req: Request,
    now: Micros,
    mac: bool,
) -> (Result<StoreView, Errno>, Option<NoteView>) {
    match file_name(dst) {
        None => (Err(Errno::EIO), None),
        Some(dst_name) => if delete_name(dst_name, mac) {
            let tags = path_tags(src, syms);
            if tags.len() == 0 {
                (Err(Errno::EIO), None)
            } else {
                match tags.last() {
                    TagTypeView::DeviceFileSymlink(_) => (
                        reported(rm_outcome(s, syms, src, now)),
                        None,
                    ),
                    TagTypeView::Symlink(_) => (reported(rm_outcome(s, syms, src, now)), None),
                    TagTypeView::Regular(_) => (reported(rmdir_outcome(s, syms, src, now)), None),
                    TagTypeView::Group(_) => (reported(rmdir_outcome(s, syms, src, now)), None),
                    _ => (Err(Errno::EIO), None),
                }
            }
        } else {
            let o = mv_outcome(s, syms, src, dst, req.uid, req.gid, UMask(req.umask), now);
            (reported(o.0), o.1)
        },
    }
}

/// Whether a rename removes a tag or tag group as a directory.
pub open spec fn deletes_dir(syms: SymbolsView, src: Seq<char>, dst: Seq<char>, mac: bool) -> bool {
    let tags = path_tags(src, syms);
    file_name(dst) is Some && delete_name(file_name(dst)->0, mac) && tags.len() > 0 && (tags.last() is Regular
        || tags.last() is Group)
}

/// Whether a rename removes a file from its tag.
pub open spec fn deletes_file(syms: SymbolsView, src: Seq<char>, dst: Seq<char>, mac: bool) -> bool {
    let tags = path_tags(src, syms);
    file_name(dst) is Some && delete_name(file_name(dst)->0, mac) && tags.len() > 0 && (tags.last() is DeviceFileSymlink
        || tags.last() is Symlink)
}

/// The path to which a link that is dropped at `dst` goes: the components
/// of `dst` but the last, which is the name of the link.
pub open spec fn link_destination(dst: Seq<char>, syms: SymbolsView) -> Seq<char> {
    let tags = path_tags(dst, syms);
    joined_path(
        if tags.len() > 0 {
            tags.drop_last()
        } else {
            tags
        },
        syms,
    )
}

/// What a new link does to the caches: the link is kept for the caller
/// under the path at which it was made, where it was made under a tag;
/// the listing cache forgets the tag directories that the path goes
/// through; nothing else is added.
pub open spec fn link_cached(
    before: OpCacheView,
    after: OpCacheView,
    syms: SymbolsView,
    req: Request,
    dst: Seq<char>,
    record: TaggedFileView,
) -> bool {
    let key = symlink_key(req, dst);
    let under = regular_names(path_tags(link_destination(dst, syms), syms)).len();
    &&& kept_but(before.symlinks, after.symlinks, key)
    &&& under > 0 ==> after.symlinks.contains_key(key) && after.symlinks[key]
        == CacheValueView::Symlink(record)
    &&& under == 0 ==> after.symlinks == before.symlinks
    &&& after.readdir == flushed_tags(before.readdir, normal_names(dst), syms)
    &&& after.aliases == before.aliases
    &&& after.denied == before.denied
    &&& after.deleted == before.deleted
}

/// What a removal or a refused write does to the alias cache: the alias
/// file of the path is forgotten, with and without the file directory in
/// its path.
pub open spec fn alias_cleared(
    aliases: Map<Seq<char>, CacheValueView>,
    path: Seq<char>,
    syms: SymbolsView,
) -> Map<Seq<char>, CacheValueView> {
    aliases.remove(with_filedir(path, syms)).remove(without_filedir(path, syms))
}

impl TagFilesystem {
    /// Forgets what the listing cache keeps of the tag directories that
    /// the path goes through.
    pub fn flush_paths_tags(&mut self, path: &str)
        requires
            old(self).wf(),
        ensures
            final(self).wf(),
            final(self).store == old(self).store,
            final(self).settings == old(self).settings,
            final(self).alias_files == old(self).alias_files,
            final(self).op_cache@.readdir == flushed_tags(
                old(self).op_cache@.readdir,
                normal_names(path@),
                old(self).settings.config.symbols@,
            ),
            final(self).op_cache@.symlinks == old(self).op_cache@.symlinks,
            final(self).op_cache@.aliases == old(self).op_cache@.aliases,
            final(self).op_cache@.denied == old(self).op_cache@.denied,
            final(self).op_cache@.deleted == old(self).op_cache@.deleted,
    {
        let parts = crate::path::components_of(path);
        let names = names_of(parts.as_slice());
        let ghost all = views_of(names@);
        let mut i: usize = 0;
        assert(all.take(0) =~= Seq::<Seq<char>>::empty());
        while i < names.len()
            invariant
                i <= names.len(),
                all == views_of(names@),
                all == normal_names(path@),
                self.wf(),
                self.store == old(self).store,
                self.settings == old(self).settings,
                self.alias_files == old(self).alias_files,
                self.op_cache@.readdir == flushed_tags(
                    old(self).op_cache@.readdir,
                    all.take(i as int),
                    old(self).settings.config.symbols@,
                ),
                self.op_cache@.symlinks == old(self).op_cache@.symlinks,
                self.op_cache@.aliases == old(self).op_cache@.aliases,
                self.op_cache@.denied == old(self).op_cache@.denied,
                self.op_cache@.deleted == old(self).op_cache@.deleted,
            decreases names.len() - i,
        {
            assert(all.take(i + 1).drop_last() =~= all.take(i as int));
            assert(all.take(i + 1).last() == names@[i as int]@);
            let to_flush = crate::text::concat2("/", names[i].as_str());
            proof {
                reveal_strlit("/");
                assert("/"@ =~= seq!['/']);
            }
            self.flush_readdir_cache(to_flush.as_str());
            i += 1;
        }
        assert(all.take(names.len() as int) =~= all);
    }

    /// Links the file `abs_src`, a path in its plain and absolute form,
    /// at `dst`, whose last component is the name of the link. `src_id`
    /// holds the device and inode of the source, where they could be
    /// read. Returns the note to post, if any. On an error the store is
    /// as it was.
    pub fn symlink(
        &mut self,
        req: &Request,
        abs_src: &str,
        src_id: Option<(u64, u64)>,
        dst: &str,
        now: Micros,
    ) -> (r: (Result<(), Errno>, Option<Note>))
        requires
            old(self).wf(),
        ensures
            final(self).wf(),
            final(self).settings == old(self).settings,
            final(self).alias_files == old(self).alias_files,
            match file_name(abs_src@) {
                None => r.0 == Err::<(), Errno>(Errno::EIO) && r.1 is None && final(self).store@
                    == old(self).store@,
                Some(primary) => {
                    let o = ln_outcome(
                        old(self).store@,
                        &old(self).settings,
                        abs_src@,
                        link_destination(dst@, old(self).settings.config.symbols@),
                        primary,
                        req.uid,
                        req.gid,
                        UMask(req.umask),
                        None,
                        src_id,
                        now,
                    );
                    note_view(r.1) == o.1 && match o.0 {
                        Ok(s) => r.0 is Ok && final(self).store@ == s && link_cached(
                            old(self).op_cache@,
                            final(self).op_cache@,
                            old(self).settings.config.symbols@,
                            *req,
                            dst@,
                            added_record(
                                device_of(src_id),
                                inode_of(src_id),
                                abs_src@,
                                primary,
                                req.uid,
                                req.gid,
                                UMask(req.umask),
                                now,
                                None,
                            ),
                        ),
                        Err(e) => r.0 == Err::<(), Errno>(errno_of(e)) && final(self).store@
                            == old(self).store@ && final(self).op_cache@ == old(self).op_cache@,
                    }
                },
            },
            file_name(abs_src@) is None ==> final(self).op_cache@ == old(self).op_cache@,
    {
        let mut tags = TagCollection::new(&self.settings.config.symbols, dst);
        let ghost all = tags.tag_seq();
        tags.pop();
        assert(tags.tag_seq() =~= if all.len() > 0 {
            all.drop_last()
        } else {
            all
        });
        let primary_tag = match get_filename(abs_src) {
            Some(n) => n,
            None => {
                return (Err(Errno::EIO), None);
            },
        };
        let rel_dst = tags.join_path(&self.settings.config.symbols);
        let um = UMask(req.umask);
        let (res, note) = ln(
            &self.settings,
            &mut self.store,
            abs_src,
            rel_dst.as_str(),
            primary_tag.as_str(),
            req.uid,
            req.gid,
            &um,
            None,
            src_id,
            now,
        );
        match res {
            Ok(tagged) => {
                let ghost linked = self.store@;
                let ghost key = symlink_key(*req, dst@);
                let mut i: usize = 0;
                while i < tagged.len()
                    invariant
                        i <= tagged.len(),
                        self.wf(),
                        self.store@ == linked,
                        self.settings == old(self).settings,
                        self.alias_files == old(self).alias_files,
                        key == symlink_key(*req, dst@),
                        kept_but(old(self).op_cache@.symlinks, self.op_cache@.symlinks, key),
                        i == 0 ==> self.op_cache@.symlinks == old(self).op_cache@.symlinks,
                        i > 0 ==> self.op_cache@.symlinks.contains_key(key)
                            && self.op_cache@.symlinks[key] == CacheValueView::Symlink(
                            tagged@[i - 1]@,
                        ),
                        self.op_cache@.readdir == old(self).op_cache@.readdir,
                        self.op_cache@.aliases == old(self).op_cache@.aliases,
                        self.op_cache@.denied == old(self).op_cache@.denied,
                        self.op_cache@.deleted == old(self).op_cache@.deleted,
                    decreases tagged.len() - i,
                {
                    self.op_cache.add_symlink(req, dst, tagged[i].clone());
                    i += 1;
                }
                self.flush_paths_tags(dst);
                (Ok(()), note)
            },
            Err(e) => (Err(e.errno()), note),
        }
    }

    /// Makes the directory at the path, and has the listing cache forget
    /// the path and the tag directories that it goes through. On an error
    /// the store and the caches are as they were.
    pub fn mkdir(&mut self, req: &Request, path: &str, mode: u32, now: Micros) -> (r: Result<
        (),
        Errno,
    >)
        requires
            old(self).wf(),
        ensures
            final(self).wf(),
            final(self).settings == old(self).settings,
            final(self).alias_files == old(self).alias_files,
            final(self).op_cache@.symlinks == old(self).op_cache@.symlinks,
            final(self).op_cache@.aliases == old(self).op_cache@.aliases,
            final(self).op_cache@.denied == old(self).op_cache@.denied,
            final(self).op_cache@.deleted == old(self).op_cache@.deleted,
            match mkdir_outcome(
                old(self).store@,
                old(self).settings.config.symbols@,
                path@,
                req.uid,
                req.gid,
                perms_of(mode as nat),
                now,
            ) {
                Ok(s) => r is Ok && final(self).store@ == s && final(self).op_cache@.readdir
                    == flushed_tags(
                    flushed(
                        old(self).op_cache@.readdir,
                        path@,
                        old(self).settings.config.symbols@,
                    ),
                    normal_names(path@),
                    old(self).settings.config.symbols@,
                ),
                Err(e) => r == Err::<(), Errno>(errno_of(e)) && final(self).store@ == old(
                    self,
                ).store@ && final(self).op_cache@.readdir == old(self).op_cache@.readdir,
            },
    {
        let perms = Permissions::from_mode(mode);
        match mkdir(
            &self.settings.config.symbols,
            &mut self.store,
            path,
            req.uid,
            req.gid,
            &perms,
            now,
        ) {
            Ok(_) => {
                self.flush_readdir_cache(path);
                self.flush_paths_tags(path);
                Ok(())
            },
            Err(e) => Err(e.errno()),
        }
    }

    /// Answers a plain removal of a directory: a file directory is let
    /// be; for anything else the caller is told to rename it to the
    /// delete name instead. Nothing changes.
    pub fn rmdir(&self, req: &Request, path: &str) -> (r: (Result<(), Errno>, Option<Note>))
        requires
            self.wf(),
        ensures
            ({
                let tags = path_tags(path@, self.settings.config.symbols@);
                if tags.len() == 0 {
                    r.0 == Err::<(), Errno>(Errno::EIO) && r.1 is None
                } else if tags.last() is FileDir {
                    r.0 is Ok && r.1 is None
                } else {
                    r.0 == Err::<(), Errno>(Errno::ENOSYS) && note_view(r.1) == Some(
                        NoteView::Unlink(
                            abs_path(
                                self.settings.config.mount.base_dir@,
                                self.settings.collection->0@,
                                path@,
                            ),
                        ),
                    )
                }
            }),
    {
        let tags = TagCollection::new(&self.settings.config.symbols, path);
        let n = tags.len();
        if n == 0 {
            return (Err(Errno::EIO), None);
        }
        assert(tags.tag_seq().last() == tags.tags@[n - 1]@);
        match &tags.as_slice()[n - 1] {
            TagType::FileDir => (Ok(()), None),
            _ => {
                let full_path = self.settings.abs_mountpoint(path);
                (Err(Errno::ENOSYS), Some(Note::Unlink(full_path)))
            },
        }
    }

    /// Removes the file at the path from its tag. The removal of the
    /// canary is refused, with a note, and denies the calling process
    /// further removals for a while; a process that is found denied is
    /// refused. After a removal the alias file of the path is forgotten,
    /// and the listing cache forgets the path and the tag directories
    /// that it goes through. On an error the store is as it was.
    pub fn unlink(&mut self, req: &Request, path: &str, now: Micros) -> (r: (
        Result<(), Errno>,
        Option<Note>,
    ))
        requires
            old(self).wf(),
        ensures
            final(self).wf(),
            final(self).settings == old(self).settings,
            final(self).alias_files == old(self).alias_files,
            final(self).op_cache@.symlinks == old(self).op_cache@.symlinks,
            final(self).op_cache@.deleted == old(self).op_cache@.deleted,
            ({
                let syms = old(self).settings.config.symbols@;
                ||| old(self).op_cache@.denied.contains_key(pid_key(req.pid)) && r.0 == Err::<
                    (),
                    Errno,
                >(Errno::ENOSYS) && r.1 is None && final(self).store@ == old(self).store@
                    && final(self).op_cache@ == old(self).op_cache@
                ||| path_ends_with(path@, UNLINK_CANARY@) && r.0 == Err::<(), Errno>(Errno::ENOSYS)
                    && note_view(r.1) == Some(
                    NoteView::Unlink(
                        abs_path(
                            old(self).settings.config.mount.base_dir@,
                            old(self).settings.collection->0@,
                            path@,
                        ),
                    ),
                ) && final(self).store@ == old(self).store@
                    && final(self).op_cache@.denied.contains_key(pid_key(req.pid)) && kept_but(
                    old(self).op_cache@.denied,
                    final(self).op_cache@.denied,
                    pid_key(req.pid),
                ) && final(self).op_cache@.readdir == old(self).op_cache@.readdir
                    && final(self).op_cache@.aliases == old(self).op_cache@.aliases
                ||| !path_ends_with(path@, UNLINK_CANARY@) && r.1 is None && match rm_outcome(
                    old(self).store@,
                    syms,
                    path@,
                    now,
                ) {
                    Ok(s) => r.0 is Ok && final(self).store@ == s && final(self).op_cache@.aliases
                        == alias_cleared(old(self).op_cache@.aliases, path@, syms) && final(self).op_cache@.readdir == flushed(
                        flushed_tags(old(self).op_cache@.readdir, normal_names(path@), syms),
                        path@,
                        syms,
                    ) && final(self).op_cache@.denied == old(self).op_cache@.denied,
                    Err(e) => r.0 == Err::<(), Errno>(errno_of(e)) && final(self).store@ == old(
                        self,
                    ).store@ && final(self).op_cache@ == old(self).op_cache@,
                }
            }),
    {
        if self.op_cache.check_delete_pid(req.pid) {
            return (Err(Errno::ENOSYS), None);
        }
        if crate::path::ends_with(path, UNLINK_CANARY) {
            self.op_cache.add_deny_delete_pid(req.pid);
            let full_path = self.settings.abs_mountpoint(path);
            return (Err(Errno::ENOSYS), Some(Note::Unlink(full_path)));
        }
        match rm(&self.settings.config.symbols, &mut self.store, path, now) {
            Ok(_) => {},
            Err(e) => {
                return (Err(e.errno()), None);
            },
        }
        self.op_cache.clear_alias(path);
        self.flush_paths_tags(path);
        self.flush_readdir_cache(path);
        (Ok(()), None)
    }

    /// Renames `src` to `dst`. A rename to the delete name removes the
    /// source. Returns the note to post, if any. On an error the store
    /// and the caches are as they were; else the caches of both paths are
    /// flushed.
    pub fn rename(&mut self, req: &Request, src: &str, dst: &str, now: Micros) -> (r: (
        Result<(), Errno>,
        Option<Note>,
    ))
        requires
            old(self).wf(),
        ensures
            final(self).wf(),
            final(self).settings == old(self).settings,
            final(self).alias_files == old(self).alias_files,
            ({
                let syms = old(self).settings.config.symbols@;
                let o = rename_outcome(
                    old(self).store@,
                    syms,
                    src@,
                    dst@,
                    *req,
                    now,
                    old(self).alias_files,
                );
                note_view(r.1) == o.1 && match o.0 {
                    Ok(s) => r.0 is Ok && final(self).store@ == s && final(self).op_cache@.readdir
                        == flushed_tags(
                        flushed(
                            flushed(
                                if deletes_file(syms, src@, dst@, old(self).alias_files) {
                                    flushed_tags(
                                        old(self).op_cache@.readdir,
                                        normal_names(src@),
                                        syms,
                                    )
                                } else {
                                    old(self).op_cache@.readdir
                                },
                                src@,
                                syms,
                            ),
                            dst@,
                            syms,
                        ),
                        normal_names(dst@),
                        syms,
                    ) && (deletes_dir(syms, src@, dst@, old(self).alias_files)
                        ==> final(self).op_cache@.deleted.contains_key(canonical(dst@))),
                    Err(e) => r.0 == Err::<(), Errno>(e) && final(self).store@ == old(self).store@
                        && final(self).op_cache@ == old(self).op_cache@,
                }
            }),
    {
        let dst_name = match get_filename(dst) {
            Some(n) => n,
            None => {
                return (Err(Errno::EIO), None);
            },
        };
        let mut note: Option<Note> = None;
        let unlinking = if self.alias_files {
            should_unlink_with_ext(dst_name.as_str())
        } else {
            should_unlink(dst_name.as_str())
        };
        if unlinking {
            let tags = TagCollection::new(&self.settings.config.symbols, src);
            let n = tags.len();
            if n == 0 {
                return (Err(Errno::EIO), None);
            }
            assert(tags.tag_seq().last() == tags.tags@[n - 1]@);
            match &tags.as_slice()[n - 1] {
                TagType::DeviceFileSymlink(_) | TagType::Symlink(_) => {
                    match rm(&self.settings.config.symbols, &mut self.store, src, now) {
                        Ok(_) => {},
                        Err(e) => {
                            return (Err(e.errno()), None);
                        },
                    }
                    self.flush_paths_tags(src);
                },
                TagType::Regular(_) | TagType::Group(_) => {
                    match rmdir(&self.settings.config.symbols, &mut self.store, src, now) {
                        Ok(_) => {},
                        Err(e) => {
                            return (Err(e.errno()), None);
                        },
                    }
                    self.op_cache.add_rename_delete_entry(dst);
                },
                _ => {
                    return (Err(Errno::EIO), None);
                },
            }
        } else {
            let um = UMask(req.umask);
            let (res, n) = move_or_merge(
                &self.settings.config.symbols,
                &mut self.store,
                src,
                dst,
                req.uid,
                req.gid,
                &um,
                now,
            );
            note = n;
            match res {
                Ok(_) => {},
                Err(e) => {
                    return (Err(e.errno()), note);
                },
            }
        }
        self.flush_readdir_cache(src);
        self.flush_readdir_cache(dst);
        self.flush_paths_tags(dst);
        (Ok(()), note)
    }

    /// Answers the creation of a file at the path. Where alias files are
    /// taken, the state of a new alias file is kept, to be written to
    /// `managed_file`; else the creation is refused, with a note that a
    /// file was copied instead of linked.
    pub fn create(
        &mut self,
        req: &Request,
        path: &str,
        mode: u32,
        managed_file: &str,
        now: Micros,
    ) -> (r: (Result<Alias, Errno>, Option<Note>))
        requires
            old(self).wf(),
        ensures
            final(self).wf(),
            final(self).store == old(self).store,
            final(self).settings == old(self).settings,
            final(self).alias_files == old(self).alias_files,
            old(self).alias_files ==> r.1 is None && r.0 is Ok && r.0->Ok_0@ == Alias::fresh(
                path@,
                mode,
                UMask(req.umask),
                req.uid,
                req.gid,
                managed_file@,
                now,
            ) && final(self).op_cache@.aliases.contains_key(canonical(path@))
                && final(self).op_cache@.aliases[canonical(path@)] == CacheValueView::Alias(
                r.0->Ok_0@,
            ),
            !old(self).alias_files ==> r.0 == Err::<Alias, Errno>(Errno::ENOSYS) && note_view(r.1)
                == Some(NoteView::BadCopy) && final(self).op_cache == old(self).op_cache,
    {
        if self.alias_files {
            let alias = self.op_cache.create_alias(
                path,
                mode,
                UMask(req.umask),
                req.uid,
                req.gid,
                managed_file,
                now,
            );
            let _ = self.op_cache.clear_readdir_entry(path);
            (Ok(alias), None)
        } else {
            (Err(Errno::ENOSYS), Some(Note::BadCopy))
        }
    }

    /// Takes note of a write of `data` at `offset` to the alias file at
    /// the path, and says whether the bytes are to be written. Only an
    /// alias file that is being written takes a write; its new state is
    /// then kept, unless the cache has dropped it meanwhile. A write that
    /// does not fit an alias file is refused; the alias file is then
    /// forgotten, with a note that a file was copied instead of linked.
    pub fn write(&mut self, req: &Request, path: &str, data: &[u8], offset: usize, now: Micros) -> (r:
        (Result<usize, Errno>, Option<Note>))
        requires
            old(self).wf(),
            offset + data@.len() <= usize::MAX,
        ensures
            final(self).wf(),
            final(self).store == old(self).store,
            final(self).settings == old(self).settings,
            final(self).alias_files == old(self).alias_files,
            final(self).op_cache@.symlinks == old(self).op_cache@.symlinks,
            final(self).op_cache@.readdir == old(self).op_cache@.readdir,
            final(self).op_cache@.denied == old(self).op_cache@.denied,
            final(self).op_cache@.deleted == old(self).op_cache@.deleted,
            match r.0 {
                Ok(n) => n == data@.len() && r.1 is None && old(self).op_cache@.aliases.contains_key(
                    canonical(path@),
                ) && old(self).op_cache@.aliases[canonical(path@)] is Alias && alias_write(
                    old(self).op_cache@.aliases[canonical(path@)]->Alias_0,
                    data@,
                    offset,
                    now,
                ).1 && (final(self).op_cache@.aliases == old(self).op_cache@.aliases
                    || final(self).op_cache@.aliases == old(self).op_cache@.aliases.insert(
                    canonical(path@),
                    CacheValueView::Alias(
                        alias_write(
                            old(self).op_cache@.aliases[canonical(path@)]->Alias_0,
                            data@,
                            offset,
                            now,
                        ).0,
                    ),
                )),
                Err(e) => e == Errno::EPERM && {
                    ||| r.1 is None && final(self).op_cache@ == old(self).op_cache@
                    ||| note_view(r.1) == Some(NoteView::BadCopy) && old(
                        self,
                    ).op_cache@.aliases.contains_key(canonical(path@)) && old(
                        self,
                    ).op_cache@.aliases[canonical(path@)] is Alias && !alias_write(
                        old(self).op_cache@.aliases[canonical(path@)]->Alias_0,
                        data@,
                        offset,
                        now,
                    ).1 && final(self).op_cache@.aliases == alias_cleared(
                        old(self).op_cache@.aliases,
                        path@,
                        old(self).settings.config.symbols@,
                    ) && !final(self).op_cache@.aliases.contains_key(canonical(path@))
                },
            },
    {
        match self.op_cache.check_alias_entry(path) {
            Some(mut alias) => {
                if alias.header_ptr as usize > crate::constants::ALIAS_HEADER_LEN {
                    return (Err(Errno::EPERM), None);
                }
                match alias.write(data, offset, now) {
                    Err(e) => {
                        self.op_cache.clear_alias(path);
                        proof {
                            lemma_own_key_cleared(path@, self.settings.config.symbols@);
                        }
                        (Err(Errno::EPERM), Some(Note::BadCopy))
                    },
                    Ok(_) => {
                        let _ = self.op_cache.update_alias(path, alias);
                        (Ok(data.len()), None)
                    },
                }
            },
            None => (Err(Errno::EPERM), None),
        }
    }

    /// Where the linked file of the path points to.
    pub fn readlink(&mut self, req: &Request, path: &str) -> (r: Result<String, Errno>)
        requires
            old(self).wf(),
        ensures
            final(self).wf(),
            final(self).store == old(self).store,
            final(self).settings == old(self).settings,
            final(self).alias_files == old(self).alias_files,
            ({
                let syms = old(self).settings.config.symbols@;
                let key = canonical(path@);
                let c = old(self).op_cache@;
                ||| c.readdir.contains_key(key) && c.readdir[key] is Entry
                    && c.readdir[key]->Entry_0 is File && path_tags(path@, syms).len() > 0
                    && r is Ok && r->Ok_0@ == c.readdir[key]->Entry_0->File_0.path
                ||| match link_target(old(self).store@, &old(self).settings, path@) {
                    Ok(t) => r is Ok && r->Ok_0@ == t,
                    Err(e) => r == Err::<String, Errno>(e),
                }
            }),
    {
        let tags = TagCollection::new(&self.settings.config.symbols, path);
        let n = tags.len();
        if n == 0 {
            return Err(Errno::EIO);
        }
        assert(tags.tag_seq().last() == tags.tags@[n - 1]@);
        match self.op_cache.check_readdir_entry(path) {
            Some(ReaddirCacheEntry::File(tf)) => {
                return Ok(tf.resolve_path());
            },
            _ => {},
        }
        let want = match &tags.as_slice()[n - 1] {
            TagType::DeviceFileSymlink(device_file) => FileWanted::Device(device_file.clone()),
            TagType::Symlink(filename) => FileWanted::Named(filename.clone()),
            _ => {
                if crate::path::same_path(path, DB_FILE_PATH) {
                    let col = match &self.settings.collection {
                        Some(c) => c.clone(),
                        None => String::new(),
                    };
                    return Ok(self.settings.db_file(col.as_str()));
                } else {
                    return Err(Errno::ENOENT);
                }
            },
        };
        match self.store.contains_file(tags.as_slice(), &want) {
            Some(tf) => {
                let target = tf.resolve_path();
                self.op_cache.add_readdir_entry(path, ReaddirCacheEntry::File(tf));
                Ok(target)
            },
            None => Err(Errno::ENOENT),
        }
    }
}

/// Where the linked file of a path points to, going by the store alone:
/// the path of the file that the path names, or the file of the store
/// for the link to it.
pub open spec fn link_target(s: StoreView, settings: &crate::settings::Settings, path: Seq<char>) -> Result<
    Seq<char>,
    Errno,
> {
    let tags = path_tags(path, settings.config.symbols@);
    if tags.len() == 0 {
        Err(Errno::EIO)
    } else {
        let want = match tags.last() {
            TagTypeView::DeviceFileSymlink(df) => Some(FileWantedView::Device(df)),
            TagTypeView::Symlink(name) => Some(FileWantedView::Named(name)),
            _ => None,
        };
        match want {
            Some(w) => match first_wanted(s.files_at(tags), w) {
                Some(f) => Ok(f.path),
                None => Err(Errno::ENOENT),
            },
            None => if components(path) == components(DB_FILE_PATH@) {
                Ok(
                    crate::settings::joined(
                        crate::settings::joined(
                            crate::settings::joined(settings.config_dir@, "collections"@),
                            settings.collection->0@,
                        ),
                        settings.collection->0@ + ".db"@,
                    ),
                )
            } else {
                Err(Errno::ENOENT)
            },
        }
    }
}

/// Forgetting the alias file of a path forgets what is kept under the
/// path itself.
pub proof fn lemma_own_key_cleared(path: Seq<char>, syms: SymbolsView)
    ensures
        crate::fuse::opcache::with_filedir(path, syms) == canonical(path)
            || crate::fuse::opcache::without_filedir(path, syms) == canonical(path),
{
}

} // verus!
