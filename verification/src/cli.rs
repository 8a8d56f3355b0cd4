//! The operations of the command line: each takes paths below the mount
//! point, changes the store, and says which paths are to be probed with
//! the sync character so that the mounted file system flushes its caches.

use crate::err::{STagError, STagErrorView};
use crate::fsops::ln::ln_outcome;
use crate::fsops::mv::mv_outcome;
use crate::fsops::rm::rm_outcome;
use crate::fsops::rmdir::rmdir_outcome;
use crate::fsops::{flush_tags, flush_targets, suffix_sync_char};
use crate::notify::{note_view, Note, NoteView};
use crate::path::{
    components, components_of, file_name, get_filename, part_views, path_starts_with, render,
    render_parts, PartView, PathPart,
};
use crate::settings::Settings;
use crate::sql::model::StoreView;
use crate::sql::Store;
use crate::text::views_of;
use crate::types::file_perms::UMask;
use crate::types::Micros;
use vstd::prelude::*;

verus! {

/// The path without the prefix, where its components begin with those of
/// the prefix; else the path as it is.
pub open spec fn prefix_stripped(p: Seq<char>, prefix: Seq<char>) -> Seq<char> {
    if path_starts_with(p, prefix) {
        render(components(p).skip(components(prefix).len() as int))
    } else {
        p
    }
}

/// The path below the prefix, or the path itself where it does not lie
/// below the prefix.
pub fn strip_prefix(p: &str, prefix: &str) -> (r: String)
    ensures
        r@ == prefix_stripped(p@, prefix@),
{
    if !crate::path::starts_with(p, prefix) {
        return String::from_str(p);
    }
    let parts = components_of(p);
    let head = components_of(prefix);
    let mut rest: Vec<PathPart> = Vec::new();
    let mut i: usize = head.len();
    let ghost all = part_views(parts@);
    assert(all.skip(head.len() as int).take(0) =~= Seq::<PartView>::empty());
    while i < parts.len()
        invariant
            head.len() <= i <= parts.len(),
            all == part_views(parts@),
            part_views(rest@) =~= all.skip(head.len() as int).take(i - head.len()),
        decreases parts.len() - i,
    {
        let ghost before = part_views(rest@);
        rest.push(parts[i].clone());
        assert(part_views(rest@) =~= before.push(parts@[i as int]@));
        i += 1;
    }
    assert(all.skip(head.len() as int).take(parts.len() - head.len()) =~= all.skip(
        head.len() as int,
    ));
    render_parts(rest.as_slice())
}

/// A file to link: its path in plain and absolute form, and its device
/// and inode where they could be read.
#[derive(Debug)]
pub struct LinkSource {
    pub path: String,
    pub id: Option<(u64, u64)>,
}

/// What linking each of the sources under a path does, and the note that
/// the first refusal posts.
pub open spec fn ln_all_outcome(
    s: StoreView,
    settings: &Settings,
    files: Seq<LinkSource>,
    rel: Seq<char>,
    uid: u32,
    gid: u32,
    umask: UMask,
    now: Micros,
) -> (Result<StoreView, STagErrorView>, Option<NoteView>)
    decreases files.len(),
{
    if files.len() == 0 {
        (Ok(s), None)
    } else {
        let head = ln_all_outcome(s, settings, files.drop_last(), rel, uid, gid, umask, now);
        match head.0 {
            Err(e) => head,
            Ok(t) => match file_name(files.last().path@) {
                None => (Err(STagErrorView::InvalidPath(files.last().path@)), None),
                Some(primary) => ln_outcome(
                    t,
                    settings,
                    files.last().path@,
                    rel,
                    primary,
                    uid,
                    gid,
                    umask,
                    None,
                    files.last().id,
                    now,
                ),
            },
        }
    }
}

/// Linking fails where linking the first of the sources does.
pub proof fn lemma_ln_all_prefix(
    s: StoreView,
    settings: &Settings,
    files: Seq<LinkSource>,
    rel: Seq<char>,
    uid: u32,
    gid: u32,
    umask: UMask,
    now: Micros,
    k: int,
)
    requires
        0 <= k <= files.len(),
        ln_all_outcome(s, settings, files.take(k), rel, uid, gid, umask, now).0 is Err,
    ensures
        ln_all_outcome(s, settings, files, rel, uid, gid, umask, now) == ln_all_outcome(
            s,
            settings,
            files.take(k),
            rel,
            uid,
            gid,
            umask,
            now,
        ),
    decreases files.len() - k,
{
    if k < files.len() {
        assert(files.take(k + 1).drop_last() =~= files.take(k));
        lemma_ln_all_prefix(s, settings, files, rel, uid, gid, umask, now, k + 1);
    } else {
        assert(files.take(k) =~= files);
    }
}

/// Links each of the files under the path `tag_path` of the mount at
/// `mountpoint`. Returns the names of the tags whose directories are to
/// be probed, and the note to post, if any. On an error the store is as
/// it was.
pub fn ln(
    settings: &Settings,
    store: &mut Store,
    mountpoint: &str,
    files: &Vec<LinkSource>,
    tag_path: &str,
    uid: u32,
    gid: u32,
    umask: &UMask,
    now: Micros,
) -> (r: (Result<Vec<String>, STagError>, Option<Note>))
    requires
        old(store)@.wf(),
    ensures
        final(store)@.wf(),
        ({
            let rel = prefix_stripped(tag_path@, mountpoint@);
            let o = ln_all_outcome(old(store)@, settings, files@, rel, uid, gid, *umask, now);
            note_view(r.1) == o.1 && match r.0 {
                Ok(names) => o.0 == Ok::<StoreView, STagErrorView>(final(store)@) && views_of(
                    names@,
                ) == flush_targets(rel, settings.config.symbols@),
                Err(e) => o.0 == Err::<StoreView, STagErrorView>(e@) && final(store)@ == old(
                    store,
                )@,
            }
        }),
{
    let rel_tagpath = strip_prefix(tag_path, mountpoint);
    let snapshot = store.clone();
    let ghost rel = rel_tagpath@;
    let mut i: usize = 0;
    assert(files@.take(0) =~= Seq::<LinkSource>::empty());
    while i < files.len()
        invariant
            i <= files.len(),
            store@.wf(),
            old(store)@.wf(),
            snapshot@ == old(store)@,
            rel == rel_tagpath@,
            rel == prefix_stripped(tag_path@, mountpoint@),
            ln_all_outcome(
                old(store)@,
                settings,
                files@.take(i as int),
                rel,
                uid,
                gid,
                *umask,
                now,
            ) == (Ok::<StoreView, STagErrorView>(store@), None::<NoteView>),
        decreases files.len() - i,
    {
        assert(files@.take(i + 1).drop_last() =~= files@.take(i as int));
        assert(files@.take(i + 1).last() == files@[i as int]);
        let target = &files[i];
        let primary_tag = match get_filename(target.path.as_str()) {
            Some(n) => n,
            None => {
                proof {
                    lemma_ln_all_prefix(
                        old(store)@,
                        settings,
                        files@,
                        rel,
                        uid,
                        gid,
                        *umask,
                        now,
                        i + 1,
                    );
                }
                *store = snapshot;
                return (Err(STagError::InvalidPath(target.path.clone())), None);
            },
        };
        let (res, note) = crate::fsops::ln(
            settings,
            store,
            target.path.as_str(),
            rel_tagpath.as_str(),
            primary_tag.as_str(),
            uid,
            gid,
            umask,
            None,
            target.id,
            now,
        );
        match res {
            Ok(_) => {},
            Err(e) => {
                proof {
                    lemma_ln_all_prefix(
                        old(store)@,
                        settings,
                        files@,
                        rel,
                        uid,
                        gid,
                        *umask,
                        now,
                        i + 1,
                    );
                }
                *store = snapshot;
                return (Err(e), note);
            },
        }
        i += 1;
    }
    assert(files@.take(files.len() as int) =~= files@);
    (Ok(flush_tags(rel_tagpath.as_str(), &settings.config.symbols)), None)
}

/// Renames `src` to `dst`, both paths of the mount at `mountpoint`.
/// Returns the paths to probe, and the note to post, if any. On an error
/// the store is as it was.
pub fn rename(
    settings: &Settings,
    store: &mut Store,
    mountpoint: &str,
    src: &str,
    dst: &str,
    uid: u32,
    gid: u32,
    umask: &UMask,
    now: Micros,
) -> (r: (Result<Vec<String>, STagError>, Option<Note>))
    requires
        old(store)@.wf(),
    ensures
        final(store)@.wf(),
        ({
            let o = mv_outcome(
                old(store)@,
                settings.config.symbols@,
                prefix_stripped(src@, mountpoint@),
                prefix_stripped(dst@, mountpoint@),
                uid,
                gid,
                *umask,
                now,
            );
            note_view(r.1) == o.1 && match r.0 {
                Ok(probes) => o.0 == Ok::<StoreView, STagErrorView>(final(store)@) && views_of(
                    probes@,
                ) == seq![
                    src@.push(settings.config.symbols.sync_char),
                    dst@.push(settings.config.symbols.sync_char),
                ],
                Err(e) => o.0 == Err::<StoreView, STagErrorView>(e@) && final(store)@ == old(
                    store,
                )@,
            }
        }),
{
    let relative_src = strip_prefix(src, mountpoint);
    let relative_dst = strip_prefix(dst, mountpoint);
    let (res, note) = crate::fsops::move_or_merge(
        &settings.config.symbols,
        store,
        relative_src.as_str(),
        relative_dst.as_str(),
        uid,
        gid,
        umask,
        now,
    );
    match res {
        Ok(_) => {
            let mut probes: Vec<String> = Vec::new();
            probes.push(suffix_sync_char(src, &settings.config.symbols));
            probes.push(suffix_sync_char(dst, &settings.config.symbols));
            assert(views_of(probes@) =~= seq![
                src@.push(settings.config.symbols.sync_char),
                dst@.push(settings.config.symbols.sync_char),
            ]);
            (Ok(probes), note)
        },
        Err(e) => (Err(e), note),
    }
}

/// Removes the file at `file`, a path of the mount at `mountpoint`, from
/// its tag. Returns the path to probe and the names of the tags whose
/// directories are to be probed. On an error the store is as it was.
pub fn rm(settings: &Settings, store: &mut Store, file: &str, mountpoint: &str, now: Micros) -> (r:
    Result<(String, Vec<String>), STagError>)
    requires
        old(store)@.wf(),
    ensures
        final(store)@.wf(),
        ({
            let rel = prefix_stripped(file@, mountpoint@);
            let o = rm_outcome(old(store)@, settings.config.symbols@, rel, now);
            match r {
                Ok((probe, names)) => o == Ok::<StoreView, STagErrorView>(final(store)@) && probe@
                    == file@.push(settings.config.symbols.sync_char) && views_of(names@)
                    == flush_targets(rel, settings.config.symbols@),
                Err(e) => o == Err::<StoreView, STagErrorView>(e@) && final(store)@ == old(
                    store,
                )@,
            }
        }),
{
    let relpath = strip_prefix(file, mountpoint);
    match crate::fsops::rm(&settings.config.symbols, store, relpath.as_str(), now) {
        Ok(_) => Ok(
            (
                suffix_sync_char(file, &settings.config.symbols),
                flush_tags(relpath.as_str(), &settings.config.symbols),
            ),
        ),
        Err(e) => Err(e),
    }
}

/// Removes the tag or tag group at `path`, a path of the mount at
/// `mountpoint`. Returns the path to probe. On an error the store is as
/// it was.
pub fn rmdir(settings: &Settings, store: &mut Store, mountpoint: &str, path: &str, now: Micros) -> (r:
    Result<String, STagError>)
    requires
        old(store)@.wf(),
    ensures
        final(store)@.wf(),
        ({
            let o = rmdir_outcome(
                old(store)@,
                settings.config.symbols@,
                prefix_stripped(path@, mountpoint@),
                now,
            );
            match r {
                Ok(probe) => o == Ok::<StoreView, STagErrorView>(final(store)@) && probe@
                    == path@.push(settings.config.symbols.sync_char),
                Err(e) => o == Err::<StoreView, STagErrorView>(e@) && final(store)@ == old(
                    store,
                )@,
            }
        }),
{
    let relpath = strip_prefix(path, mountpoint);
    match crate::fsops::rmdir(&settings.config.symbols, store, relpath.as_str(), now) {
        Ok(_) => Ok(suffix_sync_char(path, &settings.config.symbols)),
        Err(e) => Err(e),
    }
}

/// The defaults of the arguments of the command line.
#[derive(Debug)]
pub struct ArgDefaults {
    pub uid: String,
    pub gid: String,
    pub mount_perms: String,
}

/// Whether the text is a valid user or group id: an unsigned number of 32
/// bits.
pub fn id_validator(v: &str) -> (r: Result<(), String>)
    ensures
        r is Ok == (crate::num::parse_unsigned(v@, 10, u32::MAX as nat) is Some),
        r is Err ==> r->Err_0@ == v@ + " is not a valid id"@,
{
    let letters = crate::text::chars_of(v);
    match crate::num::read_unsigned(letters.as_slice(), 10, 0xffff_ffff) {
        Some(_) => Ok(()),
        None => Err(crate::text::concat2(v, " is not a valid id")),
    }
}

/// Whether the text is a valid permission: an octal number of 32 bits.
pub fn perm_validator(v: &str) -> (r: Result<(), String>)
    ensures
        r is Ok == (crate::num::parse_unsigned(v@, 8, u32::MAX as nat) is Some),
        r is Err ==> r->Err_0@ == v@ + " is not a valid octal number"@,
{
    let letters = crate::text::chars_of(v);
    match crate::num::read_unsigned(letters.as_slice(), 8, 0xffff_ffff) {
        Some(_) => Ok(()),
        None => Err(crate::text::concat2(v, " is not a valid octal number")),
    }
}

} // verus!
