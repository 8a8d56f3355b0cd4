//! What the file system reports of an entry, and the options with which a
//! collection is mounted.

use crate::constants::DEVICE_ID;
use crate::fuse::opcache::{AliasView, ReaddirCacheEntry, ReaddirCacheEntryView};
use crate::sql::types::{TaggedFile, TaggedFileView};
use crate::types::file_perms::{perms_mode, perms_of, Permissions};
use crate::types::Micros;
use vstd::prelude::*;

verus! {

/// The mode bits of a directory.
pub const S_IFDIR: u32 = 0o040000;

/// The mode bits of a symbolic link.
pub const S_IFLNK: u32 = 0o120000;

/// The mode bits of a regular file.
pub const S_IFREG: u32 = 0o100000;

/// What the file system reports of an entry.
#[derive(Debug, Clone, Copy, PartialEq, Eq, Structural)]
pub struct Stat {
    pub device: u64,
    pub inode: u64,
    pub mode: u32,
    pub nlink: u64,
    pub uid: u32,
    pub gid: u32,
    pub size: i64,
    pub atime: Micros,
    pub mtime: Micros,
    pub ctime: Micros,
    pub birthtime: Micros,
}

/// The report of a directory: two links, and the number of files as its
/// size.
pub open spec fn dir_stat(mtime: Micros, uid: u32, gid: u32, perm: Permissions, num_files: i64) -> Stat {
    Stat {
        device: DEVICE_ID,
        inode: 1,
        mode: (S_IFDIR + perms_mode(perm)) as u32,
        nlink: 2,
        uid,
        gid,
        size: num_files,
        atime: mtime,
        mtime,
        ctime: mtime,
        birthtime: mtime,
    }
}

/// The report of a symbolic link.
pub open spec fn link_stat(mtime: Micros, uid: u32, gid: u32, perm: Permissions, size: usize) -> Stat {
    Stat {
        device: DEVICE_ID,
        inode: 1,
        mode: (S_IFLNK + perms_mode(perm)) as u32,
        nlink: 1,
        uid,
        gid,
        size: size as i64,
        atime: mtime,
        mtime,
        ctime: mtime,
        birthtime: mtime,
    }
}

/// The report of a regular file.
pub open spec fn reg_stat(mtime: Micros, uid: u32, gid: u32, perm: Permissions, size: usize) -> Stat {
    Stat {
        device: DEVICE_ID,
        inode: 1,
        mode: (S_IFREG + perms_mode(perm)) as u32,
        nlink: 1,
        uid,
        gid,
        size: size as i64,
        atime: mtime,
        mtime,
        ctime: mtime,
        birthtime: mtime,
    }
}

/// The report of a linked file: a symbolic link whose size is the length
/// of its target in bytes.
pub open spec fn file_stat(tf: TaggedFileView) -> Stat {
    link_stat(
        tf.mtime,
        tf.uid,
        tf.gid,
        tf.permissions,
        vstd::utf8::encode_utf8(tf.path).len() as usize,
    )
}

/// The report of an alias file that is being written.
pub open spec fn alias_stat(a: AliasView) -> Stat {
    Stat {
        device: DEVICE_ID,
        inode: 1,
        mode: a.mode,
        nlink: 1,
        uid: a.uid,
        gid: a.gid,
        size: a.written as i64,
        atime: a.mtime,
        mtime: a.mtime,
        ctime: a.mtime,
        birthtime: a.btime,
    }
}

/// The report of an entry of a directory listing.
pub open spec fn entry_stat(e: ReaddirCacheEntryView) -> Stat {
    match e {
        ReaddirCacheEntryView::File(f) => file_stat(f),
        ReaddirCacheEntryView::Tag(t) => dir_stat(t.mtime, t.uid, t.gid, t.permissions, t.num_files),
        ReaddirCacheEntryView::TagGroup(g) => dir_stat(
            g.mtime,
            g.uid,
            g.gid,
            g.permissions,
            g.num_files,
        ),
    }
}

/// The report of a directory.
pub fn new_dir(mtime: Micros, uid: u32, gid: u32, perm: &Permissions, num_files: i64) -> (s: Stat)
    ensures
        s == dir_stat(mtime, uid, gid, *perm, num_files),
{
    Stat {
        device: DEVICE_ID,
        inode: 1,
        mode: S_IFDIR + perm.mode(),
        nlink: 2,
        uid,
        gid,
        size: num_files,
        atime: mtime,
        mtime,
        ctime: mtime,
        birthtime: mtime,
    }
}

/// The report of a symbolic link.
pub fn new_link(mtime: Micros, uid: u32, gid: u32, perm: &Permissions, size: usize) -> (s: Stat)
    ensures
        s == link_stat(mtime, uid, gid, *perm, size),
{
    Stat {
        device: DEVICE_ID,
        inode: 1,
        mode: S_IFLNK + perm.mode(),
        nlink: 1,
        uid,
        gid,
        size: #[verifier::truncate]
        (size as i64),
        atime: mtime,
        mtime,
        ctime: mtime,
        birthtime: mtime,
    }
}

/// The report of a regular file.
pub fn new_regfile(mtime: Micros, uid: u32, gid: u32, perm: &Permissions, size: usize) -> (s: Stat)
    ensures
        s == reg_stat(mtime, uid, gid, *perm, size),
{
    Stat {
        device: DEVICE_ID,
        inode: 1,
        mode: S_IFREG + perm.mode(),
        nlink: 1,
        uid,
        gid,
        size: #[verifier::truncate]
        (size as i64),
        atime: mtime,
        mtime,
        ctime: mtime,
        birthtime: mtime,
    }
}

/// The report of a linked file.
pub fn new_statfile(tf: &TaggedFile) -> (s: Stat)
    ensures
        s == file_stat(tf@),
{
    new_link(tf.mtime, tf.uid, tf.gid, &tf.permissions, tf.path.as_str().len())
}

/// The report of an alias file that is being written.
pub fn new_alias(
    btime: Micros,
    mtime: Micros,
    ctime: Micros,
    size: usize,
    uid: u32,
    gid: u32,
    mode: u32,
) -> (s: Stat)
    ensures
        s == (Stat {
            device: DEVICE_ID,
            inode: 1,
            mode,
            nlink: 1,
            uid,
            gid,
            size: size as i64,
            atime: mtime,
            mtime,
            ctime,
            birthtime: btime,
        }),
{
    Stat {
        device: DEVICE_ID,
        inode: 1,
        mode,
        nlink: 1,
        uid,
        gid,
        size: #[verifier::truncate]
        (size as i64),
        atime: mtime,
        mtime,
        ctime,
        birthtime: btime,
    }
}

/// The report of the link to the store's file.
pub fn db_file(uid: u32, gid: u32, mtime: Micros) -> (s: Stat)
    ensures
        s == link_stat(mtime, uid, gid, perms_of(0o777), 0),
{
    new_link(mtime, uid, gid, &Permissions::from_mode(0o777), 0)
}

/// The report of an entry of a directory listing.
pub fn stat_of_entry(e: &ReaddirCacheEntry) -> (s: Stat)
    ensures
        s == entry_stat(e@),
{
    match e {
        ReaddirCacheEntry::File(f) => new_statfile(f),
        ReaddirCacheEntry::Tag(t) => new_dir(t.mtime, t.uid, t.gid, &t.permissions, t.num_files),
        ReaddirCacheEntry::TagGroup(g) => new_dir(
            g.mtime,
            g.uid,
            g.gid,
            &g.permissions,
            g.num_files,
        ),
    }
}

/// What the file system reports of itself.
#[derive(Debug, Clone, Copy, PartialEq, Eq, Structural)]
pub struct StatVfs {
    pub f_bsize: u64,
    pub f_frsize: u64,
    pub f_blocks: u64,
    pub f_bfree: u64,
    pub f_bavail: u64,
    pub f_files: u64,
    pub f_ffree: u64,
    pub f_favail: u64,
    pub f_fsid: u64,
    pub f_flag: u64,
    pub f_namemax: u64,
}

/// A report of the file system with every number at zero.
pub fn new_statvfs() -> (s: StatVfs)
    ensures
        s == (StatVfs {
            f_bsize: 0,
            f_frsize: 0,
            f_blocks: 0,
            f_bfree: 0,
            f_bavail: 0,
            f_files: 0,
            f_ffree: 0,
            f_favail: 0,
            f_fsid: 0,
            f_flag: 0,
            f_namemax: 0,
        }),
{
    StatVfs {
        f_bsize: 0,
        f_frsize: 0,
        f_blocks: 0,
        f_bfree: 0,
        f_bavail: 0,
        f_files: 0,
        f_ffree: 0,
        f_favail: 0,
        f_fsid: 0,
        f_flag: 0,
        f_namemax: 0,
    }
}

/// What the file system reports of itself: blocks of 4096 bytes, a
/// hundred gibibytes of them, all free.
pub fn statfs() -> (s: StatVfs)
    ensures
        s == (StatVfs {
            f_bsize: 4096,
            f_frsize: 4096,
            f_blocks: 26214400,
            f_bfree: 26214400,
            f_bavail: 26214400,
            f_files: 100,
            f_ffree: 10000,
            f_favail: 10000,
            f_fsid: 0,
            f_flag: 0,
            f_namemax: 0,
        }),
{
    let mut res = new_statvfs();
    res.f_bsize = 4096;
    res.f_frsize = 4096;
    res.f_blocks = (100 * 1024 * 1024 * 1024) / res.f_bsize;
    res.f_bfree = res.f_blocks;
    res.f_bavail = res.f_blocks;
    res.f_files = 100;
    res.f_ffree = 10_000;
    res.f_favail = res.f_ffree;
    res
}

/// The open flag for reading and writing.
pub const O_RDWR: u32 = 2;

/// The open flag for writing only.
pub const O_WRONLY: u32 = 1;

/// The report of the icon of the mounted volume: a regular file that
/// everyone may read, write and execute.
pub fn mac_volume_icon(uid: u32, gid: u32, mtime: Micros) -> (s: Stat)
    ensures
        s == reg_stat(mtime, uid, gid, perms_of(0o777), 100000),
{
    let perms = Permissions::from_mode(0o777);
    new_regfile(mtime, uid, gid, &perms, 100000)
}

/// Whether a file is opened for reading and for writing, going by the
/// flags: both where reading and writing is asked for, writing alone
/// where only that is, reading alone otherwise.
pub open spec fn open_opts(mode: i32) -> (bool, bool) {
    if (mode as u32) & O_RDWR > 0 {
        (true, true)
    } else if (mode as u32) & O_WRONLY > 0 {
        (false, true)
    } else {
        (true, false)
    }
}

/// How a file is to be opened for the flags of an open call: for reading and
/// writing where the flag for both is set, for writing only where the
/// flag for that is set, else for reading only. Returns whether to read
/// and whether to write.
pub fn open_opts_from_mode(mode: i32) -> (r: (bool, bool))
    ensures
        r == open_opts(mode),
{
    let mode = mode as u32;
    if mode & O_RDWR > 0 {
        (true, true)
    } else if mode & O_WRONLY > 0 {
        (false, true)
    } else {
        (true, false)
    }
}

/// A time as whole seconds and the nanoseconds beyond them.
pub fn to_timespec(t: Micros) -> (r: (i64, i64))
    ensures
        r.0 == t / 1_000_000,
        r.1 == (t % 1_000_000) * 1000,
{
    ((t / 1_000_000) as i64, ((t % 1_000_000) * 1000) as i64)
}

/// The names in a list of names that each end with a zero byte: the runs
/// of bytes other than zero.
pub open spec fn zero_runs_from(buf: Seq<u8>, i: int, cur: Seq<u8>) -> Seq<Seq<u8>>
    decreases buf.len() - i,
{
    let done = if cur.len() > 0 {
        seq![cur]
    } else {
        Seq::empty()
    };
    if i < 0 || i >= buf.len() {
        done
    } else if buf[i] == 0 {
        done + zero_runs_from(buf, i + 1, Seq::empty())
    } else {
        zero_runs_from(buf, i + 1, cur.push(buf[i]))
    }
}

/// The views of a sequence of byte vectors.
pub open spec fn byte_rows(v: Seq<Vec<u8>>) -> Seq<Seq<u8>> {
    v.map_values(|r: Vec<u8>| r@)
}

/// Splits a list of attribute names, each ended by a zero byte, into the
/// names.
pub fn split_names(buf: &[u8]) -> (out: Vec<Vec<u8>>)
    ensures
        byte_rows(out@) == zero_runs_from(buf@, 0, Seq::empty()),
{
    let mut out: Vec<Vec<u8>> = Vec::new();
    let mut cur: Vec<u8> = Vec::new();
    let mut i: usize = 0;
    assert(byte_rows(out@) =~= Seq::<Seq<u8>>::empty());
    while i < buf.len()
        invariant
            i <= buf.len(),
            zero_runs_from(buf@, 0, Seq::empty()) == byte_rows(out@) + zero_runs_from(
                buf@,
                i as int,
                cur@,
            ),
        decreases buf.len() - i,
    {
        let ghost before = byte_rows(out@);
        let ghost tail = zero_runs_from(buf@, i as int, cur@);
        if buf[i] == 0 {
            assert(tail == (if cur@.len() > 0 {
                seq![cur@]
            } else {
                Seq::empty()
            }) + zero_runs_from(buf@, i + 1, Seq::empty()));
            if cur.len() > 0 {
                let ghost run = cur@;
                out.push(cur);
                cur = Vec::new();
                assert(byte_rows(out@) =~= before + seq![run]);
                assert(zero_runs_from(buf@, 0, Seq::empty()) =~= byte_rows(out@)
                    + zero_runs_from(buf@, i + 1, cur@));
            } else {
                assert(cur@ =~= Seq::<u8>::empty());
                assert(zero_runs_from(buf@, 0, Seq::empty()) =~= byte_rows(out@)
                    + zero_runs_from(buf@, i + 1, cur@));
            }
        } else {
            assert(tail == zero_runs_from(buf@, i + 1, cur@.push(buf@[i as int])));
            cur.push(buf[i]);
        }
        i += 1;
    }
    if cur.len() > 0 {
        let ghost before = byte_rows(out@);
        let ghost last = cur@;
        out.push(cur);
        assert(byte_rows(out@) =~= before + seq![last]);
    }
    out
}

} // verus!
