//! The options of the file system and of the mount, and the arguments
//! that they make.

use crate::num::{i64_to_dec, octal3, signed_dec, u32_to_octal3};
use crate::sql::types::opt_view;
use crate::text::{chars_of, extend_chars, string_of, views_of};
use vstd::prelude::*;

verus! {

/// The argument of a switch: `-o` and the name, where the switch is on.
pub open spec fn bool_arg(name: Seq<char>, v: Option<bool>) -> Seq<Seq<char>> {
    if v == Some(true) {
        seq!["-o"@ + name]
    } else {
        Seq::empty()
    }
}

/// The argument of a number: `-o`, the name, `=` and the number.
pub open spec fn int_arg(name: Seq<char>, v: Option<i32>) -> Seq<Seq<char>> {
    match v {
        Some(n) => seq!["-o"@ + name + "="@ + signed_dec(n as int)],
        None => Seq::empty(),
    }
}

/// The argument of an octal number: `-o`, the name, `=` and the number in
/// octal, at least three digits wide.
pub open spec fn oct_arg(name: Seq<char>, v: Option<i32>) -> Seq<Seq<char>> {
    match v {
        Some(n) => seq!["-o"@ + name + "="@ + octal3((n as u32) as nat)],
        None => Seq::empty(),
    }
}

/// The argument of a text: `-o`, the name, `=` and the text.
pub open spec fn str_arg(name: Seq<char>, v: Option<Seq<char>>) -> Seq<Seq<char>> {
    match v {
        Some(t) => seq!["-o"@ + name + "="@ + t],
        None => Seq::empty(),
    }
}

/// `-o` and a name.
fn flag(name: &str) -> (v: Vec<char>)
    ensures
        v@ == "-o"@ + name@,
{
    let mut v = chars_of("-o");
    let n = chars_of(name);
    extend_chars(&mut v, n.as_slice());
    v
}

/// `-o`, a name, `=` and a value.
fn setting(name: &str, value: &[char]) -> (s: String)
    ensures
        s@ == "-o"@ + name@ + "="@ + value@,
{
    let mut v = flag(name);
    let eq = chars_of("=");
    extend_chars(&mut v, eq.as_slice());
    extend_chars(&mut v, value);
    string_of(v.as_slice())
}

fn push_bool(args: &mut Vec<String>, name: &str, v: Option<bool>)
    ensures
        views_of(final(args)@) == views_of(old(args)@) + bool_arg(name@, v),
{
    let ghost before = views_of(args@);
    match v {
        Some(true) => {
            let f = flag(name);
            args.push(string_of(f.as_slice()));
            assert(views_of(args@) =~= before + bool_arg(name@, v));
        },
        _ => {
            assert(views_of(args@) =~= before + bool_arg(name@, v));
        },
    }
}

fn push_int(args: &mut Vec<String>, name: &str, v: Option<i32>)
    ensures
        views_of(final(args)@) == views_of(old(args)@) + int_arg(name@, v),
{
    let ghost before = views_of(args@);
    match v {
        Some(n) => {
            let d = i64_to_dec(n as i64);
            args.push(setting(name, d.as_slice()));
            assert(views_of(args@) =~= before + int_arg(name@, v));
        },
        None => {
            assert(views_of(args@) =~= before + int_arg(name@, v));
        },
    }
}

fn push_oct(args: &mut Vec<String>, name: &str, v: Option<i32>)
    ensures
        views_of(final(args)@) == views_of(old(args)@) + oct_arg(name@, v),
{
    let ghost before = views_of(args@);
    match v {
        Some(n) => {
            let d = u32_to_octal3(n as u32);
            args.push(setting(name, d.as_slice()));
            assert(views_of(args@) =~= before + oct_arg(name@, v));
        },
        None => {
            assert(views_of(args@) =~= before + oct_arg(name@, v));
        },
    }
}

fn push_str(args: &mut Vec<String>, name: &str, v: &Option<String>)
    ensures
        views_of(final(args)@) == views_of(old(args)@) + str_arg(name@, opt_view(*v)),
{
    let ghost before = views_of(args@);
    match v {
        Some(t) => {
            let d = chars_of(t.as_str());
            args.push(setting(name, d.as_slice()));
            assert(views_of(args@) =~= before + str_arg(name@, opt_view(*v)));
        },
        None => {
            assert(views_of(args@) =~= before + str_arg(name@, opt_view(*v)));
        },
    }
}

/// The options of the file system.
#[derive(Debug)]
pub struct FuseConfig {
    pub hard_remove: Option<bool>,
    pub use_ino: Option<bool>,
    pub readdir_ino: Option<bool>,
    pub direct_io: Option<bool>,
    pub kernel_cache: Option<bool>,
    pub auto_cache: Option<bool>,
    pub umask: Option<i32>,
    pub uid: Option<i32>,
    pub entry_timeout: Option<i32>,
    pub negative_timeout: Option<i32>,
    pub attr_timeout: Option<i32>,
    pub ac_attr_timeout: Option<i32>,
    pub noforget: Option<bool>,
    pub remember: Option<i32>,
    pub nopath: Option<bool>,
    pub intr: Option<bool>,
    pub intr_signal: Option<i32>,
    pub modules: Option<Vec<String>>,
    pub max_write: Option<i32>,
    pub max_readahead: Option<i32>,
    pub max_background: Option<i32>,
    pub congestion_threshold: Option<i32>,
    pub async_read: Option<bool>,
    pub sync_read: Option<bool>,
    pub atomic_o_trunc: Option<bool>,
    pub big_writes: Option<bool>,
    pub no_remote_lock: Option<bool>,
    pub no_remote_flock: Option<bool>,
    pub splice_write: Option<bool>,
    pub splice_move: Option<bool>,
    pub splice_read: Option<bool>,
    pub volicon: Option<String>,
}

/// The argument of the modules: `-omodules=` and the names joined by
/// colons.
pub open spec fn modules_arg(v: Option<Vec<String>>) -> Seq<Seq<char>> {
    match v {
        Some(m) => seq!["-omodules="@ + crate::text::join_seq(views_of(m@), ":"@)],
        None => Seq::empty(),
    }
}

impl FuseConfig {
    /// Whether no option is set.
    pub open spec fn is_unset(&self) -> bool {
        &&& self.hard_remove is None
        &&& self.use_ino is None
        &&& self.readdir_ino is None
        &&& self.direct_io is None
        &&& self.kernel_cache is None
        &&& self.auto_cache is None
        &&& self.umask is None
        &&& self.uid is None
        &&& self.entry_timeout is None
        &&& self.negative_timeout is None
        &&& self.attr_timeout is None
        &&& self.ac_attr_timeout is None
        &&& self.noforget is None
        &&& self.remember is None
        &&& self.nopath is None
        &&& self.intr is None
        &&& self.intr_signal is None
        &&& self.modules is None
        &&& self.max_write is None
        &&& self.max_readahead is None
        &&& self.max_background is None
        &&& self.congestion_threshold is None
        &&& self.async_read is None
        &&& self.sync_read is None
        &&& self.atomic_o_trunc is None
        &&& self.big_writes is None
        &&& self.no_remote_lock is None
        &&& self.no_remote_flock is None
        &&& self.splice_write is None
        &&& self.splice_move is None
        &&& self.splice_read is None
        &&& self.volicon is None
    }

    /// The arguments that the options make, in their fixed order.
    pub open spec fn args(&self) -> Seq<Seq<char>> {
        bool_arg("hard_remove"@, self.hard_remove) + bool_arg("use_ino"@, self.use_ino) + bool_arg(
            "readdir_ino"@,
            self.readdir_ino,
        ) + bool_arg("direct_io"@, self.direct_io) + bool_arg("kernel_cache"@, self.kernel_cache)
            + bool_arg("auto_cache"@, self.auto_cache) + oct_arg("umask"@, self.umask) + int_arg(
            "uid"@,
            self.uid,
        ) + int_arg("entry_timeout"@, self.entry_timeout) + int_arg(
            "negative_timeout"@,
            self.negative_timeout,
        ) + int_arg("attr_timeout"@, self.attr_timeout) + int_arg(
            "ac_attr_timeout"@,
            self.ac_attr_timeout,
        ) + bool_arg("noforget"@, self.noforget) + int_arg("remember"@, self.remember) + bool_arg(
            "nopath"@,
            self.nopath,
        ) + bool_arg("intr"@, self.intr) + int_arg("intr_signal"@, self.intr_signal) + int_arg(
            "max_write"@,
            self.max_write,
        ) + int_arg("max_background"@, self.max_background) + int_arg(
            "congestion_threshold"@,
            self.congestion_threshold,
        ) + bool_arg("async_read"@, self.async_read) + bool_arg("sync_read"@, self.sync_read)
            + bool_arg("atomic_o_trunc"@, self.atomic_o_trunc) + bool_arg(
            "big_writes"@,
            self.big_writes,
        ) + bool_arg("no_remote_lock"@, self.no_remote_lock) + bool_arg(
            "no_remote_flock"@,
            self.no_remote_flock,
        ) + bool_arg("splice_write"@, self.splice_write) + bool_arg(
            "splice_move"@,
            self.splice_move,
        ) + bool_arg("splice_read"@, self.splice_read) + modules_arg(self.modules) + str_arg(
            "volicon"@,
            opt_view(self.volicon),
        )
    }

    /// The arguments that the options make.
    pub fn to_args(&self) -> (args: Vec<String>)
        ensures
            views_of(args@) == self.args(),
    {
        let mut args: Vec<String> = Vec::new();
        assert(views_of(args@) =~= Seq::<Seq<char>>::empty());
        push_bool(&mut args, "hard_remove", self.hard_remove);
        push_bool(&mut args, "use_ino", self.use_ino);
        push_bool(&mut args, "readdir_ino", self.readdir_ino);
        push_bool(&mut args, "direct_io", self.direct_io);
        push_bool(&mut args, "kernel_cache", self.kernel_cache);
        push_bool(&mut args, "auto_cache", self.auto_cache);
        push_oct(&mut args, "umask", self.umask);
        push_int(&mut args, "uid", self.uid);
        push_int(&mut args, "entry_timeout", self.entry_timeout);
        push_int(&mut args, "negative_timeout", self.negative_timeout);
        push_int(&mut args, "attr_timeout", self.attr_timeout);
        push_int(&mut args, "ac_attr_timeout", self.ac_attr_timeout);
        push_bool(&mut args, "noforget", self.noforget);
        push_int(&mut args, "remember", self.remember);
        push_bool(&mut args, "nopath", self.nopath);
        push_bool(&mut args, "intr", self.intr);
        push_int(&mut args, "intr_signal", self.intr_signal);
        push_int(&mut args, "max_write", self.max_write);
        push_int(&mut args, "max_background", self.max_background);
        push_int(&mut args, "congestion_threshold", self.congestion_threshold);
        push_bool(&mut args, "async_read", self.async_read);
        push_bool(&mut args, "sync_read", self.sync_read);
        push_bool(&mut args, "atomic_o_trunc", self.atomic_o_trunc);
        push_bool(&mut args, "big_writes", self.big_writes);
        push_bool(&mut args, "no_remote_lock", self.no_remote_lock);
        push_bool(&mut args, "no_remote_flock", self.no_remote_flock);
        push_bool(&mut args, "splice_write", self.splice_write);
        push_bool(&mut args, "splice_move", self.splice_move);
        push_bool(&mut args, "splice_read", self.splice_read);
        let ghost before = views_of(args@);
        match &self.modules {
            Some(modules) => {
                let mod_str = crate::text::join(modules.as_slice(), ":");
                args.push(crate::text::concat2("-omodules=", mod_str.as_str()));
                assert(views_of(args@) =~= before + modules_arg(self.modules));
            },
            None => {
                assert(views_of(args@) =~= before + modules_arg(self.modules));
            },
        }
        push_str(&mut args, "volicon", &self.volicon);
        args
    }
}

impl Default for FuseConfig {
    fn default() -> (r: Self)
        ensures
            r.is_unset(),
            r.args() =~= Seq::<Seq<char>>::empty(),
    {
        FuseConfig {
            hard_remove: None,
            use_ino: None,
            readdir_ino: None,
            direct_io: None,
            kernel_cache: None,
            auto_cache: None,
            umask: None,
            uid: None,
            entry_timeout: None,
            negative_timeout: None,
            attr_timeout: None,
            ac_attr_timeout: None,
            noforget: None,
            remember: None,
            nopath: None,
            intr: None,
            intr_signal: None,
            modules: None,
            max_write: None,
            max_readahead: None,
            max_background: None,
            congestion_threshold: None,
            async_read: None,
            sync_read: None,
            atomic_o_trunc: None,
            big_writes: None,
            no_remote_lock: None,
            no_remote_flock: None,
            splice_write: None,
            splice_move: None,
            splice_read: None,
            volicon: None,
        }
    }
}

/// The options of the mount.
#[derive(Debug)]
pub struct MountConfig {
    pub allow_other: Option<bool>,
    pub allow_root: Option<bool>,
    pub auto_unmount: Option<bool>,
    pub nonempty: Option<bool>,
    pub default_permissions: Option<bool>,
    pub fsname: Option<String>,
    pub subtype: Option<String>,
    pub large_read: Option<bool>,
    pub max_read: Option<i32>,
    pub allow_recursion: Option<bool>,
    pub auto_cache: Option<bool>,
    pub auto_xattr: Option<bool>,
    pub daemon_timeout: Option<i32>,
    pub debug: Option<bool>,
    pub defer_permissions: Option<bool>,
    pub direct_io: Option<bool>,
    pub extended_security: Option<bool>,
    pub fsid: Option<i32>,
    pub fssubtype: Option<i32>,
    pub fstypename: Option<String>,
    pub iosize: Option<i32>,
    pub jail_symlinks: Option<bool>,
    pub kill_on_unmount: Option<bool>,
    pub local: Option<bool>,
    pub negative_vncache: Option<bool>,
    pub noappledouble: Option<bool>,
    pub noapplexattr: Option<bool>,
    pub nobrowse: Option<bool>,
    pub nolocalcaches: Option<bool>,
    pub noubc: Option<bool>,
    pub novncache: Option<bool>,
    pub ping_diskarb: Option<bool>,
    pub noping_diskarb: Option<bool>,
    pub quiet: Option<bool>,
    pub rdonly: Option<bool>,
    pub volname: Option<String>,
}

impl MountConfig {
    /// Whether no option is set.
    pub open spec fn is_unset(&self) -> bool {
        &&& self.allow_other is None
        &&& self.allow_root is None
        &&& self.auto_unmount is None
        &&& self.nonempty is None
        &&& self.default_permissions is None
        &&& self.fsname is None
        &&& self.subtype is None
        &&& self.large_read is None
        &&& self.max_read is None
        &&& self.allow_recursion is None
        &&& self.auto_cache is None
        &&& self.auto_xattr is None
        &&& self.daemon_timeout is None
        &&& self.debug is None
        &&& self.defer_permissions is None
        &&& self.direct_io is None
        &&& self.extended_security is None
        &&& self.fsid is None
        &&& self.fssubtype is None
        &&& self.fstypename is None
        &&& self.iosize is None
        &&& self.jail_symlinks is None
        &&& self.kill_on_unmount is None
        &&& self.local is None
        &&& self.negative_vncache is None
        &&& self.noappledouble is None
        &&& self.noapplexattr is None
        &&& self.nobrowse is None
        &&& self.nolocalcaches is None
        &&& self.noubc is None
        &&& self.novncache is None
        &&& self.ping_diskarb is None
        &&& self.noping_diskarb is None
        &&& self.quiet is None
        &&& self.rdonly is None
        &&& self.volname is None
    }

    /// The arguments that the options make, in their fixed order.
    pub open spec fn args(&self) -> Seq<Seq<char>> {
        bool_arg("allow_other"@, self.allow_other) + bool_arg("allow_root"@, self.allow_root)
            + bool_arg("auto_unmount"@, self.auto_unmount) + bool_arg("nonempty"@, self.nonempty)
            + bool_arg("default_permissions"@, self.default_permissions) + str_arg(
            "fsname"@,
            opt_view(self.fsname),
        ) + str_arg("subtype"@, opt_view(self.subtype)) + bool_arg("large_read"@, self.large_read)
            + int_arg("max_read"@, self.max_read) + bool_arg(
            "allow_recursion"@,
            self.allow_recursion,
        ) + bool_arg("auto_cache"@, self.auto_cache) + bool_arg("auto_xattr"@, self.auto_xattr)
            + int_arg("daemon_timeout"@, self.daemon_timeout) + bool_arg("debug"@, self.debug)
            + bool_arg("defer_permissions"@, self.defer_permissions) + bool_arg(
            "direct_io"@,
            self.direct_io,
        ) + bool_arg("extended_security"@, self.extended_security) + int_arg("fsid"@, self.fsid)
            + int_arg("fssubtype"@, self.fssubtype) + str_arg(
            "fstypename"@,
            opt_view(self.fstypename),
        ) + int_arg("iosize"@, self.iosize) + bool_arg("jail_symlinks"@, self.jail_symlinks)
            + bool_arg("kill_on_unmount"@, self.kill_on_unmount) + bool_arg("local"@, self.local)
            + bool_arg("negative_vncache"@, self.negative_vncache) + bool_arg(
            "noappledouble"@,
            self.noappledouble,
        ) + bool_arg("noapplexattr"@, self.noapplexattr) + bool_arg("nobrowse"@, self.nobrowse)
            + bool_arg("nolocalcaches"@, self.nolocalcaches) + bool_arg("noubc"@, self.noubc)
            + bool_arg("novncache"@, self.novncache) + bool_arg("ping_diskarb"@, self.ping_diskarb)
            + bool_arg("noping_diskarb"@, self.noping_diskarb) + bool_arg("quiet"@, self.quiet)
            + bool_arg("rdonly"@, self.rdonly) + str_arg("volname"@, opt_view(self.volname))
    }

    /// The arguments that the options make.
    pub fn to_args(&self) -> (args: Vec<String>)
        ensures
            views_of(args@) == self.args(),
    {
        let mut args: Vec<String> = Vec::new();
        assert(views_of(args@) =~= Seq::<Seq<char>>::empty());
        push_bool(&mut args, "allow_other", self.allow_other);
        push_bool(&mut args, "allow_root", self.allow_root);
        push_bool(&mut args, "auto_unmount", self.auto_unmount);
        push_bool(&mut args, "nonempty", self.nonempty);
        push_bool(&mut args, "default_permissions", self.default_permissions);
        push_str(&mut args, "fsname", &self.fsname);
        push_str(&mut args, "subtype", &self.subtype);
        push_bool(&mut args, "large_read", self.large_read);
        push_int(&mut args, "max_read", self.max_read);
        push_bool(&mut args, "allow_recursion", self.allow_recursion);
        push_bool(&mut args, "auto_cache", self.auto_cache);
        push_bool(&mut args, "auto_xattr", self.auto_xattr);
        push_int(&mut args, "daemon_timeout", self.daemon_timeout);
        push_bool(&mut args, "debug", self.debug);
        push_bool(&mut args, "defer_permissions", self.defer_permissions);
        push_bool(&mut args, "direct_io", self.direct_io);
        push_bool(&mut args, "extended_security", self.extended_security);
        push_int(&mut args, "fsid", self.fsid);
        push_int(&mut args, "fssubtype", self.fssubtype);
        push_str(&mut args, "fstypename", &self.fstypename);
        push_int(&mut args, "iosize", self.iosize);
        push_bool(&mut args, "jail_symlinks", self.jail_symlinks);
        push_bool(&mut args, "kill_on_unmount", self.kill_on_unmount);
        push_bool(&mut args, "local", self.local);
        push_bool(&mut args, "negative_vncache", self.negative_vncache);
        push_bool(&mut args, "noappledouble", self.noappledouble);
        push_bool(&mut args, "noapplexattr", self.noapplexattr);
        push_bool(&mut args, "nobrowse", self.nobrowse);
        push_bool(&mut args, "nolocalcaches", self.nolocalcaches);
        push_bool(&mut args, "noubc", self.noubc);
        push_bool(&mut args, "novncache", self.novncache);
        push_bool(&mut args, "ping_diskarb", self.ping_diskarb);
        push_bool(&mut args, "noping_diskarb", self.noping_diskarb);
        push_bool(&mut args, "quiet", self.quiet);
        push_bool(&mut args, "rdonly", self.rdonly);
        push_str(&mut args, "volname", &self.volname);
        args
    }
}

impl Default for MountConfig {
    fn default() -> (r: Self)
        ensures
            r.is_unset(),
            r.args() =~= Seq::<Seq<char>>::empty(),
    {
        MountConfig {
            allow_other: None,
            allow_root: None,
            auto_unmount: None,
            nonempty: None,
            default_permissions: None,
            fsname: None,
            subtype: None,
            large_read: None,
            max_read: None,
            allow_recursion: None,
            auto_cache: None,
            auto_xattr: None,
            daemon_timeout: None,
            debug: None,
            defer_permissions: None,
            direct_io: None,
            extended_security: None,
            fsid: None,
            fssubtype: None,
            fstypename: None,
            iosize: None,
            jail_symlinks: None,
            kill_on_unmount: None,
            local: None,
            negative_vncache: None,
            noappledouble: None,
            noapplexattr: None,
            nobrowse: None,
            nolocalcaches: None,
            noubc: None,
            novncache: None,
            ping_diskarb: None,
            noping_diskarb: None,
            quiet: None,
            rdonly: None,
            volname: None,
        }
    }
}

/// Why a mount ended.
#[derive(Debug, Clone, Copy, PartialEq, Eq, Structural)]
pub enum MountError {
    BadFuseChannel,
    BadFuseHandle,
    LoopDied,
}

impl MountError {
    /// The name of the error.
    pub fn message(&self) -> (s: String)
        ensures
            s@ == match *self {
                MountError::BadFuseChannel => "BadFuseChannel"@,
                MountError::BadFuseHandle => "BadFuseHandle"@,
                MountError::LoopDied => "LoopDied"@,
            },
    {
        match self {
            MountError::BadFuseChannel => String::from_str("BadFuseChannel"),
            MountError::BadFuseHandle => String::from_str("BadFuseHandle"),
            MountError::LoopDied => String::from_str("LoopDied"),
        }
    }
}

/// Hashes the bytes of a text with `MetroHash64` of metrohash, seeded
/// with zero.
///
/// Trusted, and nothing is stated of the result: the hash reads its input
/// in the byte order of the machine.
#[verifier::external_body]
fn metro_hash(text: &str) -> (h: u64) {
    let mut hasher = metrohash::MetroHash64::new();
    std::hash::Hasher::write(&mut hasher, text.as_bytes());
    std::hash::Hasher::finish(&hasher)
}

/// The id of a file system for a hash: its low twenty-four bits.
pub fn fsid_of(hash: u64) -> (id: i32)
    ensures
        id == hash & 0xff_ffff,
        0 <= id <= 0xff_ffff,
{
    let low = hash & 0xff_ffff;
    assert(low <= 0xff_ffff) by (bit_vector)
        requires
            low == hash & 0xff_ffff,
    ;
    low as i32
}

/// The id of the file system of a collection: twenty-four bits of a hash
/// of the collection's name.
pub fn compute_fsid(col: &str) -> (id: i32)
    ensures
        0 <= id <= 0xff_ffff,
{
    fsid_of(metro_hash(col))
}

/// The name under which the file system of a collection shows in the
/// list of mounts.
pub fn make_fs_name(col: &str) -> (r: String)
    ensures
        r@ == "supertag:"@ + col@,
{
    crate::text::concat2("supertag:", col)
}

/// The name of the mounted volume of a collection.
pub fn make_mount_name(col: &str) -> (r: String)
    ensures
        r@ == col@,
{
    String::from_str(col)
}

/// The switch for access by other users.
proof fn lemma_allow_other()
    ensures
        "-o"@ + "allow_other"@ == "-oallow_other"@,
{
    reveal_strlit("-o");
    reveal_strlit("allow_other");
    reveal_strlit("-oallow_other");
    assert("-o"@ + "allow_other"@ =~= "-oallow_other"@);
}

/// The switch for permission checks by the kernel.
proof fn lemma_default_permissions()
    ensures
        "-o"@ + "default_permissions"@ == "-odefault_permissions"@,
{
    reveal_strlit("-o");
    reveal_strlit("default_permissions");
    reveal_strlit("-odefault_permissions");
    assert("-o"@ + "default_permissions"@ =~= "-odefault_permissions"@);
}

/// The setting of the name of the file system.
proof fn lemma_fsname(name: Seq<char>)
    ensures
        "-o"@ + "fsname"@ + "="@ + name == "-ofsname="@ + name,
{
    reveal_strlit("-o");
    reveal_strlit("fsname");
    reveal_strlit("=");
    reveal_strlit("-ofsname=");
    assert("-o"@ + "fsname"@ + "="@ =~= "-ofsname="@);
}

/// The setting of the subtype.
proof fn lemma_subtype()
    ensures
        "-o"@ + "subtype"@ + "="@ + "manifold"@ == "-osubtype=manifold"@,
{
    reveal_strlit("-o");
    reveal_strlit("subtype");
    reveal_strlit("=");
    reveal_strlit("manifold");
    reveal_strlit("-osubtype=manifold");
    assert("-o"@ + "subtype"@ + "="@ + "manifold"@ =~= "-osubtype=manifold"@);
}

/// The switch for direct I/O.
proof fn lemma_direct_io()
    ensures
        "-o"@ + "direct_io"@ == "-odirect_io"@,
{
    reveal_strlit("-o");
    reveal_strlit("direct_io");
    reveal_strlit("-odirect_io");
    assert("-o"@ + "direct_io"@ =~= "-odirect_io"@);
}

/// The switch for immediate removals.
proof fn lemma_hard_remove()
    ensures
        "-o"@ + "hard_remove"@ == "-ohard_remove"@,
{
    reveal_strlit("-o");
    reveal_strlit("hard_remove");
    reveal_strlit("-ohard_remove");
    assert("-o"@ + "hard_remove"@ =~= "-ohard_remove"@);
}

/// The settings of the two timeouts of zero.
proof fn lemma_timeouts()
    ensures
        "-o"@ + "entry_timeout"@ + "="@ + signed_dec(0) == "-oentry_timeout=0"@,
        "-o"@ + "attr_timeout"@ + "="@ + signed_dec(0) == "-oattr_timeout=0"@,
{
    reveal_strlit("-o");
    reveal_strlit("=");
    reveal_strlit("entry_timeout");
    reveal_strlit("attr_timeout");
    reveal_strlit("-oentry_timeout=0");
    reveal_strlit("-oattr_timeout=0");
    assert(signed_dec(0) =~= seq!['0']);
    assert("-o"@ + "entry_timeout"@ + "="@ + signed_dec(0) =~= "-oentry_timeout=0"@);
    assert("-o"@ + "attr_timeout"@ + "="@ + signed_dec(0) =~= "-oattr_timeout=0"@);
}

/// The arguments of mount options of which only five are set.
proof fn lemma_mount_args(c: MountConfig, d: MountConfig)
    requires
        d.is_unset(),
        c == (MountConfig {
            direct_io: c.direct_io,
            fsname: c.fsname,
            subtype: c.subtype,
            default_permissions: c.default_permissions,
            allow_other: c.allow_other,
            ..d
        }),
    ensures
        c.args() == bool_arg("allow_other"@, c.allow_other) + bool_arg(
            "default_permissions"@,
            c.default_permissions,
        ) + str_arg("fsname"@, opt_view(c.fsname)) + str_arg("subtype"@, opt_view(c.subtype))
            + bool_arg("direct_io"@, c.direct_io),
{
    let e = Seq::<Seq<char>>::empty();
    let a = bool_arg("allow_root"@, c.allow_root) + bool_arg("auto_unmount"@, c.auto_unmount)
        + bool_arg("nonempty"@, c.nonempty);
    let b = bool_arg("large_read"@, c.large_read) + int_arg("max_read"@, c.max_read) + bool_arg(
        "allow_recursion"@,
        c.allow_recursion,
    ) + bool_arg("auto_cache"@, c.auto_cache) + bool_arg("auto_xattr"@, c.auto_xattr) + int_arg(
        "daemon_timeout"@,
        c.daemon_timeout,
    ) + bool_arg("debug"@, c.debug) + bool_arg("defer_permissions"@, c.defer_permissions);
    let y = bool_arg("extended_security"@, c.extended_security) + int_arg("fsid"@, c.fsid)
        + int_arg("fssubtype"@, c.fssubtype) + str_arg("fstypename"@, opt_view(c.fstypename))
        + int_arg("iosize"@, c.iosize) + bool_arg("jail_symlinks"@, c.jail_symlinks) + bool_arg(
        "kill_on_unmount"@,
        c.kill_on_unmount,
    ) + bool_arg("local"@, c.local) + bool_arg("negative_vncache"@, c.negative_vncache) + bool_arg(
        "noappledouble"@,
        c.noappledouble,
    ) + bool_arg("noapplexattr"@, c.noapplexattr) + bool_arg("nobrowse"@, c.nobrowse) + bool_arg(
        "nolocalcaches"@,
        c.nolocalcaches,
    ) + bool_arg("noubc"@, c.noubc) + bool_arg("novncache"@, c.novncache) + bool_arg(
        "ping_diskarb"@,
        c.ping_diskarb,
    ) + bool_arg("noping_diskarb"@, c.noping_diskarb) + bool_arg("quiet"@, c.quiet) + bool_arg(
        "rdonly"@,
        c.rdonly,
    ) + str_arg("volname"@, opt_view(c.volname));
    assert(a =~= e);
    assert(b =~= e);
    assert(y =~= e);
    assert(c.args() =~= bool_arg("allow_other"@, c.allow_other) + a + bool_arg(
        "default_permissions"@,
        c.default_permissions,
    ) + str_arg("fsname"@, opt_view(c.fsname)) + str_arg("subtype"@, opt_view(c.subtype)) + b
        + bool_arg("direct_io"@, c.direct_io) + y);
}

/// The options with which a collection is mounted: direct I/O, the name
/// of the file system, permission checks by the kernel, and access for
/// other users.
pub fn make_mount_config(collection: &str) -> (c: MountConfig)
    ensures
        c.direct_io == Some(true),
        opt_view(c.fsname) == Some("supertag:"@ + collection@),
        opt_view(c.subtype) == Some("manifold"@),
        c.default_permissions == Some(true),
        c.allow_other == Some(true),
        (MountConfig {
            direct_io: None,
            fsname: None,
            subtype: None,
            default_permissions: None,
            allow_other: None,
            ..c
        }).is_unset(),
        c.args() =~= seq![
            "-oallow_other"@,
            "-odefault_permissions"@,
            "-ofsname="@ + ("supertag:"@ + collection@),
            "-osubtype=manifold"@,
            "-odirect_io"@,
        ],
{
    let mut mount_conf = MountConfig::default();
    let ghost d = mount_conf;
    mount_conf.direct_io = Some(true);
    mount_conf.fsname = Some(make_fs_name(collection));
    mount_conf.subtype = Some(String::from_str("manifold"));
    mount_conf.default_permissions = Some(true);
    mount_conf.allow_other = Some(true);
    proof {
        lemma_mount_args(mount_conf, d);
        lemma_allow_other();
        lemma_default_permissions();
        lemma_fsname("supertag:"@ + collection@);
        lemma_subtype();
        lemma_direct_io();
    }
    mount_conf
}

/// The arguments of file system options of which only three make one.
proof fn lemma_fuse_args(c: FuseConfig, d: FuseConfig)
    requires
        d.is_unset(),
        c == (FuseConfig {
            attr_timeout: c.attr_timeout,
            entry_timeout: c.entry_timeout,
            hard_remove: c.hard_remove,
            kernel_cache: Some(false),
            ..d
        }),
    ensures
        c.args() == bool_arg("hard_remove"@, c.hard_remove) + int_arg(
            "entry_timeout"@,
            c.entry_timeout,
        ) + int_arg("attr_timeout"@, c.attr_timeout),
{
    let e = Seq::<Seq<char>>::empty();
    let a = bool_arg("use_ino"@, c.use_ino) + bool_arg("readdir_ino"@, c.readdir_ino) + bool_arg(
        "direct_io"@,
        c.direct_io,
    ) + bool_arg("kernel_cache"@, c.kernel_cache) + bool_arg("auto_cache"@, c.auto_cache)
        + oct_arg("umask"@, c.umask) + int_arg("uid"@, c.uid);
    let n = int_arg("negative_timeout"@, c.negative_timeout);
    let y = int_arg("ac_attr_timeout"@, c.ac_attr_timeout) + bool_arg("noforget"@, c.noforget)
        + int_arg("remember"@, c.remember) + bool_arg("nopath"@, c.nopath) + bool_arg(
        "intr"@,
        c.intr,
    ) + int_arg("intr_signal"@, c.intr_signal) + int_arg("max_write"@, c.max_write) + int_arg(
        "max_background"@,
        c.max_background,
    ) + int_arg("congestion_threshold"@, c.congestion_threshold) + bool_arg(
        "async_read"@,
        c.async_read,
    ) + bool_arg("sync_read"@, c.sync_read) + bool_arg("atomic_o_trunc"@, c.atomic_o_trunc)
        + bool_arg("big_writes"@, c.big_writes) + bool_arg("no_remote_lock"@, c.no_remote_lock)
        + bool_arg("no_remote_flock"@, c.no_remote_flock) + bool_arg(
        "splice_write"@,
        c.splice_write,
    ) + bool_arg("splice_move"@, c.splice_move) + bool_arg("splice_read"@, c.splice_read)
        + modules_arg(c.modules) + str_arg("volicon"@, opt_view(c.volicon));
    assert(a =~= e);
    assert(n =~= e);
    assert(y =~= e);
    assert(c.args() =~= bool_arg("hard_remove"@, c.hard_remove) + a + int_arg(
        "entry_timeout"@,
        c.entry_timeout,
    ) + n + int_arg("attr_timeout"@, c.attr_timeout) + y);
}

/// The options of the file system: nothing is cached by the kernel, since
/// the store can change behind its back, and removals are immediate.
pub fn make_fuse_config() -> (c: FuseConfig)
    ensures
        c.attr_timeout == Some(0i32),
        c.entry_timeout == Some(0i32),
        c.hard_remove == Some(true),
        c.kernel_cache == Some(false),
        (FuseConfig {
            attr_timeout: None,
            entry_timeout: None,
            hard_remove: None,
            kernel_cache: None,
            ..c
        }).is_unset(),
        c.args() =~= seq!["-ohard_remove"@, "-oentry_timeout=0"@, "-oattr_timeout=0"@],
{
    let mut fuse_conf = FuseConfig::default();
    let ghost d = fuse_conf;
    fuse_conf.attr_timeout = Some(0);
    fuse_conf.entry_timeout = Some(0);
    fuse_conf.hard_remove = Some(true);
    fuse_conf.kernel_cache = Some(false);
    proof {
        lemma_fuse_args(fuse_conf, d);
        lemma_hard_remove();
        lemma_timeouts();
    }
    fuse_conf
}

} // verus!
