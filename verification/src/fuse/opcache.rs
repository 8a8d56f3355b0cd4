//! The operation cache: short-lived answers that make the tag engine
//! behave like a file system under the calls that file browsers make.

use crate::constants::{alias_header, alias_header_byte, ALIAS_HEADER_LEN};
use crate::err::Errno;
use crate::num::{digits_of, u64_to_dec};
use crate::path::{
    canonical, canonical_of, components, components_of, part_views, render, render_parts,
    PartView, PathPart,
};
use crate::settings::{path_tags, Symbols, SymbolsView};
use crate::types::{tag_views, TagType, TagTypeView};
use crate::sql::types::{Tag, TagGroup, TagGroupView, TagView, TaggedFile, TaggedFileView};
use crate::text::{chars_of, extend_chars, string_of};
use crate::types::file_perms::UMask;
use crate::types::Micros;
use std::time::Duration;
use ttl_cache::TtlCache;
use vstd::prelude::*;

verus! {

/// How long a fresh link is remembered, in milliseconds.
pub const SYMLINK_EXPIRE_MS: u64 = 500;

/// How long a process that tried to delete the canary is denied further
/// deletes, in milliseconds.
pub const UNLINK_EXPIRE_MS: u64 = 2000;

/// How long the state of an alias file that is being written is kept, in
/// milliseconds.
pub const ALIAS_EXPIRE_MS: u64 = 500;

/// How long an entry of a directory listing is kept, in seconds.
pub const READDIR_EXPIRE_S: u64 = 1;

pub const MAX_SYMLINK_ENTRIES: usize = 10_000;

pub const MAX_READDIR_ENTRIES: usize = 100_000;

pub const MAX_CREATE_ENTRIES: usize = 10_000;

pub const MAX_RM_ENTRIES: usize = 100_000;

/// The longest time to live that the cache takes, in milliseconds.
pub const MAX_TTL_MS: u64 = 86_400_000;

/// The caller of a file system operation.
#[derive(Debug, Clone, Copy, PartialEq, Eq, PartialOrd, Ord, Hash, Structural)]
pub struct Request {
    pub uid: u32,
    pub gid: u32,
    pub pid: i32,
    pub umask: u32,
}

/// An entry of a directory listing, as the store gave it.
#[derive(Debug)]
pub enum ReaddirCacheEntry {
    File(TaggedFile),
    Tag(Tag),
    TagGroup(TagGroup),
}

/// A `ReaddirCacheEntry` as a view.
pub enum ReaddirCacheEntryView {
    File(TaggedFileView),
    Tag(TagView),
    TagGroup(TagGroupView),
}

impl View for ReaddirCacheEntry {
    type V = ReaddirCacheEntryView;

    open spec fn view(&self) -> ReaddirCacheEntryView {
        match self {
            ReaddirCacheEntry::File(f) => ReaddirCacheEntryView::File(f@),
            ReaddirCacheEntry::Tag(t) => ReaddirCacheEntryView::Tag(t@),
            ReaddirCacheEntry::TagGroup(g) => ReaddirCacheEntryView::TagGroup(g@),
        }
    }
}

impl Clone for ReaddirCacheEntry {
    fn clone(&self) -> (r: Self)
        ensures
            r@ == self@,
    {
        match self {
            ReaddirCacheEntry::File(f) => ReaddirCacheEntry::File(f.clone()),
            ReaddirCacheEntry::Tag(t) => ReaddirCacheEntry::Tag(t.clone()),
            ReaddirCacheEntry::TagGroup(g) => ReaddirCacheEntry::TagGroup(g.clone()),
        }
    }
}

/// An extended attribute that is being set.
#[derive(Debug)]
pub struct XAttr {
    pub name: String,
    pub value: Vec<u8>,
    pub position: u32,
    pub flags: i32,
}

/// The state of an alias file that is being written: how much of the
/// header has been seen, and whether what was written so far can be an
/// alias file.
#[derive(Debug)]
pub struct Alias {
    /// How many bytes of the header have been matched.
    pub header_ptr: u8,
    /// The path that the writer thinks it writes to.
    pub path: String,
    pub btime: Micros,
    pub mtime: Micros,
    pub mode: u32,
    pub umask: UMask,
    pub uid: u32,
    pub gid: u32,
    /// Whether the file was linked under its tags already.
    pub linked: bool,
    /// Whether the header matched; `None` while that is open.
    pub valid: Option<bool>,
    /// The file that holds the bytes.
    pub managed_file: String,
    /// One past the last byte written.
    pub written: usize,
}

/// An `Alias` as a view.
pub struct AliasView {
    pub header_ptr: u8,
    pub path: Seq<char>,
    pub btime: Micros,
    pub mtime: Micros,
    pub mode: u32,
    pub umask: UMask,
    pub uid: u32,
    pub gid: u32,
    pub linked: bool,
    pub valid: Option<bool>,
    pub managed_file: Seq<char>,
    pub written: usize,
}

impl View for Alias {
    type V = AliasView;

    open spec fn view(&self) -> AliasView {
        AliasView {
            header_ptr: self.header_ptr,
            path: self.path@,
            btime: self.btime,
            mtime: self.mtime,
            mode: self.mode,
            umask: self.umask,
            uid: self.uid,
            gid: self.gid,
            linked: self.linked,
            valid: self.valid,
            managed_file: self.managed_file@,
            written: self.written,
        }
    }
}

impl Clone for Alias {
    fn clone(&self) -> (r: Self)
        ensures
            r@ == self@,
    {
        Alias {
            header_ptr: self.header_ptr,
            path: self.path.clone(),
            btime: self.btime,
            mtime: self.mtime,
            mode: self.mode,
            umask: self.umask,
            uid: self.uid,
            gid: self.gid,
            linked: self.linked,
            valid: self.valid,
            managed_file: self.managed_file.clone(),
            written: self.written,
        }
    }
}

/// What checking bytes against the header finds: the number of header
/// bytes matched after them, and whether the header is known to match
/// (`Some(true)`, once all of its bytes have matched), known not to
/// (`Some(false)`, at the first byte that differs), or still open.
pub open spec fn header_scan(ptr: nat, data: Seq<u8>) -> (nat, Option<bool>)
    decreases data.len(),
{
    if ptr >= ALIAS_HEADER_LEN {
        (ptr, Some(true))
    } else if data.len() == 0 {
        (ptr, None)
    } else if alias_header()[ptr as int] == data[0] {
        header_scan(ptr + 1, data.drop_first())
    } else {
        (ptr, Some(false))
    }
}

/// The state in which a write at `offset` finds the alias: a write that
/// begins inside the header opens the question of validity again.
pub open spec fn rewound(a: AliasView, offset: usize, now: Micros) -> AliasView {
    if offset < ALIAS_HEADER_LEN {
        AliasView { mtime: now, written: offset, header_ptr: offset as u8, valid: None, ..a }
    } else {
        AliasView { mtime: now, written: offset, ..a }
    }
}

/// What a write of `data` at `offset` does to the state of an alias, and
/// whether the write is accepted. A linked alias takes no write. A write
/// to an alias known to be invalid is refused. While validity is open and
/// the write begins inside the header, the bytes are checked against the
/// header: the first byte that differs makes the alias invalid and the
/// write is refused; once all bytes of the header have matched, the
/// alias is known to be valid.
pub open spec fn alias_write(a: AliasView, data: Seq<u8>, offset: usize, now: Micros) -> (
    AliasView,
    bool,
) {
    if a.linked {
        (a, false)
    } else {
        let b = rewound(a, offset, now);
        let done = AliasView { written: (offset + data.len()) as usize, ..b };
        match b.valid {
            Some(false) => (b, false),
            Some(true) => (done, true),
            None => if b.written < ALIAS_HEADER_LEN {
                let (ptr, found) = header_scan(b.header_ptr as nat, data);
                match found {
                    Some(false) => (
                        AliasView { header_ptr: ptr as u8, valid: Some(false), ..b },
                        false,
                    ),
                    _ => (AliasView { header_ptr: ptr as u8, valid: found, ..done }, true),
                }
            } else {
                (done, true)
            },
        }
    }
}

impl Alias {
    /// The state of an alias file that was just created.
    pub fn new(
        path: &str,
        mode: u32,
        umask: UMask,
        uid: u32,
        gid: u32,
        managed_file: &str,
        now: Micros,
    ) -> (r: Self)
        ensures
            r@ == (AliasView {
                header_ptr: 0,
                path: path@,
                btime: now,
                mtime: now,
                mode,
                umask,
                uid,
                gid,
                linked: false,
                valid: None,
                managed_file: managed_file@,
                written: 0,
            }),
    {
        Alias {
            header_ptr: 0,
            path: String::from_str(path),
            btime: now,
            mtime: now,
            mode,
            umask,
            uid,
            gid,
            linked: false,
            valid: None,
            managed_file: String::from_str(managed_file),
            written: 0,
        }
    }

    /// Whether the file is an alias file: the header matched and more than
    /// the header was written.
    pub fn is_valid(&self) -> (r: bool)
        ensures
            r == (self.valid == Some(true) && self.written > ALIAS_HEADER_LEN),
    {
        match self.valid {
            Some(true) => self.written > ALIAS_HEADER_LEN,
            _ => false,
        }
    }

    /// Starts the alias file over, as after a truncation: nothing counts
    /// as written.
    pub fn restart(&mut self)
        ensures
            final(self)@ == restarted(old(self)@),
    {
        self.written = 0;
    }

    /// Takes note of a write of `data` at `offset` and says whether it is
    /// accepted; a refused write is to fail with `EPERM`.
    pub fn write(&mut self, data: &[u8], offset: usize, now: Micros) -> (r: Result<(), Errno>)
        requires
            offset + data@.len() <= usize::MAX,
            old(self).header_ptr <= ALIAS_HEADER_LEN,
        ensures
            final(self)@ == alias_write(old(self)@, data@, offset, now).0,
            r is Ok == alias_write(old(self)@, data@, offset, now).1,
            r is Err ==> r == Err::<(), Errno>(Errno::EPERM),
            final(self).header_ptr <= ALIAS_HEADER_LEN,
    {
        if self.linked {
            return Err(Errno::EPERM);
        }
        self.mtime = now;
        self.written = offset;
        if offset < ALIAS_HEADER_LEN {
            self.header_ptr = offset as u8;
            self.valid = None;
        }
        let ghost b = self@;
        assert(b == rewound(old(self)@, offset, now));
        match self.valid {
            Some(false) => {
                return Err(Errno::EPERM);
            },
            Some(true) => {},
            None => {
                if self.written < ALIAS_HEADER_LEN {
                    let mut i: usize = 0;
                    assert(data@.skip(0) =~= data@);
                    while i < data.len() && (self.header_ptr as usize) < ALIAS_HEADER_LEN
                        invariant
                            i <= data.len(),
                            self.header_ptr <= ALIAS_HEADER_LEN,
                            self.valid is None,
                            self@ == (AliasView { header_ptr: self.header_ptr, ..b }),
                            header_scan(b.header_ptr as nat, data@) == header_scan(
                                self.header_ptr as nat,
                                data@.skip(i as int),
                            ),
                            b.valid is None,
                            !old(self).linked,
                            b.written < ALIAS_HEADER_LEN,
                            b == rewound(old(self)@, offset, now),
                        decreases data.len() - i,
                    {
                        let ch = data[i];
                        assert(data@.skip(i as int)[0] == ch);
                        assert(data@.skip(i as int).drop_first() =~= data@.skip(i + 1));
                        let bch = alias_header_byte(self.header_ptr as usize);
                        if bch == ch {
                            self.header_ptr = self.header_ptr + 1;
                        } else {
                            self.valid = Some(false);
                            return Err(Errno::EPERM);
                        }
                        i += 1;
                    }
                    if self.header_ptr as usize >= ALIAS_HEADER_LEN {
                        self.valid = Some(true);
                    }
                }
            },
        }
        self.written = self.written + data.len();
        Ok(())
    }
}

/// What a cache holds under a key.
#[derive(Debug)]
pub enum CacheValue {
    /// A fresh link.
    Symlink(TaggedFile),
    /// An entry of a directory listing.
    Entry(ReaddirCacheEntry),
    /// The state of an alias file that is being written.
    Alias(Alias),
    /// Nothing but the key.
    Mark,
}

/// A `CacheValue` as a view.
pub enum CacheValueView {
    Symlink(TaggedFileView),
    Entry(ReaddirCacheEntryView),
    Alias(AliasView),
    Mark,
}

impl View for CacheValue {
    type V = CacheValueView;

    open spec fn view(&self) -> CacheValueView {
        match self {
            CacheValue::Symlink(f) => CacheValueView::Symlink(f@),
            CacheValue::Entry(e) => CacheValueView::Entry(e@),
            CacheValue::Alias(a) => CacheValueView::Alias(a@),
            CacheValue::Mark => CacheValueView::Mark,
        }
    }
}

impl Clone for CacheValue {
    fn clone(&self) -> (r: Self)
        ensures
            r@ == self@,
    {
        match self {
            CacheValue::Symlink(f) => CacheValue::Symlink(f.clone()),
            CacheValue::Entry(e) => CacheValue::Entry(e.clone()),
            CacheValue::Alias(a) => CacheValue::Alias(a.clone()),
            CacheValue::Mark => CacheValue::Mark,
        }
    }
}

/// The cache of the `ttl_cache` crate: a map whose entries are given a
/// time to live and are no longer found once it has passed.
#[verifier::external_type_specification]
#[verifier::external_body]
#[verifier::reject_recursive_types(K)]
#[verifier::reject_recursive_types(V)]
#[verifier::reject_recursive_types(S)]
pub struct ExTtlCache<K: Eq + std::hash::Hash, V, S: std::hash::BuildHasher>(TtlCache<K, V, S>);

/// The entries that a cache stores, expired or not: each key with its
/// value.
pub uninterp spec fn cache_entries(c: TtlCache<String, CacheValue>) -> Map<Seq<char>, CacheValueView>;

/// The number of entries that a cache was made to hold.
pub uninterp spec fn cache_limit(c: TtlCache<String, CacheValue>) -> nat;

/// The entries of an empty cache.
pub open spec fn no_entries() -> Map<Seq<char>, CacheValueView> {
    Map::empty()
}

/// Makes an empty cache.
///
/// Trusted: `TtlCache::new` returns a cache without entries that holds at
/// most `capacity` of them.
#[verifier::external_body]
pub(crate) fn cache_new(capacity: usize) -> (c: TtlCache<String, CacheValue>)
    ensures
        cache_entries(c) == no_entries(),
        cache_limit(c) == capacity,
{
    TtlCache::new(capacity)
}

/// Stores a value under a key for `ttl_ms` milliseconds.
///
/// Trusted: after `TtlCache::insert` the cache stores the value under the
/// key; every other entry that it stores was stored before, with the same
/// value (where the cache was full, the entry used least recently is
/// gone). The limit stays.
#[verifier::external_body]
pub(crate) fn cache_insert(
    c: &mut TtlCache<String, CacheValue>,
    key: String,
    value: CacheValue,
    ttl_ms: u64,
)
    requires
        cache_limit(*old(c)) >= 1,
        ttl_ms <= MAX_TTL_MS,
    ensures
        cache_entries(*final(c)).contains_key(key@),
        cache_entries(*final(c))[key@] == value@,
        forall|k: Seq<char>|
            k != key@ && #[trigger] cache_entries(*final(c)).contains_key(k) ==> cache_entries(
                *old(c),
            ).contains_key(k) && cache_entries(*final(c))[k] == cache_entries(*old(c))[k],
        cache_limit(*final(c)) == cache_limit(*old(c)),
{
    c.insert(key, value, Duration::from_millis(ttl_ms));
}

/// Looks a key up.
///
/// Trusted: `TtlCache::get` finds the value stored under the key, or
/// nothing: an entry whose time has passed is not found.
#[verifier::external_body]
pub(crate) fn cache_get(c: &TtlCache<String, CacheValue>, key: &str) -> (r: Option<CacheValue>)
    ensures
        match r {
            Some(v) => cache_entries(*c).contains_key(key@) && cache_entries(*c)[key@] == v@,
            None => true,
        },
{
    c.get(key).cloned()
}

/// Removes a key.
///
/// Trusted: after `TtlCache::remove` the cache stores nothing under the
/// key and everything else as before. It returns the value that was
/// stored under the key, or nothing where its time had passed.
#[verifier::external_body]
pub(crate) fn cache_remove(c: &mut TtlCache<String, CacheValue>, key: &str) -> (r: Option<
    CacheValue,
>)
    ensures
        cache_entries(*final(c)) == cache_entries(*old(c)).remove(key@),
        cache_limit(*final(c)) == cache_limit(*old(c)),
        match r {
            Some(v) => cache_entries(*old(c)).contains_key(key@) && cache_entries(*old(c))[key@]
                == v@,
            None => true,
        },
{
    c.remove(key)
}

/// Puts a new value in the place of the one found under a key.
///
/// Trusted: `TtlCache::get_mut` hands out the value stored under the key
/// where its time has not passed; the new value is written there. The
/// time to live of the entry stays as it was.
#[verifier::external_body]
pub(crate) fn cache_replace(c: &mut TtlCache<String, CacheValue>, key: &str, value: CacheValue) -> (done:
    bool)
    ensures
        cache_limit(*final(c)) == cache_limit(*old(c)),
        done ==> cache_entries(*old(c)).contains_key(key@) && cache_entries(*final(c))
            == cache_entries(*old(c)).insert(key@, value@),
        !done ==> cache_entries(*final(c)) == cache_entries(*old(c)),
{
    match c.get_mut(key) {
        Some(slot) => {
            *slot = value;
            true
        },
        None => false,
    }
}

/// The alias file in what a lookup in a cache gave: the one that the
/// value holds, where a value was found and holds one.
pub fn alias_in(found: Option<CacheValue>) -> (r: Option<Alias>)
    ensures
        match found {
            Some(CacheValue::Alias(a)) => r == Some(a),
            _ => r is None,
        },
{
    match found {
        Some(CacheValue::Alias(a)) => Some(a),
        _ => None,
    }
}

/// The entry of a directory listing in what a lookup in a cache gave: the
/// one that the value holds, where a value was found and holds one.
pub fn entry_in(found: Option<CacheValue>) -> (r: Option<ReaddirCacheEntry>)
    ensures
        match found {
            Some(CacheValue::Entry(e)) => r == Some(e),
            _ => r is None,
        },
{
    match found {
        Some(CacheValue::Entry(e)) => Some(e),
        _ => None,
    }
}

/// An alias file of which nothing counts as written.
pub open spec fn restarted(a: AliasView) -> AliasView {
    AliasView { written: 0, ..a }
}

/// The caches of the file system.
pub struct OpCache {
    pub symbols: Symbols,
    /// Files that were just linked, by caller and path.
    pub symlink_cache: TtlCache<String, CacheValue>,
    /// Entries of directory listings, by path.
    pub readdir_cache: TtlCache<String, CacheValue>,
    /// Alias files that are being written, by path.
    pub alias_cache: TtlCache<String, CacheValue>,
    /// Processes that tried to delete the canary, by process id.
    pub unlink_canary_cache: TtlCache<String, CacheValue>,
    /// Paths that were just renamed to the delete name.
    pub rename_delete_cache: TtlCache<String, CacheValue>,
}

/// The caches as maps.
pub struct OpCacheView {
    pub symlinks: Map<Seq<char>, CacheValueView>,
    pub readdir: Map<Seq<char>, CacheValueView>,
    pub aliases: Map<Seq<char>, CacheValueView>,
    pub denied: Map<Seq<char>, CacheValueView>,
    pub deleted: Map<Seq<char>, CacheValueView>,
}

impl View for OpCache {
    type V = OpCacheView;

    open spec fn view(&self) -> OpCacheView {
        OpCacheView {
            symlinks: cache_entries(self.symlink_cache),
            readdir: cache_entries(self.readdir_cache),
            aliases: cache_entries(self.alias_cache),
            denied: cache_entries(self.unlink_canary_cache),
            deleted: cache_entries(self.rename_delete_cache),
        }
    }
}

/// The key of a caller and a path: the caller's ids and umask, and the
/// path in its plain form.
pub open spec fn symlink_key(req: Request, path: Seq<char>) -> Seq<char> {
    digits_of(req.uid as nat, 10) + seq![':'] + digits_of(req.gid as nat, 10) + seq![':']
        + crate::num::signed_dec(req.pid as int) + seq![':'] + digits_of(req.umask as nat, 10)
        + seq![':'] + canonical(path)
}

/// The key of a process.
pub open spec fn pid_key(pid: i32) -> Seq<char> {
    crate::num::signed_dec(pid as int)
}

/// `new` stores everything that `old` stores but what is under `key`.
pub open spec fn kept_but(
    old: Map<Seq<char>, CacheValueView>,
    new: Map<Seq<char>, CacheValueView>,
    key: Seq<char>,
) -> bool {
    forall|k: Seq<char>|
        k != key && #[trigger] new.contains_key(k) ==> old.contains_key(k) && new[k] == old[k]
}

/// Whether one of the components is the file directory.
pub open spec fn has_filedir(tags: Seq<TagTypeView>) -> bool {
    exists|i: int| 0 <= i < tags.len() && #[trigger] tags[i] is FileDir
}

/// The path with the file directory before its last component, where the
/// path has none.
pub open spec fn with_filedir(path: Seq<char>, syms: SymbolsView) -> Seq<char> {
    let c = components(path);
    if has_filedir(path_tags(path, syms)) || c.len() == 0 || !(c.last() is Normal) {
        canonical(path)
    } else {
        render(c.drop_last().push(PartView::Normal(syms.filedir_str)).push(c.last()))
    }
}

/// The path without the component before its last, where the path has a
/// file directory.
pub open spec fn without_filedir(path: Seq<char>, syms: SymbolsView) -> Seq<char> {
    let c = components(path);
    if !has_filedir(path_tags(path, syms)) || c.len() < 2 || !(c.last() is Normal) || c[c.len()
        - 2] is Root {
        canonical(path)
    } else {
        render(c.take(c.len() - 2).push(c.last()))
    }
}

impl OpCache {
    /// Every cache can hold at least one entry.
    pub open spec fn inv(&self) -> bool {
        &&& cache_limit(self.symlink_cache) >= 1
        &&& cache_limit(self.readdir_cache) >= 1
        &&& cache_limit(self.alias_cache) >= 1
        &&& cache_limit(self.unlink_canary_cache) >= 1
        &&& cache_limit(self.rename_delete_cache) >= 1
    }

    /// Empty caches.
    pub fn new(symbols: Symbols) -> (c: Self)
        ensures
            c.inv(),
            c.symbols@ == symbols@,
            c@.symlinks == no_entries(),
            c@.readdir == no_entries(),
            c@.aliases == no_entries(),
            c@.denied == no_entries(),
            c@.deleted == no_entries(),
    {
        Self {
            symbols,
            symlink_cache: cache_new(MAX_SYMLINK_ENTRIES),
            readdir_cache: cache_new(MAX_READDIR_ENTRIES),
            alias_cache: cache_new(MAX_CREATE_ENTRIES),
            unlink_canary_cache: cache_new(MAX_RM_ENTRIES),
            rename_delete_cache: cache_new(MAX_RM_ENTRIES),
        }
    }

    /// Whether the path has a file directory among its components.
    fn path_has_filedir(&self, path: &str) -> (r: bool)
        ensures
            r == has_filedir(path_tags(path@, self.symbols@)),
    {
        let tags = self.symbols.path_to_tags(path);
        let mut i: usize = 0;
        while i < tags.len()
            invariant
                i <= tags.len(),
                tag_views(tags@) == path_tags(path@, self.symbols@),
                forall|j: int| 0 <= j < i ==> !(#[trigger] tag_views(tags@)[j] is FileDir),
            decreases tags.len() - i,
        {
            assert(tag_views(tags@)[i as int] == tags@[i as int]@);
            if matches!(tags[i], TagType::FileDir) {
                assert(path_tags(path@, self.symbols@)[i as int] is FileDir);
                return true;
            }
            i += 1;
        }
        false
    }

    /// The path with a file directory before its last component, where
    /// it has none.
    pub fn ensure_filedir(&self, path: &str) -> (r: String)
        ensures
            r@ == with_filedir(path@, self.symbols@),
    {
        let mut parts = components_of(path);
        let ghost c = part_views(parts@);
        if self.path_has_filedir(path) || parts.len() == 0 {
            return render_parts(parts.as_slice());
        }
        assert(c.last() == parts@.last()@);
        match parts.pop() {
            Some(PathPart::Normal(last)) => {
                assert(part_views(parts@) =~= c.drop_last());
                let ghost a = part_views(parts@);
                parts.push(PathPart::Normal(self.symbols.filedir_str.clone()));
                let ghost b = part_views(parts@);
                assert(b =~= a.push(PartView::Normal(self.symbols.filedir_str@)));
                parts.push(PathPart::Normal(last));
                assert(part_views(parts@) =~= b.push(c.last()));
                render_parts(parts.as_slice())
            },
            _ => canonical_of(path),
        }
    }

    /// The path without the file directory before its last component.
    pub fn ensure_no_filedir(&self, path: &str) -> (r: String)
        ensures
            r@ == without_filedir(path@, self.symbols@),
    {
        let mut parts = components_of(path);
        let ghost c = part_views(parts@);
        if !self.path_has_filedir(path) || parts.len() < 2 {
            return render_parts(parts.as_slice());
        }
        assert(c.last() == parts@.last()@);
        assert(c[c.len() - 2] == parts@[parts@.len() - 2]@);
        if matches!(parts[parts.len() - 2], PathPart::Root) {
            return render_parts(parts.as_slice());
        }
        match parts.pop() {
            Some(PathPart::Normal(last)) => {
                parts.pop();
                assert(part_views(parts@) =~= c.take(c.len() - 2));
                let ghost a = part_views(parts@);
                parts.push(PathPart::Normal(last));
                assert(part_views(parts@) =~= a.push(c.last()));
                render_parts(parts.as_slice())
            },
            _ => canonical_of(path),
        }
    }

    /// The key of a caller and a path.
    fn make_symlink_key(req: &Request, path: &str) -> (k: String)
        ensures
            k@ == symlink_key(*req, path@),
    {
        let mut v = u64_to_dec(req.uid as u64);
        v.push(':');
        let g = u64_to_dec(req.gid as u64);
        extend_chars(&mut v, g.as_slice());
        v.push(':');
        let p = crate::num::i64_to_dec(req.pid as i64);
        extend_chars(&mut v, p.as_slice());
        v.push(':');
        let u = u64_to_dec(req.umask as u64);
        extend_chars(&mut v, u.as_slice());
        v.push(':');
        let c = chars_of(canonical_of(path).as_str());
        extend_chars(&mut v, c.as_slice());
        string_of(v.as_slice())
    }

    /// The key of a process.
    fn make_pid_key(pid: i32) -> (k: String)
        ensures
            k@ == pid_key(pid),
    {
        let p = crate::num::i64_to_dec(pid as i64);
        string_of(p.as_slice())
    }

    /// Keeps the state of an alias file that was just created at `path`.
    pub fn create_alias(
        &mut self,
        path: &str,
        mode: u32,
        umask: UMask,
        uid: u32,
        gid: u32,
        managed_file: &str,
        now: Micros,
    ) -> (alias: Alias)
        requires
            old(self).inv(),
        ensures
            final(self).inv(),
            final(self).symbols == old(self).symbols,
            alias@ == Alias::fresh(path@, mode, umask, uid, gid, managed_file@, now),
            final(self)@.aliases.contains_key(canonical(path@)),
            final(self)@.aliases[canonical(path@)] == CacheValueView::Alias(alias@),
            kept_but(old(self)@.aliases, final(self)@.aliases, canonical(path@)),
            final(self)@.symlinks == old(self)@.symlinks,
            final(self)@.readdir == old(self)@.readdir,
            final(self)@.denied == old(self)@.denied,
            final(self)@.deleted == old(self)@.deleted,
    {
        let alias = Alias::new(path, mode, umask, uid, gid, managed_file, now);
        cache_insert(
            &mut self.alias_cache,
            canonical_of(path),
            CacheValue::Alias(alias.clone()),
            ALIAS_EXPIRE_MS,
        );
        alias
    }

    /// Forgets the alias file at `path`, with and without a file
    /// directory in the path.
    pub fn clear_alias(&mut self, path: &str)
        requires
            old(self).inv(),
        ensures
            final(self).inv(),
            final(self).symbols == old(self).symbols,
            final(self)@.aliases == old(self)@.aliases.remove(
                with_filedir(path@, old(self).symbols@),
            ).remove(without_filedir(path@, old(self).symbols@)),
            final(self)@.symlinks == old(self)@.symlinks,
            final(self)@.readdir == old(self)@.readdir,
            final(self)@.denied == old(self)@.denied,
            final(self)@.deleted == old(self)@.deleted,
    {
        let with = self.ensure_filedir(path);
        let without = self.ensure_no_filedir(path);
        let _ = cache_remove(&mut self.alias_cache, with.as_str());
        let _ = cache_remove(&mut self.alias_cache, without.as_str());
    }

    /// The state of the alias file at `path`, if it is remembered.
    pub fn check_alias_entry(&self, path: &str) -> (r: Option<Alias>)
        ensures
            match r {
                Some(a) => self@.aliases.contains_key(canonical(path@)) && self@.aliases[canonical(
                    path@,
                )] == CacheValueView::Alias(a@),
                None => true,
            },
    {
        let key = canonical_of(path);
        alias_in(cache_get(&self.alias_cache, key.as_str()))
    }

    /// Keeps a new state of the alias file at `path`, where one is
    /// remembered. Says whether it was: only an alias file that the cache
    /// stores can get a new state.
    pub fn update_alias(&mut self, path: &str, alias: Alias) -> (done: bool)
        requires
            old(self).inv(),
        ensures
            final(self).inv(),
            final(self).symbols == old(self).symbols,
            done ==> old(self)@.aliases.contains_key(canonical(path@)),
            done ==> final(self)@.aliases == old(self)@.aliases.insert(
                canonical(path@),
                CacheValueView::Alias(alias@),
            ),
            !done ==> final(self)@.aliases == old(self)@.aliases,
            final(self)@.symlinks == old(self)@.symlinks,
            final(self)@.readdir == old(self)@.readdir,
            final(self)@.denied == old(self)@.denied,
            final(self)@.deleted == old(self)@.deleted,
    {
        let key = canonical_of(path);
        cache_replace(&mut self.alias_cache, key.as_str(), CacheValue::Alias(alias))
    }

    /// Denies the process further deletes for a while.
    pub fn add_deny_delete_pid(&mut self, pid: i32)
        requires
            old(self).inv(),
        ensures
            final(self).inv(),
            final(self).symbols == old(self).symbols,
            final(self)@.denied.contains_key(pid_key(pid)),
            kept_but(old(self)@.denied, final(self)@.denied, pid_key(pid)),
            final(self)@.symlinks == old(self)@.symlinks,
            final(self)@.readdir == old(self)@.readdir,
            final(self)@.aliases == old(self)@.aliases,
            final(self)@.deleted == old(self)@.deleted,
    {
        cache_insert(
            &mut self.unlink_canary_cache,
            Self::make_pid_key(pid),
            CacheValue::Mark,
            UNLINK_EXPIRE_MS,
        );
    }

    /// Whether the process is denied deletes: only a process that was
    /// denied is.
    pub fn check_delete_pid(&self, pid: i32) -> (r: bool)
        ensures
            r ==> self@.denied.contains_key(pid_key(pid)),
    {
        let key = Self::make_pid_key(pid);
        cache_get(&self.unlink_canary_cache, key.as_str()).is_some()
    }

    /// Keeps an entry of a directory listing under its path.
    pub fn add_readdir_entry(&mut self, path: &str, entry: ReaddirCacheEntry)
        requires
            old(self).inv(),
        ensures
            final(self).inv(),
            final(self).symbols == old(self).symbols,
            final(self)@.readdir.contains_key(canonical(path@)),
            final(self)@.readdir[canonical(path@)] == CacheValueView::Entry(entry@),
            kept_but(old(self)@.readdir, final(self)@.readdir, canonical(path@)),
            final(self)@.symlinks == old(self)@.symlinks,
            final(self)@.aliases == old(self)@.aliases,
            final(self)@.denied == old(self)@.denied,
            final(self)@.deleted == old(self)@.deleted,
    {
        cache_insert(
            &mut self.readdir_cache,
            canonical_of(path),
            CacheValue::Entry(entry),
            READDIR_EXPIRE_S * 1000,
        );
    }

    /// The entry kept under the path, if one is found.
    pub fn check_readdir_entry(&self, path: &str) -> (r: Option<ReaddirCacheEntry>)
        ensures
            match r {
                Some(e) => self@.readdir.contains_key(canonical(path@)) && self@.readdir[canonical(
                    path@,
                )] == CacheValueView::Entry(e@),
                None => true,
            },
    {
        let key = canonical_of(path);
        entry_in(cache_get(&self.readdir_cache, key.as_str()))
    }

    /// Forgets the entry kept under the path. Returns it, if one was
    /// found.
    pub fn clear_readdir_entry(&mut self, path: &str) -> (r: Option<ReaddirCacheEntry>)
        requires
            old(self).inv(),
        ensures
            final(self).inv(),
            final(self).symbols == old(self).symbols,
            final(self)@.readdir == old(self)@.readdir.remove(canonical(path@)),
            final(self)@.symlinks == old(self)@.symlinks,
            final(self)@.aliases == old(self)@.aliases,
            final(self)@.denied == old(self)@.denied,
            final(self)@.deleted == old(self)@.deleted,
            match r {
                Some(e) => old(self)@.readdir.contains_key(canonical(path@)) && old(
                    self,
                )@.readdir[canonical(path@)] == CacheValueView::Entry(e@),
                None => true,
            },
    {
        let key = canonical_of(path);
        match cache_remove(&mut self.readdir_cache, key.as_str()) {
            Some(CacheValue::Entry(e)) => Some(e),
            _ => None,
        }
    }

    /// Remembers a file that the caller just linked at the path.
    pub fn add_symlink(&mut self, req: &Request, path: &str, tagged_file: TaggedFile)
        requires
            old(self).inv(),
        ensures
            final(self).inv(),
            final(self).symbols == old(self).symbols,
            final(self)@.symlinks.contains_key(symlink_key(*req, path@)),
            final(self)@.symlinks[symlink_key(*req, path@)] == CacheValueView::Symlink(
                tagged_file@,
            ),
            kept_but(old(self)@.symlinks, final(self)@.symlinks, symlink_key(*req, path@)),
            final(self)@.readdir == old(self)@.readdir,
            final(self)@.aliases == old(self)@.aliases,
            final(self)@.denied == old(self)@.denied,
            final(self)@.deleted == old(self)@.deleted,
    {
        cache_insert(
            &mut self.symlink_cache,
            Self::make_symlink_key(req, path),
            CacheValue::Symlink(tagged_file),
            SYMLINK_EXPIRE_MS,
        );
    }

    /// Takes the file that the caller just linked at the path out of the
    /// cache, if it is found there.
    pub fn consume_symlink(&mut self, req: &Request, path: &str) -> (r: Option<TaggedFile>)
        requires
            old(self).inv(),
        ensures
            final(self).inv(),
            final(self).symbols == old(self).symbols,
            final(self)@.symlinks == old(self)@.symlinks.remove(symlink_key(*req, path@)),
            final(self)@.readdir == old(self)@.readdir,
            final(self)@.aliases == old(self)@.aliases,
            final(self)@.denied == old(self)@.denied,
            final(self)@.deleted == old(self)@.deleted,
            match r {
                Some(f) => old(self)@.symlinks.contains_key(symlink_key(*req, path@)) && old(
                    self,
                )@.symlinks[symlink_key(*req, path@)] == CacheValueView::Symlink(f@),
                None => true,
            },
    {
        let key = Self::make_symlink_key(req, path);
        match cache_remove(&mut self.symlink_cache, key.as_str()) {
            Some(CacheValue::Symlink(f)) => Some(f),
            _ => None,
        }
    }

    /// Remembers a path that was just renamed to the delete name.
    pub fn add_rename_delete_entry(&mut self, path: &str)
        requires
            old(self).inv(),
        ensures
            final(self).inv(),
            final(self).symbols == old(self).symbols,
            final(self)@.deleted.contains_key(canonical(path@)),
            kept_but(old(self)@.deleted, final(self)@.deleted, canonical(path@)),
            final(self)@.symlinks == old(self)@.symlinks,
            final(self)@.readdir == old(self)@.readdir,
            final(self)@.aliases == old(self)@.aliases,
            final(self)@.denied == old(self)@.denied,
    {
        cache_insert(
            &mut self.rename_delete_cache,
            canonical_of(path),
            CacheValue::Mark,
            SYMLINK_EXPIRE_MS,
        );
    }

    /// Takes a path that was just renamed to the delete name out of the
    /// cache. Says whether it was found there.
    pub fn consume_rename_delete(&mut self, path: &str) -> (r: bool)
        requires
            old(self).inv(),
        ensures
            final(self).inv(),
            final(self).symbols == old(self).symbols,
            final(self)@.deleted == old(self)@.deleted.remove(canonical(path@)),
            r ==> old(self)@.deleted.contains_key(canonical(path@)),
            final(self)@.symlinks == old(self)@.symlinks,
            final(self)@.readdir == old(self)@.readdir,
            final(self)@.aliases == old(self)@.aliases,
            final(self)@.denied == old(self)@.denied,
    {
        let key = canonical_of(path);
        cache_remove(&mut self.rename_delete_cache, key.as_str()).is_some()
    }
}

impl Alias {
    /// The state of an alias file that was just created.
    pub open spec fn fresh(
        path: Seq<char>,
        mode: u32,
        umask: UMask,
        uid: u32,
        gid: u32,
        managed_file: Seq<char>,
        now: Micros,
    ) -> AliasView {
        AliasView {
            header_ptr: 0,
            path,
            btime: now,
            mtime: now,
            mode,
            umask,
            uid,
            gid,
            linked: false,
            valid: None,
            managed_file,
            written: 0,
        }
    }
}

} // verus!
