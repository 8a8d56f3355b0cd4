//! The settings of a collection: the characters and names with a special
//! meaning in paths, the owner of the mounted root, the directories of the
//! collection, and the grammar that turns a path into components by kind.

use crate::common::{
    ext_prefix_stripped, negated_tag, strip_ext_prefix, strip_negative_tag,
};
use crate::err::{STagError, STagErrorView};
use crate::num::{digits_of, parse_unsigned, read_unsigned, u64_to_dec};
use crate::path::{
    components, components_of, file_name, get_filename, is_rooted, names_of, normal_names,
    part_views, PathPart, SEPARATOR,
};
use crate::text::{chars_of, extend_chars, str_eq, string_of, views_of};
use crate::types::file_perms::Permissions;
use crate::types::{tag_views, DeviceFile, DeviceFileView, TagCollection, TagType, TagTypeView};
use vstd::prelude::*;

verus! {

/// The characters and names with a special meaning in paths.
#[derive(Debug)]
pub struct Symbols {
    /// Stands between a file's name and its device number.
    pub device_char: char,
    /// Stands between the device number and the inode number.
    pub inode_char: char,
    /// At the end of a path, asks for the caches of that path to be flushed.
    pub sync_char: char,
    /// The name of the directory that lists the files of a path.
    pub filedir_str: String,
    /// A second name of that directory, easier to type.
    pub filedir_cli_str: String,
    /// Marks the directory of a tag group.
    pub tag_group_str: String,
}

/// `Symbols` with its names as sequences of characters.
pub struct SymbolsView {
    pub device_char: char,
    pub inode_char: char,
    pub sync_char: char,
    pub filedir_str: Seq<char>,
    pub filedir_cli_str: Seq<char>,
    pub tag_group_str: Seq<char>,
}

impl View for Symbols {
    type V = SymbolsView;

    open spec fn view(&self) -> SymbolsView {
        SymbolsView {
            device_char: self.device_char,
            inode_char: self.inode_char,
            sync_char: self.sync_char,
            filedir_str: self.filedir_str@,
            filedir_cli_str: self.filedir_cli_str@,
            tag_group_str: self.tag_group_str@,
        }
    }
}

impl Clone for Symbols {
    fn clone(&self) -> (r: Self)
        ensures
            r@ == self@,
    {
        Symbols {
            device_char: self.device_char,
            inode_char: self.inode_char,
            sync_char: self.sync_char,
            filedir_str: self.filedir_str.clone(),
            filedir_cli_str: self.filedir_cli_str.clone(),
            tag_group_str: self.tag_group_str.clone(),
        }
    }
}

/// The symbols used where nothing else is configured.
pub open spec fn default_symbols() -> SymbolsView {
    SymbolsView {
        device_char: '\u{FE6B}',
        inode_char: '-',
        sync_char: '\u{7F}',
        filedir_str: seq!['\u{22C2}'],
        filedir_cli_str: seq!['_'],
        tag_group_str: seq!['+'],
    }
}

impl Default for Symbols {
    fn default() -> (r: Self)
        ensures
            r@ == default_symbols(),
    {
        let filedir: Vec<char> = vec!['\u{22C2}'];
        let cli: Vec<char> = vec!['_'];
        let group: Vec<char> = vec!['+'];
        assert(filedir@ =~= seq!['\u{22C2}']);
        assert(cli@ =~= seq!['_']);
        assert(group@ =~= seq!['+']);
        Symbols {
            device_char: '\u{FE6B}',
            inode_char: '-',
            sync_char: '\u{7F}',
            filedir_str: string_of(filedir.as_slice()),
            filedir_cli_str: string_of(cli.as_slice()),
            tag_group_str: string_of(group.as_slice()),
        }
    }
}

/// The owner and permissions of the mounted root, and where collections
/// are mounted.
#[derive(Debug)]
pub struct Mount {
    pub base_dir: String,
    pub uid: u32,
    pub gid: u32,
    pub permissions: Permissions,
}

/// The configuration of a collection.
#[derive(Debug)]
pub struct Config {
    pub symbols: Symbols,
    pub mount: Mount,
}

/// Where the files of the program are kept. Implemented for each platform.
pub trait Dirs {
    fn project_path(&self) -> String;

    fn cache_dir(&self) -> String;

    fn config_dir(&self) -> String;

    fn data_dir(&self) -> String;

    fn data_local_dir(&self) -> String;

    fn mount_dir(&self) -> String;
}

/// The settings of the running program.
#[derive(Debug)]
pub struct Settings {
    pub config: Config,
    pub collection: Option<String>,
    pub config_dir: String,
    pub data_dir: String,
    pub data_local_dir: String,
}

/// What scanning a file name for device and inode has found so far.
pub struct Scan {
    /// The characters that follow belong to the device number.
    pub in_device: bool,
    /// The characters that follow belong to the inode number.
    pub in_inode: bool,
    pub name: Seq<char>,
    pub device: Seq<char>,
    pub inode: Seq<char>,
}

/// The state before the first character.
pub open spec fn scan_start() -> Scan {
    Scan {
        in_device: false,
        in_inode: false,
        name: Seq::empty(),
        device: Seq::empty(),
        inode: Seq::empty(),
    }
}

/// The state after one more character: the device marker starts the device
/// number; the inode marker, inside the device number, ends it and starts
/// the inode number; the sync character is passed over; any other
/// character goes to the part that is being read.
pub open spec fn scan_step(st: Scan, c: char, syms: SymbolsView) -> Scan {
    if c == syms.device_char {
        Scan { in_device: true, ..st }
    } else if c == syms.inode_char && st.in_device {
        Scan { in_inode: true, in_device: false, ..st }
    } else if c == syms.sync_char {
        st
    } else if st.in_device {
        Scan { device: st.device.push(c), ..st }
    } else if st.in_inode {
        Scan { inode: st.inode.push(c), ..st }
    } else {
        Scan { name: st.name.push(c), ..st }
    }
}

/// The state after all of `s`.
pub open spec fn scan(s: Seq<char>, syms: SymbolsView) -> Scan
    decreases s.len(),
{
    if s.len() == 0 {
        scan_start()
    } else {
        scan_step(scan(s.drop_last(), syms), s.last(), syms)
    }
}

/// What a file name says of device and inode: nothing where no inode
/// number was begun; the file where both numbers read as unsigned 64-bit
/// decimals; an error otherwise.
pub open spec fn device_file_in(filename: Seq<char>, syms: SymbolsView) -> Result<
    Option<DeviceFileView>,
    (),
> {
    let st = scan(filename, syms);
    if !st.in_inode {
        Ok(None)
    } else {
        match (
            parse_unsigned(st.device, 10, u64::MAX as nat),
            parse_unsigned(st.inode, 10, u64::MAX as nat),
        ) {
            (Some(d), Some(i)) => Ok(
                Some(DeviceFileView { filename: st.name, device: d as u64, inode: i as u64 }),
            ),
            _ => Err(()),
        }
    }
}

/// The kind of one component, given whether the component before it is
/// the file directory.
pub open spec fn classify(comp: Seq<char>, after_filedir: bool, syms: SymbolsView) -> TagTypeView {
    if negated_tag(comp) is Some {
        TagTypeView::Negation(negated_tag(comp)->0)
    } else if ext_prefix_stripped(comp, syms.tag_group_str) is Some {
        TagTypeView::Group(ext_prefix_stripped(comp, syms.tag_group_str)->0)
    } else if comp == syms.filedir_str || comp == syms.filedir_cli_str {
        TagTypeView::FileDir
    } else if device_file_in(comp, syms) is Ok && device_file_in(comp, syms)->Ok_0 is Some {
        TagTypeView::DeviceFileSymlink(device_file_in(comp, syms)->Ok_0->0)
    } else if after_filedir {
        TagTypeView::Symlink(comp)
    } else {
        TagTypeView::Regular(comp)
    }
}

/// The kinds of a sequence of component names.
pub open spec fn tags_of_names(names: Seq<Seq<char>>, syms: SymbolsView) -> Seq<TagTypeView>
    decreases names.len(),
{
    if names.len() == 0 {
        Seq::empty()
    } else {
        let head = tags_of_names(names.drop_last(), syms);
        head.push(classify(names.last(), head.len() > 0 && head.last() is FileDir, syms))
    }
}

/// The components of a path by kind.
pub open spec fn path_tags(path: Seq<char>, syms: SymbolsView) -> Seq<TagTypeView> {
    tags_of_names(normal_names(path), syms)
}

/// A file name with device and inode numbers attached.
pub open spec fn inodified(filename: Seq<char>, device: u64, inode: u64, syms: SymbolsView) -> Seq<
    char,
> {
    filename + seq![syms.device_char] + digits_of(device as nat, 10) + seq![syms.inode_char]
        + digits_of(inode as nat, 10)
}

/// `rel` under `base`: `rel` itself where it is absolute or `base` is
/// empty, else `base`, a separator unless `base` ends with one, and `rel`.
pub open spec fn joined(base: Seq<char>, rel: Seq<char>) -> Seq<char> {
    if is_rooted(rel) || base.len() == 0 {
        rel
    } else if base.last() == SEPARATOR {
        base + rel
    } else {
        base + seq![SEPARATOR] + rel
    }
}

/// Joins `rel` to `base` as paths.
pub fn join_path(base: &str, rel: &str) -> (r: String)
    ensures
        r@ == joined(base@, rel@),
{
    let b = chars_of(base);
    let p = chars_of(rel);
    if (p.len() > 0 && p[0] == SEPARATOR) || b.len() == 0 {
        return string_of(p.as_slice());
    }
    let mut out = b;
    if out[out.len() - 1] != SEPARATOR {
        out.push(SEPARATOR);
    }
    extend_chars(&mut out, p.as_slice());
    string_of(out.as_slice())
}

impl Symbols {
    /// Attaches device and inode numbers to a file name.
    pub fn inodify_filename(&self, filename: &str, device: u64, inode: u64) -> (r: String)
        ensures
            r@ == inodified(filename@, device, inode, self@),
    {
        let mut v = chars_of(filename);
        v.push(self.device_char);
        let d = u64_to_dec(device);
        extend_chars(&mut v, d.as_slice());
        v.push(self.inode_char);
        let i = u64_to_dec(inode);
        extend_chars(&mut v, i.as_slice());
        string_of(v.as_slice())
    }

    /// Reads name, device and inode from a file name that carries them.
    /// `Ok(None)` where the name carries none; an error where a number
    /// does not read.
    pub fn filename_to_device_file(&self, filename: &str) -> (r: Result<
        Option<DeviceFile>,
        STagError,
    >)
        ensures
            match r {
                Ok(Some(df)) => device_file_in(filename@, self@) == Ok::<
                    Option<DeviceFileView>,
                    (),
                >(Some(df@)),
                Ok(None) => device_file_in(filename@, self@) == Ok::<Option<DeviceFileView>, ()>(
                    None,
                ),
                Err(e) => device_file_in(filename@, self@) is Err && e@
                    == STagErrorView::BadDeviceFile(filename@),
            },
    {
        let letters = chars_of(filename);
        let mut inode_nums: Vec<char> = Vec::new();
        let mut device_nums: Vec<char> = Vec::new();
        let mut start_device_capture = false;
        let mut start_inode_capture = false;
        let mut real_filename_chars: Vec<char> = Vec::new();
        let mut i: usize = 0;
        assert(letters@.take(0) =~= Seq::<char>::empty());
        while i < letters.len()
            invariant
                i <= letters.len(),
                scan(letters@.take(i as int), self@) == (Scan {
                    in_device: start_device_capture,
                    in_inode: start_inode_capture,
                    name: real_filename_chars@,
                    device: device_nums@,
                    inode: inode_nums@,
                }),
            decreases letters.len() - i,
        {
            let letter = letters[i];
            assert(letters@.take(i + 1).drop_last() =~= letters@.take(i as int));
            assert(letters@.take(i + 1).last() == letter);
            if letter == self.device_char {
                start_device_capture = true;
            } else if letter == self.inode_char && start_device_capture {
                start_inode_capture = true;
                start_device_capture = false;
            } else if letter == self.sync_char {
            } else if start_device_capture {
                device_nums.push(letter);
            } else if start_inode_capture {
                inode_nums.push(letter);
            } else {
                real_filename_chars.push(letter);
            }
            i += 1;
        }
        assert(letters@.take(letters.len() as int) =~= letters@);
        if !start_inode_capture {
            return Ok(None);
        }
        let device = match read_unsigned(device_nums.as_slice(), 10, u64::MAX) {
            Some(d) => d,
            None => {
                return Err(STagError::BadDeviceFile(String::from_str(filename)));
            },
        };
        let inode = match read_unsigned(inode_nums.as_slice(), 10, u64::MAX) {
            Some(n) => n,
            None => {
                return Err(STagError::BadDeviceFile(String::from_str(filename)));
            },
        };
        Ok(
            Some(
                DeviceFile {
                    filename: string_of(real_filename_chars.as_slice()),
                    device,
                    inode,
                },
            ),
        )
    }

    /// Reads name, device and inode from the file name of a path. Fails on
    /// a path without a file name.
    pub fn path_to_device_file(&self, path: &str) -> (r: Result<Option<DeviceFile>, STagError>)
        ensures
            match r {
                Ok(Some(df)) => file_name(path@) is Some && device_file_in(
                    file_name(path@)->0,
                    self@,
                ) == Ok::<Option<DeviceFileView>, ()>(Some(df@)),
                Ok(None) => file_name(path@) is Some && device_file_in(file_name(path@)->0, self@)
                    == Ok::<Option<DeviceFileView>, ()>(None),
                Err(e) => match file_name(path@) {
                    None => e@ == STagErrorView::InvalidPath(path@),
                    Some(n) => device_file_in(n, self@) is Err && e@
                        == STagErrorView::BadDeviceFile(n),
                },
            },
    {
        match get_filename(path) {
            Some(name) => self.filename_to_device_file(name.as_str()),
            None => Err(STagError::InvalidPath(String::from_str(path))),
        }
    }

    /// The kind of one component.
    pub fn classify_component(&self, comp: &str, after_filedir: bool) -> (r: TagType)
        ensures
            r@ == classify(comp@, after_filedir, self@),
    {
        if let Some(trimmed) = strip_negative_tag(comp) {
            return TagType::Negation(trimmed);
        }
        if let Some(trimmed) = strip_ext_prefix(comp, self.tag_group_str.as_str()) {
            return TagType::Group(trimmed);
        }
        if str_eq(comp, self.filedir_str.as_str()) || str_eq(comp, self.filedir_cli_str.as_str()) {
            return TagType::FileDir;
        }
        if let Ok(Some(df)) = self.filename_to_device_file(comp) {
            return TagType::DeviceFileSymlink(df);
        }
        if after_filedir {
            TagType::Symlink(String::from_str(comp))
        } else {
            TagType::Regular(String::from_str(comp))
        }
    }

    /// The components of a path by kind.
    pub fn path_to_tags(&self, path: &str) -> (tags: Vec<TagType>)
        ensures
            tag_views(tags@) == path_tags(path@, self@),
    {
        let parts = components_of(path);
        let names = names_of(parts.as_slice());
        let mut tags: Vec<TagType> = Vec::new();
        let mut i: usize = 0;
        assert(tag_views(tags@) =~= Seq::<TagTypeView>::empty());
        assert(views_of(names@).take(0) =~= Seq::<Seq<char>>::empty());
        while i < names.len()
            invariant
                i <= names.len(),
                tag_views(tags@) == tags_of_names(views_of(names@).take(i as int), self@),
            decreases names.len() - i,
        {
            let ghost prev = views_of(names@).take(i as int);
            let ghost next = views_of(names@).take(i as int + 1);
            assert(next.drop_last() =~= prev);
            assert(next.last() == names@[i as int]@);
            let ghost before = tag_views(tags@);
            let after_filedir = tags.len() > 0 && matches!(tags[tags.len() - 1], TagType::FileDir);
            assert(after_filedir == (before.len() > 0 && before.last() is FileDir)) by {
                if tags@.len() > 0 {
                    assert(before.last() == tags@.last()@);
                }
            }
            let t = self.classify_component(names[i].as_str(), after_filedir);
            tags.push(t);
            assert(tag_views(tags@) =~= before.push(t@));
            i += 1;
        }
        assert(views_of(names@).take(names.len() as int) =~= views_of(names@));
        tags
    }
}

/// The collection that a path lies in: the first component of the path
/// below the directory in which collections are mounted.
pub open spec fn collection_of(path: Seq<char>, base_dir: Seq<char>) -> Option<Seq<char>> {
    let p = components(path);
    let b = components(base_dir);
    if crate::path::path_starts_with(path, base_dir) && p.len() > b.len() {
        Some(crate::path::part_text(p[b.len() as int]))
    } else {
        None
    }
}

/// The collection to use for a path: the one that the path lies in,
/// where its directory is confirmed to exist; else the primary
/// collection, where there is one.
pub open spec fn resolved_collection(
    path: Seq<char>,
    base_dir: Seq<char>,
    confirmed: bool,
    primary: Option<Seq<char>>,
) -> Option<Seq<char>> {
    match collection_of(path, base_dir) {
        Some(c) => if confirmed {
            Some(c)
        } else {
            primary
        },
        None => primary,
    }
}

impl Settings {
    /// The collection that is mounted, where one was set.
    pub fn get_collection(&self) -> (r: Option<String>)
        ensures
            crate::sql::types::opt_view(r) == crate::sql::types::opt_view(self.collection),
    {
        crate::sql::types::clone_opt(&self.collection)
    }

    /// Sets the collection. Returns the one set before.
    pub fn set_collection(&mut self, col: &str) -> (r: Option<String>)
        ensures
            r == old(self).collection,
            final(self).collection is Some,
            final(self).collection->0@ == col@,
            final(self).config == old(self).config,
            final(self).config_dir == old(self).config_dir,
            final(self).data_dir == old(self).data_dir,
            final(self).data_local_dir == old(self).data_local_dir,
    {
        let before = self.collection.take();
        self.collection = Some(String::from_str(col));
        before
    }

    /// Settles on the collection for a path and sets it: the one that the
    /// path lies in, where `confirmed` says that the directory of that
    /// collection exists; else the primary collection. Where there is
    /// neither, the settings stay as they are.
    pub fn resolve_collection(&mut self, path: &str, confirmed: bool, primary: Option<String>) -> (r:
        Option<String>)
        ensures
            crate::sql::types::opt_view(r) == resolved_collection(
                path@,
                old(self).config.mount.base_dir@,
                confirmed,
                crate::sql::types::opt_view(primary),
            ),
            match r {
                Some(c) => final(self).collection is Some && final(self).collection->0@ == c@,
                None => final(self).collection == old(self).collection,
            },
            final(self).config == old(self).config,
            final(self).config_dir == old(self).config_dir,
            final(self).data_dir == old(self).data_dir,
            final(self).data_local_dir == old(self).data_local_dir,
    {
        let named = match self.collection_from_path(path) {
            Some(c) => if confirmed {
                Some(c)
            } else {
                primary
            },
            None => primary,
        };
        match named {
            Some(c) => {
                let _ = self.set_collection(c.as_str());
                Some(c)
            },
            None => None,
        }
    }

    /// The directory in which collections are mounted.
    pub fn supertag_dir(&self) -> (r: String)
        ensures
            r@ == self.config.mount.base_dir@,
    {
        self.config.mount.base_dir.clone()
    }

    /// The collection that a path lies in, going by the path alone.
    pub fn collection_from_path(&self, path: &str) -> (r: Option<String>)
        ensures
            crate::sql::types::opt_view(r) == collection_of(path@, self.config.mount.base_dir@),
    {
        let p = components_of(path);
        let b = components_of(self.config.mount.base_dir.as_str());
        if crate::path::starts_with(path, self.config.mount.base_dir.as_str()) && p.len() > b.len() {
            let part = &p[b.len()];
            assert(part_views(p@)[b.len() as int] == part@);
            let text = match part {
                PathPart::Root => String::from_str("/"),
                PathPart::Cur => String::from_str("."),
                PathPart::Parent => String::from_str(".."),
                PathPart::Normal(n) => n.clone(),
            };
            proof {
                reveal_strlit("/");
                reveal_strlit(".");
                reveal_strlit("..");
                assert("/"@ =~= seq![SEPARATOR]);
                assert("."@ =~= crate::path::dot());
                assert(".."@ =~= crate::path::dotdot());
            }
            Some(text)
        } else {
            None
        }
    }

    /// Whether the path lies in the collection that is mounted.
    pub fn in_own_collection(&self, path: &str) -> (r: bool)
        ensures
            r == (self.collection is Some && collection_of(path@, self.config.mount.base_dir@)
                == Some(self.collection->0@)),
    {
        match (self.collection_from_path(path), &self.collection) {
            (Some(src_col), Some(cur_col)) => str_eq(src_col.as_str(), cur_col.as_str()),
            _ => false,
        }
    }
}

/// The text of a component in a path.
pub open spec fn path_part(t: TagTypeView, syms: SymbolsView) -> Seq<char> {
    match t {
        TagTypeView::Regular(tag) => tag,
        TagTypeView::Negation(tag) => crate::constants::NEGATIVE_TAG_PREFIX@ + tag,
        TagTypeView::Group(tag) => crate::common::ext_prefix_set(tag, syms.tag_group_str),
        TagTypeView::FileDir => syms.filedir_str,
        TagTypeView::DeviceFileSymlink(df) => inodified(df.filename, df.device, df.inode, syms),
        TagTypeView::Symlink(f) => f,
    }
}

/// The texts of the components.
pub open spec fn path_parts(tags: Seq<TagTypeView>, syms: SymbolsView) -> Seq<Seq<char>> {
    tags.map_values(|t: TagTypeView| path_part(t, syms))
}

/// The path of the components: their texts joined by the separator.
pub open spec fn joined_path(tags: Seq<TagTypeView>, syms: SymbolsView) -> Seq<char> {
    crate::text::join_seq(path_parts(tags, syms), seq![SEPARATOR])
}

impl TagType {
    /// The text of the component in a path.
    pub fn to_path_part(&self, symbols: &Symbols) -> (r: String)
        ensures
            r@ == path_part(self@, symbols@),
    {
        match self {
            TagType::Regular(tag) => tag.clone(),
            TagType::Negation(tag) => crate::text::concat2(
                crate::constants::NEGATIVE_TAG_PREFIX,
                tag.as_str(),
            ),
            TagType::Group(tag) => crate::common::set_ext_prefix(
                tag.as_str(),
                symbols.tag_group_str.as_str(),
            ),
            TagType::FileDir => symbols.filedir_str.clone(),
            TagType::DeviceFileSymlink(df) => symbols.inodify_filename(
                df.filename.as_str(),
                df.device,
                df.inode,
            ),
            TagType::Symlink(f) => f.clone(),
        }
    }
}

impl DeviceFile {
    /// The name of the file with device and inode attached.
    pub fn inodify(&self, symbols: &Symbols) -> (r: String)
        ensures
            r@ == inodified(self.filename@, self.device, self.inode, symbols@),
    {
        symbols.inodify_filename(self.filename.as_str(), self.device, self.inode)
    }
}

impl TagCollection {
    /// The path of the components.
    pub fn join_path(&self, symbols: &Symbols) -> (r: String)
        ensures
            r@ == joined_path(self.tag_seq(), symbols@),
    {
        let mut parts: Vec<String> = Vec::new();
        let mut i: usize = 0;
        let ghost want = path_parts(self.tag_seq(), symbols@);
        while i < self.tags.len()
            invariant
                i <= self.tags.len(),
                want == path_parts(self.tag_seq(), symbols@),
                views_of(parts@) =~= want.take(i as int),
            decreases self.tags.len() - i,
        {
            let ghost before = views_of(parts@);
            let p = self.tags[i].to_path_part(symbols);
            assert(want[i as int] == p@);
            parts.push(p);
            assert(views_of(parts@) =~= before.push(p@));
            i += 1;
        }
        assert(want.take(self.tags.len() as int) =~= want);
        let sep = String::from_str("/");
        proof {
            reveal_strlit("/");
            assert("/"@ =~= seq![SEPARATOR]);
        }
        crate::text::join(parts.as_slice(), sep.as_str())
    }
}

impl Settings {
    /// The directory of the collections.
    pub fn collections_dir(&self) -> (r: String)
        ensures
            r@ == joined(self.config_dir@, "collections"@),
    {
        join_path(self.config_dir.as_str(), "collections")
    }

    /// The directory of a collection.
    pub fn collection_dir(&self, col: &str) -> (r: String)
        ensures
            r@ == joined(joined(self.config_dir@, "collections"@), col@),
    {
        join_path(self.collections_dir().as_str(), col)
    }

    /// The directory of the files that a collection manages.
    pub fn managed_dir(&self, col: &str) -> (r: String)
        ensures
            r@ == joined(
                joined(joined(self.config_dir@, "collections"@), col@),
                crate::constants::MANAGED_FILES_DIR_NAME@,
            ),
    {
        join_path(self.collection_dir(col).as_str(), crate::constants::MANAGED_FILES_DIR_NAME)
    }

    /// Where the file that stands for `path` is kept in a collection: the
    /// directory, which lies below the directory of the managed files and
    /// is named by the digest of the path, and the file in it.
    pub fn managed_save_path(&self, path: &str, col: &str) -> (r: (String, String))
        ensures
            r.0@ == joined(
                joined(
                    joined(joined(self.config_dir@, "collections"@), col@),
                    crate::constants::MANAGED_FILES_DIR_NAME@,
                ),
                crate::managed_file::hex_dirs(
                    crate::managed_file::md5_of(vstd::utf8::encode_utf8(path@)),
                ),
            ),
            r.1@ == joined(
                r.0@,
                crate::managed_file::hex_text(
                    crate::managed_file::md5_of(vstd::utf8::encode_utf8(path@)),
                ),
            ),
    {
        let (unique_path, hash) = crate::managed_file::subdir_path(path);
        let sd = join_path(self.managed_dir(col).as_str(), unique_path.as_str());
        let sf = join_path(sd.as_str(), hash.as_str());
        (sd, sf)
    }

    /// The directory of the data.
    pub fn data_dir(&self) -> (r: String)
        ensures
            r@ == self.data_local_dir@,
    {
        self.data_local_dir.clone()
    }

    /// The directory of the configuration.
    pub fn config_dir(&self) -> (r: String)
        ensures
            r@ == self.config_dir@,
    {
        self.config_dir.clone()
    }

    /// The directory of the logs of a collection.
    pub fn log_dir(&self, col: &str) -> (r: String)
        ensures
            r@ == joined(joined(joined(self.config_dir@, "collections"@), col@), "logs/"@),
    {
        join_path(self.collection_dir(col).as_str(), "logs/")
    }

    /// Where a collection is mounted.
    pub fn mountpoint(&self, col: &str) -> (r: String)
        ensures
            r@ == joined(self.config.mount.base_dir@, col@),
    {
        join_path(self.config.mount.base_dir.as_str(), col)
    }

    /// The file of the store of a collection.
    pub fn db_file(&self, col: &str) -> (r: String)
        ensures
            r@ == joined(joined(joined(self.config_dir@, "collections"@), col@), col@ + ".db"@),
    {
        let name = crate::text::concat2(col, ".db");
        join_path(self.collection_dir(col).as_str(), name.as_str())
    }

    /// The socket on which the notes of a collection are sent.
    pub fn notify_socket_file(&self, col: &str) -> (r: String)
        ensures
            r@ == joined(joined(joined(self.config_dir@, "collections"@), col@), "notify.sock"@),
    {
        join_path(self.collection_dir(col).as_str(), "notify.sock")
    }

    /// The file of the configuration that all collections share.
    pub fn base_config_file(&self) -> (r: String)
        ensures
            r@ == joined(self.config_dir@, "config.toml"@),
    {
        join_path(self.config_dir.as_str(), "config.toml")
    }

    /// The file of the configuration of a collection.
    pub fn config_file(&self, col: &str) -> (r: String)
        ensures
            r@ == joined(joined(joined(self.config_dir@, "collections"@), col@), "config.toml"@),
    {
        join_path(self.collection_dir(col).as_str(), "config.toml")
    }

    /// Where the collection that is mounted is mounted.
    pub fn daemon_mountpoint(&self) -> (r: String)
        requires
            self.collection is Some,
        ensures
            r@ == joined(self.config.mount.base_dir@, self.collection->0@),
    {
        match &self.collection {
            Some(c) => self.mountpoint(c.as_str()),
            None => String::new(),
        }
    }

    /// The path under the mount point of the collection that is mounted:
    /// `rel` without its leading separators, below the mount point.
    pub fn abs_mountpoint(&self, rel: &str) -> (r: String)
        requires
            self.collection is Some,
        ensures
            r@ == abs_path(self.config.mount.base_dir@, self.collection->0@, rel@),
    {
        let col = match &self.collection {
            Some(c) => c.clone(),
            None => String::new(),
        };
        let mp = self.mountpoint(col.as_str());
        let parts = components_of(rel);
        let mut out = mp;
        let names = names_of(parts.as_slice());
        let mut k: usize = 0;
        while k < names.len()
            invariant
                k <= names.len(),
                views_of(names@) == normal_names(rel@),
                out@ == below(
                    joined(self.config.mount.base_dir@, col@),
                    views_of(names@).take(k as int),
                ),
            decreases names.len() - k,
        {
            assert(views_of(names@).take(k + 1).drop_last() =~= views_of(names@).take(k as int));
            assert(views_of(names@).take(k + 1).last() == names@[k as int]@);
            out = join_path(out.as_str(), names[k].as_str());
            k += 1;
        }
        assert(views_of(names@).take(names.len() as int) =~= views_of(names@));
        out
    }
}

/// The path of the names, one below the other, below `base`.
pub open spec fn below(base: Seq<char>, names: Seq<Seq<char>>) -> Seq<char>
    decreases names.len(),
{
    if names.len() == 0 {
        base
    } else {
        joined(below(base, names.drop_last()), names.last())
    }
}

/// The path of `rel` under the mount point of a collection.
pub open spec fn abs_path(base_dir: Seq<char>, col: Seq<char>, rel: Seq<char>) -> Seq<char> {
    below(joined(base_dir, col), normal_names(rel))
}

/// The last character of the text is `c`.
pub open spec fn ends_with_char(s: Seq<char>, c: char) -> bool {
    s.len() > 0 && s.last() == c
}

impl TagCollection {
    /// Parses a path.
    pub fn new(symbols: &Symbols, path: &str) -> (r: Self)
        ensures
            r.path@ == path@,
            r.tag_seq() == path_tags(path@, symbols@),
            r.unlinking == ends_with_char(path@, symbols.sync_char),
    {
        let letters = chars_of(path);
        let unlinking = letters.len() > 0 && letters[letters.len() - 1] == symbols.sync_char;
        Self { path: String::from_str(path), tags: symbols.path_to_tags(path), unlinking }
    }
}

} // verus!
