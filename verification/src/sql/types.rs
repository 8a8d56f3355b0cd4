//! The records that the store hands out: a tagged file, a tag, a tag group.

use crate::common::{ext_prefix_set, name_to_tag_group};
use crate::text::str_eq;
use crate::types::file_perms::Permissions;
use crate::types::{DeviceFile, DeviceFileView, Micros};
use vstd::prelude::*;

verus! {

/// The view of an optional string.
pub open spec fn opt_view(s: Option<String>) -> Option<Seq<char>> {
    match s {
        Some(x) => Some(x@),
        None => None,
    }
}

/// A copy of an optional string.
pub fn clone_opt(s: &Option<String>) -> (r: Option<String>)
    ensures
        opt_view(r) == opt_view(*s),
{
    match s {
        Some(x) => Some(x.clone()),
        None => None,
    }
}

/// A file as it shows under a path: the file itself, with the time, owner
/// and permissions of its most recent link to a tag.
#[derive(Debug)]
pub struct TaggedFile {
    pub id: i64,
    pub inode: u64,
    pub device: u64,
    pub path: String,
    pub primary_tag: String,
    pub mtime: Micros,
    pub uid: u32,
    pub gid: u32,
    pub permissions: Permissions,
    pub alias_file: Option<String>,
}

/// A `TaggedFile` with its texts as sequences of characters.
pub struct TaggedFileView {
    pub id: i64,
    pub inode: u64,
    pub device: u64,
    pub path: Seq<char>,
    pub primary_tag: Seq<char>,
    pub mtime: Micros,
    pub uid: u32,
    pub gid: u32,
    pub permissions: Permissions,
    pub alias_file: Option<Seq<char>>,
}

impl View for TaggedFile {
    type V = TaggedFileView;

    open spec fn view(&self) -> TaggedFileView {
        TaggedFileView {
            id: self.id,
            inode: self.inode,
            device: self.device,
            path: self.path@,
            primary_tag: self.primary_tag@,
            mtime: self.mtime,
            uid: self.uid,
            gid: self.gid,
            permissions: self.permissions,
            alias_file: opt_view(self.alias_file),
        }
    }
}

impl Clone for TaggedFile {
    fn clone(&self) -> (r: Self)
        ensures
            r@ == self@,
    {
        TaggedFile {
            id: self.id,
            inode: self.inode,
            device: self.device,
            path: self.path.clone(),
            primary_tag: self.primary_tag.clone(),
            mtime: self.mtime,
            uid: self.uid,
            gid: self.gid,
            permissions: self.permissions,
            alias_file: clone_opt(&self.alias_file),
        }
    }
}

/// Whether a device file names this tagged file: same name, device, inode.
pub open spec fn df_matches(df: DeviceFileView, tf: TaggedFileView) -> bool {
    tf.primary_tag == df.filename && tf.device == df.device && tf.inode == df.inode
}

impl TaggedFile {
    /// The path that the file's link points to.
    pub fn resolve_path(&self) -> (r: String)
        ensures
            r@ == self.path@,
    {
        self.path.clone()
    }

    /// The file as a device file: its primary tag, device and inode.
    pub fn to_device_file(&self) -> (r: DeviceFile)
        ensures
            r@ == (DeviceFileView {
                filename: self.primary_tag@,
                device: self.device,
                inode: self.inode,
            }),
    {
        DeviceFile {
            filename: self.primary_tag.clone(),
            device: self.device,
            inode: self.inode,
        }
    }
}

impl DeviceFile {
    /// Whether this names the given tagged file.
    pub fn matches(&self, tf: &TaggedFile) -> (r: bool)
        ensures
            r == df_matches(self@, tf@),
    {
        str_eq(tf.primary_tag.as_str(), self.filename.as_str()) && tf.device == self.device
            && tf.inode == self.inode
    }
}

/// A tag.
#[derive(Debug)]
pub struct Tag {
    pub id: i64,
    pub name: String,
    pub mtime: Micros,
    pub uid: u32,
    pub gid: u32,
    pub permissions: Permissions,
    pub num_files: i64,
}

/// A `Tag` with its name as a sequence of characters.
pub struct TagView {
    pub id: i64,
    pub name: Seq<char>,
    pub mtime: Micros,
    pub uid: u32,
    pub gid: u32,
    pub permissions: Permissions,
    pub num_files: i64,
}

impl View for Tag {
    type V = TagView;

    open spec fn view(&self) -> TagView {
        TagView {
            id: self.id,
            name: self.name@,
            mtime: self.mtime,
            uid: self.uid,
            gid: self.gid,
            permissions: self.permissions,
            num_files: self.num_files,
        }
    }
}

impl Clone for Tag {
    fn clone(&self) -> (r: Self)
        ensures
            r@ == self@,
    {
        Tag {
            id: self.id,
            name: self.name.clone(),
            mtime: self.mtime,
            uid: self.uid,
            gid: self.gid,
            permissions: self.permissions,
            num_files: self.num_files,
        }
    }
}

/// A tag group, with the ids of member tags and a count of files.
#[derive(Debug)]
pub struct TagGroup {
    pub id: i64,
    pub name: String,
    pub mtime: Micros,
    pub uid: u32,
    pub gid: u32,
    pub permissions: Permissions,
    pub tag_ids: Vec<i64>,
    pub num_files: i64,
}

/// A `TagGroup` with its name and ids as sequences.
pub struct TagGroupView {
    pub id: i64,
    pub name: Seq<char>,
    pub mtime: Micros,
    pub uid: u32,
    pub gid: u32,
    pub permissions: Permissions,
    pub tag_ids: Seq<i64>,
    pub num_files: i64,
}

impl View for TagGroup {
    type V = TagGroupView;

    open spec fn view(&self) -> TagGroupView {
        TagGroupView {
            id: self.id,
            name: self.name@,
            mtime: self.mtime,
            uid: self.uid,
            gid: self.gid,
            permissions: self.permissions,
            tag_ids: self.tag_ids@,
            num_files: self.num_files,
        }
    }
}

impl Clone for TagGroup {
    fn clone(&self) -> (r: Self)
        ensures
            r@ == self@,
    {
        let ids = self.tag_ids.clone();
        assert(ids@ =~= self.tag_ids@);
        TagGroup {
            id: self.id,
            name: self.name.clone(),
            mtime: self.mtime,
            uid: self.uid,
            gid: self.gid,
            permissions: self.permissions,
            tag_ids: ids,
            num_files: self.num_files,
        }
    }
}

/// An entry of a directory listing: a name and a time.
#[derive(Debug)]
pub struct FileEntry {
    pub name: String,
    pub mtime: Micros,
}

/// A `FileEntry` with its name as a sequence of characters.
pub struct FileEntryView {
    pub name: Seq<char>,
    pub mtime: Micros,
}

impl View for FileEntry {
    type V = FileEntryView;

    open spec fn view(&self) -> FileEntryView {
        FileEntryView { name: self.name@, mtime: self.mtime }
    }
}

impl Clone for FileEntry {
    fn clone(&self) -> (r: Self)
        ensures
            r@ == self@,
    {
        FileEntry { name: self.name.clone(), mtime: self.mtime }
    }
}

/// The views of a sequence of entries.
pub open spec fn entry_views(v: Seq<FileEntry>) -> Seq<FileEntryView> {
    v.map_values(|e: FileEntry| e@)
}

/// The entry under which a tag is listed.
pub open spec fn tag_entry(t: TagView) -> FileEntryView {
    FileEntryView { name: t.name, mtime: t.mtime }
}

/// The entry under which a tag group is listed: its name with the group
/// marker.
pub open spec fn group_entry(g: TagGroupView, marker: Seq<char>) -> FileEntryView {
    FileEntryView { name: ext_prefix_set(g.name, marker), mtime: g.mtime }
}

/// The entry under which a file is listed by its plain name.
pub open spec fn file_entry(f: TaggedFileView) -> FileEntryView {
    FileEntryView { name: f.primary_tag, mtime: f.mtime }
}

impl Tag {
    /// The entry under which the tag is listed.
    pub fn to_fileentry(&self) -> (e: FileEntry)
        ensures
            e@ == tag_entry(self@),
    {
        FileEntry { name: self.name.clone(), mtime: self.mtime }
    }
}

impl TaggedFile {
    /// The entry under which the file is listed by its plain name.
    pub fn to_fileentry(&self) -> (e: FileEntry)
        ensures
            e@ == file_entry(self@),
    {
        FileEntry { name: self.primary_tag.clone(), mtime: self.mtime }
    }
}

impl TagGroup {
    /// The entry under which the tag group is listed.
    pub fn to_fileentry(&self, tag_group_str: &str) -> (e: FileEntry)
        ensures
            e@ == group_entry(self@, tag_group_str@),
    {
        FileEntry { name: name_to_tag_group(self.name.as_str(), tag_group_str), mtime: self.mtime }
    }
}

/// A tag or a tag group.
#[derive(Debug)]
pub enum TagOrTagGroup {
    Tag(Tag),
    Group(TagGroup),
}

/// A `TagOrTagGroup` as a view.
pub enum TagOrTagGroupView {
    Tag(TagView),
    Group(TagGroupView),
}

impl View for TagOrTagGroup {
    type V = TagOrTagGroupView;

    open spec fn view(&self) -> TagOrTagGroupView {
        match self {
            TagOrTagGroup::Tag(t) => TagOrTagGroupView::Tag(t@),
            TagOrTagGroup::Group(g) => TagOrTagGroupView::Group(g@),
        }
    }
}

impl TagOrTagGroup {
    /// The entry under which it is listed.
    pub fn to_fileentry(&self, tag_group_str: &str) -> (e: FileEntry)
        ensures
            e@ == match self@ {
                TagOrTagGroupView::Tag(t) => tag_entry(t),
                TagOrTagGroupView::Group(g) => group_entry(g, tag_group_str@),
            },
    {
        match self {
            TagOrTagGroup::Group(group) => group.to_fileentry(tag_group_str),
            TagOrTagGroup::Tag(tag) => tag.to_fileentry(),
        }
    }
}

/// The views of a sequence of tags.
pub open spec fn tag_rows(v: Seq<Tag>) -> Seq<TagView> {
    v.map_values(|t: Tag| t@)
}

/// The views of a sequence of tagged files.
pub open spec fn file_rows(v: Seq<TaggedFile>) -> Seq<TaggedFileView> {
    v.map_values(|t: TaggedFile| t@)
}

/// The views of a sequence of tag groups.
pub open spec fn group_rows(v: Seq<TagGroup>) -> Seq<TagGroupView> {
    v.map_values(|t: TagGroup| t@)
}

/// The views of a sequence of tags and tag groups.
pub open spec fn either_rows(v: Seq<TagOrTagGroup>) -> Seq<TagOrTagGroupView> {
    v.map_values(|t: TagOrTagGroup| t@)
}

} // verus!
