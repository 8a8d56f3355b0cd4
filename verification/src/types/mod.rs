//! The value types of the tag engine: a file named by device and inode,
//! the kinds of path component, and the parsed form of a path.

pub mod file_perms;

use crate::err::{STagError, STagErrorView};
use crate::num::{digits_of, u64_to_dec};
use crate::text::{chars_of, extend_chars, str_eq, string_of, views_of};
use vstd::prelude::*;

verus! {

/// A time: microseconds since the Unix epoch.
pub type Micros = u64;

/// A file named by its name, its device and its inode.
#[derive(Debug, PartialEq, Eq)]
pub struct DeviceFile {
    pub filename: String,
    pub device: u64,
    pub inode: u64,
}

/// A `DeviceFile` with its name as a sequence of characters.
pub struct DeviceFileView {
    pub filename: Seq<char>,
    pub device: u64,
    pub inode: u64,
}

impl View for DeviceFile {
    type V = DeviceFileView;

    open spec fn view(&self) -> DeviceFileView {
        DeviceFileView { filename: self.filename@, device: self.device, inode: self.inode }
    }
}

impl Clone for DeviceFile {
    fn clone(&self) -> (r: Self)
        ensures
            r@ == self@,
    {
        DeviceFile { filename: self.filename.clone(), device: self.device, inode: self.inode }
    }
}

/// The text that describes a device file.
pub open spec fn device_file_text(df: DeviceFileView) -> Seq<char> {
    "<DeviceFile filename="@ + df.filename + " device="@ + digits_of(df.device as nat, 10)
        + " inode="@ + digits_of(df.inode as nat, 10) + ">"@
}

impl DeviceFile {
    pub fn new(filename: &str, device: u64, inode: u64) -> (r: Self)
        ensures
            r@ == (DeviceFileView { filename: filename@, device, inode }),
    {
        Self { filename: String::from_str(filename), device, inode }
    }

    /// Whether both name the same file under the same name.
    pub fn same_as(&self, other: &DeviceFile) -> (r: bool)
        ensures
            r == (self@ == other@),
    {
        str_eq(self.filename.as_str(), other.filename.as_str()) && self.device == other.device
            && self.inode == other.inode
    }

    /// A description of the device file.
    pub fn describe(&self) -> (s: String)
        ensures
            s@ == device_file_text(self@),
    {
        let mut v = chars_of("<DeviceFile filename=");
        let name = chars_of(self.filename.as_str());
        extend_chars(&mut v, name.as_slice());
        let a = chars_of(" device=");
        extend_chars(&mut v, a.as_slice());
        let d = u64_to_dec(self.device);
        extend_chars(&mut v, d.as_slice());
        let b = chars_of(" inode=");
        extend_chars(&mut v, b.as_slice());
        let i = u64_to_dec(self.inode);
        extend_chars(&mut v, i.as_slice());
        let c = chars_of(">");
        extend_chars(&mut v, c.as_slice());
        string_of(v.as_slice())
    }
}

/// The kind of one path component.
#[derive(Debug, PartialEq, Eq)]
pub enum TagType {
    /// A tag.
    Regular(String),
    /// A tag that the files must not carry.
    Negation(String),
    /// A tag group.
    Group(String),
    /// The directory that lists the files of the path before it.
    FileDir,
    /// A file named with its device and inode.
    DeviceFileSymlink(DeviceFile),
    /// A file named plainly, right after the file directory.
    Symlink(String),
}

/// A `TagType` with its names as sequences of characters.
pub enum TagTypeView {
    Regular(Seq<char>),
    Negation(Seq<char>),
    Group(Seq<char>),
    FileDir,
    DeviceFileSymlink(DeviceFileView),
    Symlink(Seq<char>),
}

impl View for TagType {
    type V = TagTypeView;

    open spec fn view(&self) -> TagTypeView {
        match self {
            TagType::Regular(t) => TagTypeView::Regular(t@),
            TagType::Negation(t) => TagTypeView::Negation(t@),
            TagType::Group(t) => TagTypeView::Group(t@),
            TagType::FileDir => TagTypeView::FileDir,
            TagType::DeviceFileSymlink(df) => TagTypeView::DeviceFileSymlink(df@),
            TagType::Symlink(f) => TagTypeView::Symlink(f@),
        }
    }
}

impl Clone for TagType {
    fn clone(&self) -> (r: Self)
        ensures
            r@ == self@,
    {
        match self {
            TagType::Regular(t) => TagType::Regular(t.clone()),
            TagType::Negation(t) => TagType::Negation(t.clone()),
            TagType::Group(t) => TagType::Group(t.clone()),
            TagType::FileDir => TagType::FileDir,
            TagType::DeviceFileSymlink(df) => TagType::DeviceFileSymlink(df.clone()),
            TagType::Symlink(f) => TagType::Symlink(f.clone()),
        }
    }
}

/// The text that describes a component.
pub open spec fn tag_type_text(t: TagTypeView) -> Seq<char> {
    match t {
        TagTypeView::Regular(n) => "Regular("@ + n + ")"@,
        TagTypeView::Negation(n) => "Negation("@ + n + ")"@,
        TagTypeView::Group(n) => "Group("@ + n + ")"@,
        TagTypeView::FileDir => "FileDir"@,
        TagTypeView::DeviceFileSymlink(df) => device_file_text(df),
        TagTypeView::Symlink(n) => "Symlink("@ + n + ")"@,
    }
}

/// A name between a label and a closing bracket.
fn labelled(label: &str, name: &str) -> (s: String)
    ensures
        s@ == label@ + name@ + ")"@,
{
    let mut v = chars_of(label);
    let n = chars_of(name);
    extend_chars(&mut v, n.as_slice());
    let c = chars_of(")");
    extend_chars(&mut v, c.as_slice());
    string_of(v.as_slice())
}

impl TagType {
    /// Whether both are the same kind of component with the same names.
    pub fn same_as(&self, other: &TagType) -> (r: bool)
        ensures
            r == (self@ == other@),
    {
        match (self, other) {
            (TagType::Regular(a), TagType::Regular(b)) => str_eq(a.as_str(), b.as_str()),
            (TagType::Negation(a), TagType::Negation(b)) => str_eq(a.as_str(), b.as_str()),
            (TagType::Group(a), TagType::Group(b)) => str_eq(a.as_str(), b.as_str()),
            (TagType::FileDir, TagType::FileDir) => true,
            (TagType::DeviceFileSymlink(a), TagType::DeviceFileSymlink(b)) => a.same_as(b),
            (TagType::Symlink(a), TagType::Symlink(b)) => str_eq(a.as_str(), b.as_str()),
            _ => false,
        }
    }

    /// A description of the component.
    pub fn describe(&self) -> (s: String)
        ensures
            s@ == tag_type_text(self@),
    {
        match self {
            TagType::Regular(t) => labelled("Regular(", t.as_str()),
            TagType::Negation(t) => labelled("Negation(", t.as_str()),
            TagType::Group(t) => labelled("Group(", t.as_str()),
            TagType::FileDir => String::from_str("FileDir"),
            TagType::DeviceFileSymlink(df) => df.describe(),
            TagType::Symlink(f) => labelled("Symlink(", f.as_str()),
        }
    }
}

/// The views of a sequence of components.
pub open spec fn tag_views(tags: Seq<TagType>) -> Seq<TagTypeView> {
    tags.map_values(|t: TagType| t@)
}

/// The name of a tag component, `None` for any other.
pub open spec fn regular_name(t: TagTypeView) -> Option<Seq<char>> {
    match t {
        TagTypeView::Regular(n) => Some(n),
        _ => None,
    }
}

/// The component itself where it is a tag, `None` for any other.
pub open spec fn regular_only(t: TagTypeView) -> Option<TagTypeView> {
    match t {
        TagTypeView::Regular(_) => Some(t),
        _ => None,
    }
}

/// The component itself where it is a tag or a tag group.
pub open spec fn tag_or_group_only(t: TagTypeView) -> Option<TagTypeView> {
    match t {
        TagTypeView::Regular(_) | TagTypeView::Group(_) => Some(t),
        _ => None,
    }
}

/// The names of the tags among the components, in order.
pub open spec fn regular_names(tags: Seq<TagTypeView>) -> Seq<Seq<char>> {
    tags.filter_map(|t: TagTypeView| regular_name(t))
}

/// The tags among the components, in order.
pub open spec fn regulars(tags: Seq<TagTypeView>) -> Seq<TagTypeView> {
    tags.filter_map(|t: TagTypeView| regular_only(t))
}

/// The tags and tag groups among the components, in order.
pub open spec fn tags_and_groups(tags: Seq<TagTypeView>) -> Seq<TagTypeView> {
    tags.filter_map(|t: TagTypeView| tag_or_group_only(t))
}

/// The names of the negated tags among the components, in order.
pub open spec fn negated_names(tags: Seq<TagTypeView>) -> Seq<Seq<char>> {
    tags.filter_map(
        |t: TagTypeView|
            match t {
                TagTypeView::Negation(n) => Some(n),
                _ => None,
            },
    )
}

/// The components that a pin can hold: every tag, and every tag group that
/// does not directly follow another tag group.
pub open spec fn pinnable(tags: Seq<TagTypeView>) -> Seq<TagTypeView>
    decreases tags.len(),
{
    if tags.len() == 0 {
        Seq::empty()
    } else {
        let head = pinnable(tags.drop_last());
        match tags.last() {
            TagTypeView::Regular(_) => head.push(tags.last()),
            TagTypeView::Group(_) => if tags.len() >= 2 && tags[tags.len() - 2] is Group {
                head
            } else {
                head.push(tags.last())
            },
            _ => head,
        }
    }
}

/// The pairs of a tag group directly followed by a tag: the group's name,
/// then the tag's.
pub open spec fn group_pairs(tags: Seq<TagTypeView>) -> Seq<(Seq<char>, Seq<char>)>
    decreases tags.len(),
{
    if tags.len() < 2 {
        Seq::empty()
    } else {
        let head = group_pairs(tags.drop_last());
        match (tags[tags.len() - 2], tags.last()) {
            (TagTypeView::Group(g), TagTypeView::Regular(t)) => head.push((g, t)),
            _ => head,
        }
    }
}

/// The views of a sequence of pairs of strings.
pub open spec fn pair_views(pairs: Seq<(String, String)>) -> Seq<(Seq<char>, Seq<char>)> {
    pairs.map_values(|p: (String, String)| (p.0@, p.1@))
}

/// The names of the tags among `tags`.
pub fn collect_regular_names(tags: &[TagType]) -> (out: Vec<String>)
    ensures
        views_of(out@) == regular_names(tag_views(tags@)),
{
    let ghost f = |t: TagTypeView| regular_name(t);
    let mut out: Vec<String> = Vec::new();
    let mut i: usize = 0;
    assert(tag_views(tags@).take(0).filter_map(f) =~= Seq::<Seq<char>>::empty());
    assert(views_of(out@) =~= Seq::<Seq<char>>::empty());
    while i < tags.len()
        invariant
            i <= tags.len(),
            f == (|t: TagTypeView| regular_name(t)),
            views_of(out@) == tag_views(tags@).take(i as int).filter_map(f),
        decreases tags.len() - i,
    {
        let ghost prev = tag_views(tags@).take(i as int);
        let ghost next = tag_views(tags@).take(i as int + 1);
        assert(next.drop_last() =~= prev);
        assert(next.last() == tags@[i as int]@);
        let ghost before = views_of(out@);
        match &tags[i] {
            TagType::Regular(n) => {
                out.push(n.clone());
                assert(views_of(out@) =~= before.push(n@));
            },
            _ => {},
        }
        assert(views_of(out@) =~= next.filter_map(f));
        i += 1;
    }
    assert(tag_views(tags@).take(tags.len() as int) =~= tag_views(tags@));
    out
}

/// The names of the negated tags among `tags`.
pub fn collect_negated_names(tags: &[TagType]) -> (out: Vec<String>)
    ensures
        views_of(out@) == negated_names(tag_views(tags@)),
{
    let ghost f = |t: TagTypeView|
        match t {
            TagTypeView::Negation(n) => Some(n),
            _ => None,
        };
    let mut out: Vec<String> = Vec::new();
    let mut i: usize = 0;
    assert(tag_views(tags@).take(0).filter_map(f) =~= Seq::<Seq<char>>::empty());
    assert(views_of(out@) =~= Seq::<Seq<char>>::empty());
    while i < tags.len()
        invariant
            i <= tags.len(),
            f == (|t: TagTypeView|
                match t {
                    TagTypeView::Negation(n) => Some(n),
                    _ => None,
                }),
            views_of(out@) == tag_views(tags@).take(i as int).filter_map(f),
        decreases tags.len() - i,
    {
        let ghost prev = tag_views(tags@).take(i as int);
        let ghost next = tag_views(tags@).take(i as int + 1);
        assert(next.drop_last() =~= prev);
        assert(next.last() == tags@[i as int]@);
        let ghost before = views_of(out@);
        match &tags[i] {
            TagType::Negation(n) => {
                out.push(n.clone());
                assert(views_of(out@) =~= before.push(n@));
            },
            _ => {},
        }
        assert(views_of(out@) =~= next.filter_map(f));
        i += 1;
    }
    assert(tag_views(tags@).take(tags.len() as int) =~= tag_views(tags@));
    out
}

/// The tags among `tags`.
pub fn collect_regular(tags: &[TagType]) -> (out: Vec<TagType>)
    ensures
        tag_views(out@) == regulars(tag_views(tags@)),
{
    let ghost f = |t: TagTypeView| regular_only(t);
    let mut out: Vec<TagType> = Vec::new();
    let mut i: usize = 0;
    assert(tag_views(tags@).take(0).filter_map(f) =~= Seq::<TagTypeView>::empty());
    assert(tag_views(out@) =~= Seq::<TagTypeView>::empty());
    while i < tags.len()
        invariant
            i <= tags.len(),
            f == (|t: TagTypeView| regular_only(t)),
            tag_views(out@) == tag_views(tags@).take(i as int).filter_map(f),
        decreases tags.len() - i,
    {
        let ghost prev = tag_views(tags@).take(i as int);
        let ghost next = tag_views(tags@).take(i as int + 1);
        assert(next.drop_last() =~= prev);
        assert(next.last() == tags@[i as int]@);
        let ghost before = tag_views(out@);
        match &tags[i] {
            TagType::Regular(_) => {
                out.push(tags[i].clone());
                assert(tag_views(out@) =~= before.push(tags@[i as int]@));
            },
            _ => {},
        }
        assert(tag_views(out@) =~= next.filter_map(f));
        i += 1;
    }
    assert(tag_views(tags@).take(tags.len() as int) =~= tag_views(tags@));
    out
}

/// The tags and tag groups among `tags`.
pub fn collect_tags_and_groups(tags: &[TagType]) -> (out: Vec<TagType>)
    ensures
        tag_views(out@) == tags_and_groups(tag_views(tags@)),
{
    let ghost f = |t: TagTypeView| tag_or_group_only(t);
    let mut out: Vec<TagType> = Vec::new();
    let mut i: usize = 0;
    assert(tag_views(tags@).take(0).filter_map(f) =~= Seq::<TagTypeView>::empty());
    assert(tag_views(out@) =~= Seq::<TagTypeView>::empty());
    while i < tags.len()
        invariant
            i <= tags.len(),
            f == (|t: TagTypeView| tag_or_group_only(t)),
            tag_views(out@) == tag_views(tags@).take(i as int).filter_map(f),
        decreases tags.len() - i,
    {
        let ghost prev = tag_views(tags@).take(i as int);
        let ghost next = tag_views(tags@).take(i as int + 1);
        assert(next.drop_last() =~= prev);
        assert(next.last() == tags@[i as int]@);
        let ghost before = tag_views(out@);
        match &tags[i] {
            TagType::Regular(_) | TagType::Group(_) => {
                out.push(tags[i].clone());
                assert(tag_views(out@) =~= before.push(tags@[i as int]@));
            },
            _ => {},
        }
        assert(tag_views(out@) =~= next.filter_map(f));
        i += 1;
    }
    assert(tag_views(tags@).take(tags.len() as int) =~= tag_views(tags@));
    out
}

/// The components of `tags` that a pin can hold.
pub fn collect_pinnable(tags: &[TagType]) -> (out: Vec<TagType>)
    ensures
        tag_views(out@) == pinnable(tag_views(tags@)),
{
    let mut out: Vec<TagType> = Vec::new();
    let mut last_was_group = false;
    let mut i: usize = 0;
    assert(tag_views(out@) =~= Seq::<TagTypeView>::empty());
    assert(tag_views(tags@).take(0) =~= Seq::<TagTypeView>::empty());
    while i < tags.len()
        invariant
            i <= tags.len(),
            tag_views(out@) == pinnable(tag_views(tags@).take(i as int)),
            last_was_group == (i > 0 && tags@[i - 1]@ is Group),
        decreases tags.len() - i,
    {
        let ghost prev = tag_views(tags@).take(i as int);
        let ghost next = tag_views(tags@).take(i as int + 1);
        assert(next.drop_last() =~= prev);
        assert(next.last() == tags@[i as int]@);
        assert(i > 0 ==> next[next.len() - 2] == tags@[i - 1]@);
        let ghost before = tag_views(out@);
        match &tags[i] {
            TagType::Regular(_) => {
                out.push(tags[i].clone());
                assert(tag_views(out@) =~= before.push(tags@[i as int]@));
                last_was_group = false;
            },
            TagType::Group(_) => {
                if !last_was_group {
                    out.push(tags[i].clone());
                    assert(tag_views(out@) =~= before.push(tags@[i as int]@));
                }
                last_was_group = true;
            },
            _ => {
                last_was_group = false;
            },
        }
        i += 1;
    }
    assert(tag_views(tags@).take(tags.len() as int) =~= tag_views(tags@));
    out
}

/// The pairs of a tag group directly followed by a tag.
pub fn taggroup_pairs(tags: &[TagType]) -> (out: Vec<(String, String)>)
    ensures
        pair_views(out@) == group_pairs(tag_views(tags@)),
{
    let mut out: Vec<(String, String)> = Vec::new();
    assert(pair_views(out@) =~= Seq::<(Seq<char>, Seq<char>)>::empty());
    if tags.len() < 2 {
        return out;
    }
    let mut i: usize = 1;
    assert(group_pairs(tag_views(tags@).take(1)) =~= Seq::<(Seq<char>, Seq<char>)>::empty());
    while i < tags.len()
        invariant
            1 <= i <= tags.len(),
            pair_views(out@) == group_pairs(tag_views(tags@).take(i as int)),
        decreases tags.len() - i,
    {
        let ghost prev = tag_views(tags@).take(i as int);
        let ghost next = tag_views(tags@).take(i as int + 1);
        assert(next.drop_last() =~= prev);
        assert(next.last() == tags@[i as int]@);
        assert(next[next.len() - 2] == tags@[i - 1]@);
        let ghost before = pair_views(out@);
        match (&tags[i - 1], &tags[i]) {
            (TagType::Group(g), TagType::Regular(t)) => {
                out.push((g.clone(), t.clone()));
                assert(pair_views(out@) =~= before.push((g@, t@)));
            },
            _ => {},
        }
        i += 1;
    }
    assert(tag_views(tags@).take(tags.len() as int) =~= tag_views(tags@));
    out
}

/// A path in parsed form: its components by kind, whether it ends in the
/// character that asks for a cache flush, and the path itself.
#[derive(Debug)]
pub struct TagCollection {
    pub path: String,
    pub tags: Vec<TagType>,
    pub unlinking: bool,
}

impl TagCollection {
    /// The components by kind, as views.
    pub open spec fn tag_seq(&self) -> Seq<TagTypeView> {
        tag_views(self.tags@)
    }

    /// Removes and returns the last component.
    pub fn pop(&mut self) -> (r: Option<TagType>)
        ensures
            final(self).path == old(self).path,
            final(self).unlinking == old(self).unlinking,
            old(self).tags@.len() == 0 ==> r is None && final(self).tags@ == old(self).tags@,
            old(self).tags@.len() > 0 ==> r == Some(old(self).tags@.last()) && final(self).tags@
                == old(self).tags@.drop_last(),
    {
        self.tags.pop()
    }

    /// Appends a component.
    pub fn push(&mut self, val: TagType)
        ensures
            final(self).path == old(self).path,
            final(self).unlinking == old(self).unlinking,
            final(self).tags@ == old(self).tags@.push(val),
    {
        self.tags.push(val)
    }

    /// The number of components.
    pub fn len(&self) -> (n: usize)
        ensures
            n == self.tags@.len(),
    {
        self.tags.len()
    }

    /// The components, in order.
    pub fn iter(&self) -> (r: &[TagType])
        ensures
            r@ == self.tags@,
    {
        self.tags.as_slice()
    }

    /// The first component.
    pub fn first(&self) -> (r: Option<&TagType>)
        ensures
            self.tags@.len() == 0 ==> r is None,
            self.tags@.len() > 0 ==> r == Some(&self.tags@[0]),
    {
        if self.tags.len() == 0 {
            None
        } else {
            Some(&self.tags[0])
        }
    }

    /// The last component.
    pub fn last(&self) -> (r: Option<&TagType>)
        ensures
            self.tags@.len() == 0 ==> r is None,
            self.tags@.len() > 0 ==> r == Some(&self.tags@.last()),
    {
        if self.tags.len() == 0 {
            None
        } else {
            Some(&self.tags[self.tags.len() - 1])
        }
    }

    /// The components as a slice.
    pub fn as_slice(&self) -> (r: &[TagType])
        ensures
            r@ == self.tags@,
    {
        self.tags.as_slice()
    }

    /// All components but the last.
    pub fn all_but_last(&self) -> (r: &[TagType])
        requires
            self.tags@.len() > 0,
        ensures
            r@ == self.tags@.drop_last(),
    {
        let n = self.tags.len();
        let r = vstd::slice::slice_subrange(self.tags.as_slice(), 0, n - 1);
        assert(r@ =~= self.tags@.drop_last());
        r
    }

    /// The component before the last.
    pub fn primary_parent(&self) -> (r: Option<&TagType>)
        ensures
            self.tags@.len() < 2 ==> r is None,
            self.tags@.len() >= 2 ==> r == Some(&self.tags@[self.tags@.len() - 2]),
    {
        if self.tags.len() < 2 {
            None
        } else {
            Some(&self.tags[self.tags.len() - 2])
        }
    }

    /// The last component, which says what the path names. Fails on a path
    /// without components.
    pub fn primary_type(&self) -> (r: Result<&TagType, STagError>)
        ensures
            match r {
                Ok(t) => self.tags@.len() > 0 && *t == self.tags@.last(),
                Err(e) => self.tags@.len() == 0 && e@ == STagErrorView::NotEnoughTags,
            },
    {
        match self.last() {
            Some(t) => Ok(t),
            None => Err(STagError::NotEnoughTags),
        }
    }
}

/// The collectors on a sequence of components.
pub trait TagCollectible {
    /// The components, as views.
    spec fn components(&self) -> Seq<TagTypeView>;

    /// The names of the tags.
    fn collect_regular_names(&self) -> (out: Vec<String>)
        ensures
            views_of(out@) == regular_names(self.components()),
    ;

    /// The tags.
    fn collect_regular(&self) -> (out: Vec<TagType>)
        ensures
            tag_views(out@) == regulars(self.components()),
    ;

    /// The components that a pin can hold.
    fn collect_pinnable(&self) -> (out: Vec<TagType>)
        ensures
            tag_views(out@) == pinnable(self.components()),
    ;

    /// The tags and tag groups.
    fn collect_tags_and_groups(&self) -> (out: Vec<TagType>)
        ensures
            tag_views(out@) == tags_and_groups(self.components()),
    ;

    /// The pairs of a tag group directly followed by a tag.
    fn taggroup_pairs(&self) -> (out: Vec<(String, String)>)
        ensures
            pair_views(out@) == group_pairs(self.components()),
    ;
}

impl TagCollectible for TagCollection {
    open spec fn components(&self) -> Seq<TagTypeView> {
        tag_views(self.tags@)
    }

    fn collect_regular_names(&self) -> (out: Vec<String>) {
        collect_regular_names(self.tags.as_slice())
    }

    fn collect_regular(&self) -> (out: Vec<TagType>) {
        collect_regular(self.tags.as_slice())
    }

    fn collect_pinnable(&self) -> (out: Vec<TagType>) {
        collect_pinnable(self.tags.as_slice())
    }

    fn collect_tags_and_groups(&self) -> (out: Vec<TagType>) {
        collect_tags_and_groups(self.tags.as_slice())
    }

    fn taggroup_pairs(&self) -> (out: Vec<(String, String)>) {
        taggroup_pairs(self.tags.as_slice())
    }
}

} // verus!
