//! Helpers on names: the negation prefix, the marker that stands before a
//! file extension, and the name under which something is deleted.

use crate::constants::{NEGATIVE_TAG_PREFIX, UNLINK_NAME, VERSION_MAJOR, VERSION_MINOR, VERSION_PATCH};
use crate::err::{STagError, STagErrorView};
use crate::path::{file_name, get_filename};
use crate::text::{
    chars_eq, chars_of, extend_chars, find_last, has_prefix, has_suffix, is_prefix, is_suffix,
    last_index_of, lemma_last_index_of, slice_of, string_of,
};
use vstd::prelude::*;

verus! {

/// The characters of `name` before the first `stop`, or all of them where
/// `stop` does not occur.
pub open spec fn before_char(name: Seq<char>, stop: char) -> Seq<char>
    decreases name.len(),
{
    if name.len() == 0 || name[0] == stop {
        Seq::empty()
    } else {
        seq![name[0]] + before_char(name.drop_first(), stop)
    }
}

/// The name of a file without what follows the device marker: the file
/// name of `path` up to the first `device_char`, where that leaves more
/// than one character.
pub open spec fn primary_tag_of(path: Seq<char>, device_char: char) -> Option<Seq<char>> {
    match file_name(path) {
        Some(n) => {
            let head = before_char(n, device_char);
            if head.len() > 1 {
                Some(head)
            } else {
                None
            }
        },
        None => None,
    }
}

/// The primary tag in a path: its file name up to the device marker. Fails
/// on a path without a file name.
pub fn primary_tag(path: &str, device_char: char) -> (r: Result<Option<String>, STagError>)
    ensures
        match r {
            Ok(Some(t)) => primary_tag_of(path@, device_char) == Some(t@),
            Ok(None) => file_name(path@) is Some && primary_tag_of(path@, device_char) is None,
            Err(e) => file_name(path@) is None && e@ == STagErrorView::InvalidPath(path@),
        },
{
    let filename = match get_filename(path) {
        Some(f) => f,
        None => {
            return Err(STagError::InvalidPath(String::from_str(path)));
        },
    };
    let letters = chars_of(filename.as_str());
    let mut head: Vec<char> = Vec::new();
    let mut i: usize = 0;
    assert(letters@.skip(0) =~= letters@);
    while i < letters.len() && letters[i] != device_char
        invariant
            i <= letters.len(),
            before_char(letters@, device_char) == head@ + before_char(
                letters@.skip(i as int),
                device_char,
            ),
        decreases letters.len() - i,
    {
        let ghost rest = letters@.skip(i as int);
        assert(rest.drop_first() =~= letters@.skip(i + 1));
        assert(rest[0] == letters@[i as int]);
        let ghost before = head@;
        head.push(letters[i]);
        assert(head@ + before_char(letters@.skip(i + 1), device_char) =~= before + before_char(
            rest,
            device_char,
        ));
        i += 1;
    }
    assert(before_char(letters@.skip(i as int), device_char) =~= Seq::<char>::empty());
    assert(head@ =~= before_char(letters@, device_char));
    if head.len() > 1 {
        Ok(Some(string_of(head.as_slice())))
    } else {
        Ok(None)
    }
}

/// The tag that a component excludes: what follows the negation prefix,
/// where the component begins with it.
pub open spec fn negated_tag(tag: Seq<char>) -> Option<Seq<char>> {
    if is_prefix(NEGATIVE_TAG_PREFIX@, tag) {
        Some(tag.skip(NEGATIVE_TAG_PREFIX@.len() as int))
    } else {
        None
    }
}

/// Strips the negation prefix from a component that begins with it.
pub fn strip_negative_tag(tag: &str) -> (r: Option<String>)
    ensures
        match r {
            Some(t) => negated_tag(tag@) == Some(t@),
            None => negated_tag(tag@) is None,
        },
{
    let t = chars_of(tag);
    let p = chars_of(NEGATIVE_TAG_PREFIX);
    if has_prefix(t.as_slice(), p.as_slice()) {
        let rest = slice_of(t.as_slice(), p.len(), t.len());
        assert(rest@ =~= tag@.skip(NEGATIVE_TAG_PREFIX@.len() as int));
        Some(string_of(rest.as_slice()))
    } else {
        None
    }
}

/// The part of a name before its last dot, or the whole name without a dot.
pub open spec fn stem_of(name: Seq<char>) -> Seq<char> {
    match last_index_of(name, '.') {
        Some(i) => name.take(i),
        None => name,
    }
}

/// The part of a name after its last dot, where it has a dot.
pub open spec fn ext_of(name: Seq<char>) -> Option<Seq<char>> {
    match last_index_of(name, '.') {
        Some(i) => Some(name.skip(i + 1)),
        None => None,
    }
}

/// A stem and an extension put together again.
pub open spec fn with_ext(stem: Seq<char>, ext: Option<Seq<char>>) -> Seq<char> {
    match ext {
        Some(e) => stem + seq!['.'] + e,
        None => stem,
    }
}

/// Whether `marker` stands at the end of the name, before the extension
/// where the name has one.
pub open spec fn ext_prefixed(name: Seq<char>, marker: Seq<char>) -> bool {
    is_suffix(marker, stem_of(name))
}

/// The name without the marker that stands before its extension.
pub open spec fn ext_prefix_stripped(name: Seq<char>, marker: Seq<char>) -> Option<Seq<char>> {
    if ext_prefixed(name, marker) {
        let stem = stem_of(name);
        Some(with_ext(stem.take(stem.len() - marker.len()), ext_of(name)))
    } else {
        None
    }
}

/// The name with the marker put before its extension.
pub open spec fn ext_prefix_set(name: Seq<char>, marker: Seq<char>) -> Seq<char> {
    with_ext(stem_of(name) + marker, ext_of(name))
}

/// The stem and the extension of a name.
fn split_ext(name: &[char]) -> (r: (Vec<char>, Option<Vec<char>>))
    ensures
        r.0@ == stem_of(name@),
        match r.1 {
            Some(e) => ext_of(name@) == Some(e@),
            None => ext_of(name@) is None,
        },
{
    proof {
        lemma_last_index_of(name@, '.');
    }
    match find_last(name, '.') {
        Some(i) => {
            assert(i < name.len());
            let stem = slice_of(name, 0, i);
            let ext = slice_of(name, i + 1, name.len());
            assert(stem@ =~= name@.take(i as int));
            assert(ext@ =~= name@.skip(i + 1));
            (stem, Some(ext))
        },
        None => {
            let stem = slice_of(name, 0, name.len());
            assert(stem@ =~= name@);
            (stem, None)
        },
    }
}

/// A stem and an extension as one name.
fn join_ext(stem: Vec<char>, ext: Option<Vec<char>>) -> (r: String)
    ensures
        r@ == with_ext(
            stem@,
            match ext {
                Some(e) => Some(e@),
                None => None,
            },
        ),
{
    let mut out = stem;
    match ext {
        Some(e) => {
            out.push('.');
            extend_chars(&mut out, e.as_slice());
        },
        None => {},
    }
    string_of(out.as_slice())
}

/// Removes `prefix` from the end of the name, before the extension where
/// there is one. `None` where it does not stand there.
pub fn strip_ext_prefix(name: &str, prefix: &str) -> (r: Option<String>)
    ensures
        match r {
            Some(n) => ext_prefix_stripped(name@, prefix@) == Some(n@),
            None => ext_prefix_stripped(name@, prefix@) is None,
        },
{
    let n = chars_of(name);
    let p = chars_of(prefix);
    let (stem, ext) = split_ext(n.as_slice());
    if has_suffix(stem.as_slice(), p.as_slice()) {
        let base = slice_of(stem.as_slice(), 0, stem.len() - p.len());
        assert(base@ =~= stem@.take(stem@.len() - prefix@.len()));
        Some(join_ext(base, ext))
    } else {
        None
    }
}

/// Whether `to_check` stands right before the extension of the name, or at
/// its end where it has none.
pub fn has_ext_prefix(name: &str, to_check: &str) -> (r: bool)
    ensures
        r == ext_prefixed(name@, to_check@),
{
    let n = chars_of(name);
    let p = chars_of(to_check);
    let (stem, _ext) = split_ext(n.as_slice());
    has_suffix(stem.as_slice(), p.as_slice())
}

/// Puts `to_prefix` right before the extension of the name, or at its end
/// where it has none.
pub fn set_ext_prefix(name: &str, to_prefix: &str) -> (r: String)
    ensures
        r@ == ext_prefix_set(name@, to_prefix@),
{
    let n = chars_of(name);
    let p = chars_of(to_prefix);
    let (stem, ext) = split_ext(n.as_slice());
    let mut marked = stem;
    extend_chars(&mut marked, p.as_slice());
    join_ext(marked, ext)
}

/// Whether a tag group may be created under this name: the name does not
/// already carry the group marker, holds no separator and is not the name
/// of the file directory.
pub open spec fn group_name_ok(name: Seq<char>, marker: Seq<char>, filedir: Seq<char>) -> bool {
    !ext_prefixed(name, marker) && !name.contains(crate::path::SEPARATOR) && name != filedir
}

/// Whether a tag group may be created under `name`.
pub fn creatable_tag_group(name: &str, tag_group_str: &str, filedir_str: &str) -> (r: bool)
    ensures
        r == group_name_ok(name@, tag_group_str@, filedir_str@),
{
    let n = chars_of(name);
    !has_ext_prefix(name, tag_group_str) && !crate::text::contains_char(
        n.as_slice(),
        crate::path::SEPARATOR,
    ) && !crate::text::str_eq(name, filedir_str)
}

/// The directory name of a tag group: its name with the group marker.
pub fn name_to_tag_group(name: &str, tag_group_str: &str) -> (r: String)
    ensures
        r@ == ext_prefix_set(name@, tag_group_str@),
{
    set_ext_prefix(name, tag_group_str)
}

/// Whether a rename to `name` means a delete: the name is the delete
/// name, or, on macOS, the delete name, a dot and anything.
pub open spec fn delete_name(name: Seq<char>, mac: bool) -> bool {
    name == UNLINK_NAME@ || (mac && is_prefix(UNLINK_NAME@ + seq!['.'], name))
}

/// Whether a rename to `name` means a delete.
pub fn should_unlink(name: &str) -> (r: bool)
    ensures
        r == (name@ == UNLINK_NAME@),
{
    crate::text::str_eq(name, UNLINK_NAME)
}

/// Whether a rename to `name` means a delete where file browsers always
/// add an extension: the delete name itself, or the delete name, a dot and
/// anything.
pub fn should_unlink_with_ext(name: &str) -> (r: bool)
    ensures
        r == (name@ == UNLINK_NAME@ || is_prefix(UNLINK_NAME@ + seq!['.'], name@)),
{
    let n = chars_of(name);
    let mut dotted = chars_of(UNLINK_NAME);
    let plain = chars_eq(n.as_slice(), dotted.as_slice());
    dotted.push('.');
    assert(dotted@ =~= UNLINK_NAME@ + seq!['.']);
    has_prefix(n.as_slice(), dotted.as_slice()) || plain
}

/// Copies as much of `src`, from `offset` on, as fits into `dst`. Returns
/// the number of items copied: nothing beyond the end of `src`.
pub fn read_from_slice<T: Copy>(src: &[T], dst: &mut Vec<T>, offset: usize) -> (read: usize)
    ensures
        final(dst)@.len() == old(dst)@.len(),
        offset > src@.len() ==> read == 0,
        offset > src@.len() ==> final(dst)@ == old(dst)@,
        offset <= src@.len() ==> read == vstd::math::min(
            src@.len() - offset,
            old(dst)@.len() as int,
        ) && final(dst)@ == src@.subrange(offset as int, offset + read) + old(dst)@.skip(
            read as int,
        ),
{
    let desired = dst.len();
    if offset > src.len() {
        return 0;
    }
    assert(dst@ =~= src@.subrange(offset as int, offset as int) + old(dst)@.skip(0));
    let avail = src.len() - offset;
    let read = if avail < desired {
        avail
    } else {
        desired
    };
    let mut i: usize = 0;
    while i < read
        invariant
            i <= read,
            read <= dst@.len(),
            offset + read <= src.len(),
            dst@.len() == old(dst)@.len(),
            dst@ == src@.subrange(offset as int, offset + i) + old(dst)@.skip(i as int),
        decreases read - i,
    {
        dst.set(i, src[offset + i]);
        assert(dst@ =~= src@.subrange(offset as int, offset + i + 1) + old(dst)@.skip(i + 1));
        i += 1;
    }
    read
}

/// The version as `major.minor.patch`.
pub fn version_str() -> (r: String)
    ensures
        r@ == VERSION_MAJOR@ + seq!['.'] + VERSION_MINOR@ + seq!['.'] + VERSION_PATCH@,
{
    let mut v = chars_of(VERSION_MAJOR);
    v.push('.');
    let minor = chars_of(VERSION_MINOR);
    extend_chars(&mut v, minor.as_slice());
    v.push('.');
    let patch = chars_of(VERSION_PATCH);
    extend_chars(&mut v, patch.as_slice());
    string_of(v.as_slice())
}

} // verus!
