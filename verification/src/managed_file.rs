//! Where the files that a collection manages are kept: under a directory
//! named after a digest of the path that they stand for.

use crate::text::{join, join_seq, string_of, views_of};
use vstd::prelude::*;

verus! {

/// The MD5 digest of a sequence of bytes.
pub uninterp spec fn md5_of(data: Seq<u8>) -> Seq<u8>;

/// Computes the MD5 digest of the bytes.
///
/// Trusted: `md5::compute` returns the digest of its input, which is a
/// function of the bytes alone and sixteen bytes long.
#[verifier::external_body]
pub(crate) fn md5_digest(data: &[u8]) -> (d: Vec<u8>)
    ensures
        d@ == md5_of(data@),
        d@.len() == 16,
{
    md5::compute(data).0.to_vec()
}

/// The character of a hexadecimal digit.
pub open spec fn hex_char(d: nat) -> char {
    if d < 10 {
        crate::num::digit_char(d)
    } else if d == 10 {
        'a'
    } else if d == 11 {
        'b'
    } else if d == 12 {
        'c'
    } else if d == 13 {
        'd'
    } else if d == 14 {
        'e'
    } else {
        'f'
    }
}

/// A byte as two hexadecimal digits.
pub open spec fn hex_pair(b: u8) -> Seq<char> {
    seq![hex_char((b / 16) as nat), hex_char((b % 16) as nat)]
}

/// Every byte as two hexadecimal digits.
pub open spec fn hex_pairs(bytes: Seq<u8>) -> Seq<Seq<char>> {
    bytes.map_values(|b: u8| hex_pair(b))
}

/// All bytes as hexadecimal digits, one after the other.
pub open spec fn hex_text(bytes: Seq<u8>) -> Seq<char> {
    join_seq(hex_pairs(bytes), Seq::empty())
}

/// The directory of a digest: one directory for each byte.
pub open spec fn hex_dirs(bytes: Seq<u8>) -> Seq<char> {
    join_seq(hex_pairs(bytes), seq!['/'])
}

/// The character of a hexadecimal digit.
fn hex_digit(d: u8) -> (c: char)
    requires
        d < 16,
    ensures
        c == hex_char(d as nat),
{
    if d < 10 {
        crate::num::digit_to_char(d as u64)
    } else if d == 10 {
        'a'
    } else if d == 11 {
        'b'
    } else if d == 12 {
        'c'
    } else if d == 13 {
        'd'
    } else if d == 14 {
        'e'
    } else {
        'f'
    }
}

/// The directory and the file name for a digest: the directory has one
/// level for each byte, named by its two hexadecimal digits; the name is
/// all of the digits.
pub fn digest_path(digest: &[u8]) -> (r: (String, String))
    ensures
        r.0@ == hex_dirs(digest@),
        r.1@ == hex_text(digest@),
{
    let mut parts: Vec<String> = Vec::new();
    let mut i: usize = 0;
    let ghost want = hex_pairs(digest@);
    while i < digest.len()
        invariant
            i <= digest.len(),
            want == hex_pairs(digest@),
            views_of(parts@) =~= want.take(i as int),
        decreases digest.len() - i,
    {
        let b = digest[i];
        let mut pair: Vec<char> = Vec::new();
        pair.push(hex_digit(b / 16));
        pair.push(hex_digit(b % 16));
        assert(pair@ =~= hex_pair(b));
        let text = string_of(pair.as_slice());
        let ghost before = views_of(parts@);
        parts.push(text);
        assert(views_of(parts@) =~= before.push(hex_pair(b)));
        i += 1;
    }
    assert(want.take(digest.len() as int) =~= want);
    let slash = String::from_str("/");
    let nothing = String::new();
    proof {
        reveal_strlit("/");
        assert("/"@ =~= seq!['/']);
    }
    (join(parts.as_slice(), slash.as_str()), join(parts.as_slice(), nothing.as_str()))
}

/// The directory and the file name under which the file that stands for
/// `orig_path` is kept: those of the MD5 digest of the path.
pub fn subdir_path(orig_path: &str) -> (r: (String, String))
    ensures
        r.0@ == hex_dirs(md5_of(vstd::utf8::encode_utf8(orig_path@))),
        r.1@ == hex_text(md5_of(vstd::utf8::encode_utf8(orig_path@))),
{
    let digest = md5_digest(orig_path.as_bytes());
    digest_path(digest.as_slice())
}

} // verus!
