//! The files by which the file manager of macOS shows an icon: a
//! resource fork that holds the icon, and the AppleDouble files that
//! carry it beside a file or a folder.

use vstd::prelude::*;

verus! {

/// The two bytes of a number, the more significant first.
pub open spec fn be_u16(n: u16) -> Seq<u8> {
    seq![(n >> 8) as u8, (n & 0xff) as u8]
}

/// The four bytes of a number, the most significant first.
pub open spec fn be_u32(n: u32) -> Seq<u8> {
    seq![(n >> 24) as u8, ((n >> 16) & 0xff) as u8, ((n >> 8) & 0xff) as u8, (n & 0xff) as u8]
}

/// The two bytes of a signed number in two's complement, the more
/// significant first.
pub open spec fn be_i16(n: i16) -> Seq<u8> {
    if n < 0 {
        be_u16((n + 0x1_0000) as u16)
    } else {
        be_u16(n as u16)
    }
}

/// `n` zero bytes.
pub open spec fn zero_bytes(n: nat) -> Seq<u8> {
    Seq::new(n, |i: int| 0u8)
}

/// Appends `n` zero bytes.
pub fn push_zeros(out: &mut Vec<u8>, n: usize)
    ensures
        final(out)@ == old(out)@ + zero_bytes(n as nat),
{
    let mut i: usize = 0;
    assert(out@ =~= old(out)@ + zero_bytes(0));
    while i < n
        invariant
            i <= n,
            out@ == old(out)@ + zero_bytes(i as nat),
        decreases n - i,
    {
        out.push(0u8);
        assert(out@ =~= old(out)@ + zero_bytes((i + 1) as nat));
        i += 1;
    }
}

/// Appends the bytes.
pub fn push_bytes(out: &mut Vec<u8>, bytes: &[u8])
    ensures
        final(out)@ == old(out)@ + bytes@,
{
    let mut i: usize = 0;
    assert(out@ =~= old(out)@ + bytes@.take(0));
    while i < bytes.len()
        invariant
            i <= bytes.len(),
            out@ == old(out)@ + bytes@.take(i as int),
        decreases bytes.len() - i,
    {
        out.push(bytes[i]);
        assert(out@ =~= old(out)@ + bytes@.take(i + 1));
        i += 1;
    }
    assert(bytes@.take(bytes.len() as int) =~= bytes@);
}

/// Appends the two bytes of a number, the more significant first.
pub fn push_u16(out: &mut Vec<u8>, n: u16)
    ensures
        final(out)@ == old(out)@ + be_u16(n),
{
    assert(n >> 8 <= 0xff) by (bit_vector);
    assert(n & 0xff <= 0xff) by (bit_vector);
    out.push((n >> 8) as u8);
    out.push((n & 0xff) as u8);
    assert(out@ =~= old(out)@ + be_u16(n));
}

/// Appends the two bytes of a signed number in two's complement, the
/// more significant first.
pub fn push_i16(out: &mut Vec<u8>, n: i16)
    ensures
        final(out)@ == old(out)@ + be_i16(n),
{
    let bits: u16 = if n < 0 {
        ((n as i32) + 0x1_0000) as u16
    } else {
        n as u16
    };
    push_u16(out, bits);
}

/// Appends the four bytes of a number, the most significant first.
pub fn push_u32(out: &mut Vec<u8>, n: u32)
    ensures
        final(out)@ == old(out)@ + be_u32(n),
{
    assert(n >> 24 <= 0xff) by (bit_vector);
    assert((n >> 16) & 0xff <= 0xff) by (bit_vector);
    assert((n >> 8) & 0xff <= 0xff) by (bit_vector);
    assert(n & 0xff <= 0xff) by (bit_vector);
    out.push((n >> 24) as u8);
    out.push(((n >> 16) & 0xff) as u8);
    out.push(((n >> 8) & 0xff) as u8);
    out.push((n & 0xff) as u8);
    assert(out@ =~= old(out)@ + be_u32(n));
}

/// The id under which a resource fork holds the icon of a file.
pub const ICON_RESOURCE_ID: i16 = -16455;

/// The type of an icon resource: `icns`.
pub open spec fn icns_type() -> Seq<u8> {
    seq![0x69u8, 0x63, 0x6e, 0x73]
}

/// The first sixteen bytes of a resource fork that holds one resource of
/// `len` bytes: where the resource data begin, where the resource map
/// begins, and the lengths of the two.
pub open spec fn fork_offsets(len: nat) -> Seq<u8> {
    be_u32(256) + be_u32((len + 260) as u32) + be_u32((len + 4) as u32) + be_u32(50)
}

/// The resource map of a fork that holds one icon: a copy of the first
/// sixteen bytes of the fork, eight reserved bytes, where the list of
/// types and the list of names begin, one type, `icns`, with one
/// resource, and the reference to that resource, which has no name.
pub open spec fn fork_map(len: nat) -> Seq<u8> {
    fork_offsets(len) + zero_bytes(8) + be_u16(28) + be_u16(50) + be_u16(0) + icns_type() + be_u16(
        0,
    ) + be_u16(10) + be_i16(ICON_RESOURCE_ID) + be_u16(0xffff) + zero_bytes(8)
}

/// A resource fork that holds the icon: the header, the length of the
/// icon, the icon, and the resource map.
pub open spec fn icns_fork(icon: Seq<u8>) -> Seq<u8> {
    fork_offsets(icon.len()) + zero_bytes(240) + be_u32(icon.len() as u32) + icon + fork_map(
        icon.len(),
    )
}

/// Appends the first sixteen bytes of a resource fork.
fn push_fork_offsets(out: &mut Vec<u8>, len: usize)
    requires
        len <= usize::MAX - 260,
    ensures
        final(out)@ == old(out)@ + fork_offsets(len as nat),
{
    push_u32(out, 256);
    push_u32(out, #[verifier::truncate] ((len + 260) as u32));
    push_u32(out, #[verifier::truncate] ((len + 4) as u32));
    push_u32(out, 50);
    assert(out@ =~= old(out)@ + fork_offsets(len as nat));
}

/// A resource fork that holds the given icon.
pub fn generate_icns_fork(icns_data: &[u8]) -> (fork: Vec<u8>)
    requires
        icns_data.len() <= usize::MAX - 260,
    ensures
        fork@ == icns_fork(icns_data@),
{
    let len = icns_data.len();
    let mut fork: Vec<u8> = Vec::new();
    push_fork_offsets(&mut fork, len);
    push_zeros(&mut fork, 240);
    push_u32(&mut fork, #[verifier::truncate] (len as u32));
    push_bytes(&mut fork, icns_data);
    let ghost body = fork@;
    assert(body =~= fork_offsets(len as nat) + zero_bytes(240) + be_u32(len as u32) + icns_data@);
    push_fork_offsets(&mut fork, len);
    push_zeros(&mut fork, 8);
    push_u16(&mut fork, 28);
    push_u16(&mut fork, 50);
    push_u16(&mut fork, 0);
    let kind: Vec<u8> = vec![0x69u8, 0x63, 0x6e, 0x73];
    assert(kind@ =~= icns_type());
    push_bytes(&mut fork, kind.as_slice());
    push_u16(&mut fork, 0);
    push_u16(&mut fork, 10);
    push_i16(&mut fork, ICON_RESOURCE_ID);
    push_u16(&mut fork, 0xffff);
    push_zeros(&mut fork, 8);
    assert(fork@ =~= body + fork_map(len as nat));
    fork
}

/// The length of the resource part of the AppleDouble file of a folder.
pub const FOLDER_RESOURCE_LEN: usize = 286;

/// The text that an AppleDouble file names its file system with:
/// `Mac OS X`, filled up with spaces to sixteen bytes.
pub open spec fn home_file_system() -> Seq<u8> {
    seq![
        0x4du8,
        0x61,
        0x63,
        0x20,
        0x4f,
        0x53,
        0x20,
        0x58,
        0x20,
        0x20,
        0x20,
        0x20,
        0x20,
        0x20,
        0x20,
        0x20,
    ]
}

/// The beginning of the part that describes the file to the file
/// manager: the type `icon`, the creator `MACS`, the flags of a file with
/// an icon of its own that is not shown, and a place and a folder of
/// zero.
pub open spec fn finder_info() -> Seq<u8> {
    seq![0x69u8, 0x63, 0x6f, 0x6e, 0x4du8, 0x41, 0x43, 0x53] + be_u16(16400) + be_u16(0) + be_u16(
        0,
    ) + be_u16(0)
}

/// An AppleDouble file with the given resource part, whose length it
/// states as `resource_len`: the header, which names two parts; where the
/// part for the file manager and the resource part stand and how long
/// they are; and the two parts.
pub open spec fn apple_double(resource_len: u32, resource: Seq<u8>) -> Seq<u8> {
    be_u32(333319) + be_u32(131072) + home_file_system() + be_u16(2) + be_u32(9) + be_u32(50)
        + be_u32(3760) + be_u32(2) + be_u32(3810) + be_u32(resource_len) + finder_info()
        + zero_bytes(3744) + resource
}

/// Appends what an AppleDouble file holds before its resource part.
fn push_double_head(out: &mut Vec<u8>, resource_len: u32)
    ensures
        final(out)@ == old(out)@ + apple_double(resource_len, Seq::empty()),
{
    push_u32(out, 333319);
    push_u32(out, 131072);
    let home: Vec<u8> = vec![
        0x4du8,
        0x61,
        0x63,
        0x20,
        0x4f,
        0x53,
        0x20,
        0x58,
        0x20,
        0x20,
        0x20,
        0x20,
        0x20,
        0x20,
        0x20,
        0x20,
    ];
    assert(home@ =~= home_file_system());
    push_bytes(out, home.as_slice());
    push_u16(out, 2);
    push_u32(out, 9);
    push_u32(out, 50);
    push_u32(out, 3760);
    push_u32(out, 2);
    push_u32(out, 3810);
    push_u32(out, resource_len);
    let ghost head = out@;
    let kinds: Vec<u8> = vec![0x69u8, 0x63, 0x6f, 0x6e, 0x4du8, 0x41, 0x43, 0x53];
    push_bytes(out, kinds.as_slice());
    push_u16(out, 16400);
    push_u16(out, 0);
    push_u16(out, 0);
    push_u16(out, 0);
    assert(out@ =~= head + finder_info());
    push_zeros(out, 3744);
    assert(out@ =~= old(out)@ + apple_double(resource_len, Seq::empty()));
}

/// The AppleDouble file that gives a file the given icon: its resource
/// part is the resource fork that holds the icon.
pub fn icon_apple_double(icns_data: &[u8]) -> (data: Vec<u8>)
    requires
        icns_data.len() <= usize::MAX - 260,
    ensures
        data@ == apple_double(icns_fork(icns_data@).len() as u32, icns_fork(icns_data@)),
{
    let fork = generate_icns_fork(icns_data);
    let mut data: Vec<u8> = Vec::new();
    push_double_head(&mut data, #[verifier::truncate] (fork.len() as u32));
    push_bytes(&mut data, fork.as_slice());
    assert(data@ =~= apple_double(fork@.len() as u32, fork@));
    data
}

/// The AppleDouble file of a folder with an icon of its own: its
/// resource part is left empty.
pub fn folder_apple_double() -> (data: Vec<u8>)
    ensures
        data@ == apple_double(286, zero_bytes(286)),
{
    let mut data: Vec<u8> = Vec::new();
    push_double_head(&mut data, 286);
    push_zeros(&mut data, FOLDER_RESOURCE_LEN);
    assert(data@ =~= apple_double(286, zero_bytes(286)));
    data
}

/// How far the resolving of an alias file has come: the path reached so
/// far, and whether any step has succeeded.
#[derive(Debug)]
pub struct Resolving {
    pub resolved: String,
    pub at_least_once: bool,
}

/// What follows a step of resolving: another step, or the end, with the
/// path reached or the error of the first step.
#[derive(Debug)]
pub enum ResolveStep<E> {
    Again(Resolving),
    Done(Result<String, E>),
}

impl Resolving {
    /// The beginning of resolving the alias file at `path`.
    pub fn new(path: &str) -> (r: Self)
        ensures
            r.resolved@ == path@,
            !r.at_least_once,
    {
        Resolving { resolved: String::from_str(path), at_least_once: false }
    }
}

/// Resolves an alias file as far as it goes, one step at a time: given
/// what resolving the path reached so far has answered, says what comes
/// next. While resolving succeeds, the path it gives is resolved in turn.
/// The first failure after a success ends the resolving with the path
/// reached; a failure of the very first step is the error of the whole.
pub fn recursive_resolve_alias<E>(state: Resolving, answer: Result<String, E>) -> (r: ResolveStep<E>)
    ensures
        match answer {
            Ok(path) => r == ResolveStep::<E>::Again(
                Resolving { resolved: path, at_least_once: true },
            ),
            Err(e) => if state.at_least_once {
                r == ResolveStep::<E>::Done(Ok(state.resolved))
            } else {
                r == ResolveStep::<E>::Done(Err(e))
            },
        },
{
    match answer {
        Ok(path) => ResolveStep::Again(Resolving { resolved: path, at_least_once: true }),
        Err(e) => {
            if state.at_least_once {
                ResolveStep::Done(Ok(state.resolved))
            } else {
                ResolveStep::Done(Err(e))
            }
        },
    }
}

} // verus!
