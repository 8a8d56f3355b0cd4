//! Unix permission bits: owner, group and others, each with read, write and
//! execute, and the umask that derives them.

use crate::num::{octal3, parse_unsigned, read_unsigned, u32_to_octal3};
use crate::text::{chars_of, string_of};
use vstd::prelude::*;

verus! {

/// The error of reading permissions from text that is no octal number.
#[derive(Debug, Clone, Copy, PartialEq, Eq)]
pub struct ParseOctalError;

impl ParseOctalError {
    /// The message shown for this error.
    pub fn message(&self) -> (s: String)
        ensures
            s@ == "Bad octal value"@,
    {
        String::from_str("Bad octal value")
    }
}

/// One class of permissions: that of the owner, of the group, or of others.
#[derive(Debug, Clone, Copy, PartialEq, Eq, Hash, Structural)]
pub struct ClassPerms {
    pub read: bool,
    pub write: bool,
    pub execute: bool,
}

/// The three bits of a class as a number from 0 to 7.
pub open spec fn class_mode(p: ClassPerms) -> nat {
    (if p.read {
        4nat
    } else {
        0nat
    }) + (if p.write {
        2nat
    } else {
        0nat
    }) + (if p.execute {
        1nat
    } else {
        0nat
    })
}

/// The class that the low three bits of `val` denote.
pub open spec fn class_of(val: nat) -> ClassPerms {
    ClassPerms { read: (val / 4) % 2 == 1, write: (val / 2) % 2 == 1, execute: val % 2 == 1 }
}

impl ClassPerms {
    pub fn new(read: bool, write: bool, execute: bool) -> (r: Self)
        ensures
            r == (ClassPerms { read, write, execute }),
    {
        Self { read, write, execute }
    }

    /// Grants read, write and execute.
    pub fn all_perms(&mut self)
        ensures
            *final(self) == (ClassPerms { read: true, write: true, execute: true }),
    {
        self.read = true;
        self.write = true;
        self.execute = true;
    }

    /// Grants read and execute, and withholds write.
    pub fn all_but_write(&mut self)
        ensures
            *final(self) == (ClassPerms { read: true, write: false, execute: true }),
    {
        self.all_perms();
        self.write = false;
    }

    /// The bits of this class: 4 for read, 2 for write, 1 for execute.
    pub fn mode(&self) -> (m: u32)
        ensures
            m as nat == class_mode(*self),
            m < 8,
    {
        let mut val: u32 = 0;
        if self.read {
            val = val + 4;
        }
        if self.write {
            val = val + 2;
        }
        if self.execute {
            val = val + 1;
        }
        val
    }

    /// The class denoted by the low three bits of `val`.
    pub fn from_mode(val: u32) -> (r: Self)
        ensures
            r == class_of(val as nat),
    {
        assert(((val & 4) > 0) == ((val / 4) % 2 == 1)) by (bit_vector);
        assert(((val & 2) > 0) == ((val / 2) % 2 == 1)) by (bit_vector);
        assert(((val & 1) > 0) == (val % 2 == 1)) by (bit_vector);
        Self { read: (val & 4) > 0, write: (val & 2) > 0, execute: (val & 1) > 0 }
    }
}

impl From<u32> for ClassPerms {
    fn from(val: u32) -> (r: Self) {
        ClassPerms::from_mode(val)
    }
}

impl vstd::std_specs::convert::FromSpecImpl<u32> for ClassPerms {
    open spec fn obeys_from_spec() -> bool {
        true
    }

    open spec fn from_spec(val: u32) -> Self {
        class_of(val as nat)
    }
}

/// The permissions of a file or directory.
#[derive(Debug, Clone, Copy, PartialEq, Eq, Hash, Structural)]
pub struct Permissions {
    pub owner: ClassPerms,
    pub group: ClassPerms,
    pub others: ClassPerms,
}

/// The nine permission bits as a number below 512.
pub open spec fn perms_mode(p: Permissions) -> nat {
    class_mode(p.owner) * 64 + class_mode(p.group) * 8 + class_mode(p.others)
}

/// The permissions that the low nine bits of `val` denote.
pub open spec fn perms_of(val: nat) -> Permissions {
    Permissions {
        owner: class_of((val / 64) % 8),
        group: class_of((val / 8) % 8),
        others: class_of(val % 8),
    }
}

/// The bits of a class read back from its number are the class.
pub proof fn lemma_class_round_trip(val: nat)
    ensures
        class_mode(class_of(val)) == val % 8,
{
    let r = val % 8;
    let q = val / 8;
    assert(val == 8 * q + r);
    assert(val / 4 == 2 * q + r / 4);
    assert(val / 2 == 4 * q + r / 2);
    assert((val / 4) % 2 == (r / 4) % 2);
    assert((val / 2) % 2 == (r / 2) % 2);
    assert(val % 2 == r % 2);
    assert(r == 0 || r == 1 || r == 2 || r == 3 || r == 4 || r == 5 || r == 6 || r == 7);
}

/// The class read back from its bits is the class.
pub proof fn lemma_class_mode_round_trip(c: ClassPerms)
    ensures
        class_of(class_mode(c)) == c,
        class_mode(c) < 8,
{
}

/// Reading permissions from a number and writing them back keeps the low
/// nine bits and drops the rest.
pub proof fn law_perms_round_trip(val: u32)
    ensures
        perms_mode(perms_of(val as nat)) == val % 512,
{
    let a = (val / 64) % 8;
    let b = (val / 8) % 8;
    let c = val % 8;
    lemma_class_round_trip(a as nat);
    lemma_class_round_trip(b as nat);
    lemma_class_round_trip(c as nat);
    assert(((val / 64) % 8) * 64 + ((val / 8) % 8) * 8 + val % 8 == val % 512) by (bit_vector);
}

/// Writing permissions as a number and reading them back gives the same
/// permissions.
pub proof fn law_mode_round_trip(p: Permissions)
    ensures
        perms_of(perms_mode(p)) == p,
{
    let a = class_mode(p.owner) as u32;
    let b = class_mode(p.group) as u32;
    let c = class_mode(p.others) as u32;
    lemma_class_mode_round_trip(p.owner);
    lemma_class_mode_round_trip(p.group);
    lemma_class_mode_round_trip(p.others);
    assert(a < 8 && b < 8 && c < 8 ==> ((a * 64 + b * 8 + c) / 64) % 8 == a && ((a * 64 + b * 8
        + c) / 8) % 8 == b && (a * 64 + b * 8 + c) % 8 == c) by (bit_vector);
}

impl Permissions {
    /// The nine permission bits: owner, group, others, three bits each.
    pub fn mode(&self) -> (m: u32)
        ensures
            m as nat == perms_mode(*self),
            m < 512,
    {
        self.owner.mode() * 64 + self.group.mode() * 8 + self.others.mode()
    }

    /// The mode in octal, at least three digits wide.
    pub fn octal_string(&self) -> (s: String)
        ensures
            s@ == octal3(perms_mode(*self)),
    {
        let v = u32_to_octal3(self.mode());
        string_of(v.as_slice())
    }

    /// The permissions denoted by the low nine bits of `val`.
    pub fn from_mode(val: u32) -> (r: Self)
        ensures
            r == perms_of(val as nat),
    {
        assert(((val & 0o700) >> 6) == (val / 64) % 8) by (bit_vector);
        assert(((val & 0o070) >> 3) == (val / 8) % 8) by (bit_vector);
        assert((val & 0o007) == val % 8) by (bit_vector);
        Self {
            owner: ClassPerms::from_mode((val & 0o700) >> 6),
            group: ClassPerms::from_mode((val & 0o070) >> 3),
            others: ClassPerms::from_mode(val & 0o007),
        }
    }

    /// Reads permissions from an octal number in text.
    pub fn from_octal(s: &str) -> (r: Result<Self, ParseOctalError>)
        ensures
            match r {
                Ok(p) => parse_unsigned(s@, 8, u32::MAX as nat) is Some && p == perms_of(
                    parse_unsigned(s@, 8, u32::MAX as nat)->0,
                ),
                Err(_) => parse_unsigned(s@, 8, u32::MAX as nat) is None,
            },
    {
        let v = chars_of(s);
        match read_unsigned(v.as_slice(), 8, 0xffff_ffff) {
            Some(n) => Ok(Permissions::from_mode(n as u32)),
            None => Err(ParseOctalError),
        }
    }
}

impl From<u32> for Permissions {
    fn from(val: u32) -> (r: Self) {
        Permissions::from_mode(val)
    }
}

impl vstd::std_specs::convert::FromSpecImpl<u32> for Permissions {
    open spec fn obeys_from_spec() -> bool {
        true
    }

    open spec fn from_spec(val: u32) -> Self {
        perms_of(val as nat)
    }
}

impl std::str::FromStr for Permissions {
    type Err = ParseOctalError;

    fn from_str(s: &str) -> (r: Result<Self, ParseOctalError>)
        ensures
            match r {
                Ok(p) => parse_unsigned(s@, 8, u32::MAX as nat) is Some && p == perms_of(
                    parse_unsigned(s@, 8, u32::MAX as nat)->0,
                ),
                Err(_) => parse_unsigned(s@, 8, u32::MAX as nat) is None,
            },
    {
        Permissions::from_octal(s)
    }
}

/// A umask: the permission bits that new files and directories do not get.
#[derive(Debug, Clone, Copy, PartialEq, Eq, Hash, Structural)]
pub struct UMask(pub u32);

impl UMask {
    /// The permissions of a new file: read and write for all, less the mask.
    pub fn file_perms(&self) -> (p: Permissions)
        ensures
            p == perms_of((0o666u32 & !self.0) as nat),
    {
        Permissions::from_mode(0o666 & (!self.0))
    }

    /// The permissions of a new directory: everything for all, less the
    /// mask.
    pub fn dir_perms(&self) -> (p: Permissions)
        ensures
            p == perms_of((0o777u32 & !self.0) as nat),
    {
        Permissions::from_mode(0o777 & (!self.0))
    }

    /// The mask in octal inside `UMask(..)`.
    pub fn describe(&self) -> (s: String)
        ensures
            s@ == "UMask("@ + octal3(self.0 as nat) + ")"@,
    {
        let mut v = chars_of("UMask(");
        let d = u32_to_octal3(self.0);
        crate::text::extend_chars(&mut v, d.as_slice());
        let close = chars_of(")");
        crate::text::extend_chars(&mut v, close.as_slice());
        string_of(v.as_slice())
    }
}

impl From<u32> for UMask {
    fn from(umask: u32) -> (r: Self) {
        UMask(umask)
    }
}

impl vstd::std_specs::convert::FromSpecImpl<u32> for UMask {
    open spec fn obeys_from_spec() -> bool {
        true
    }

    open spec fn from_spec(val: u32) -> Self {
        UMask(val)
    }
}

} // verus!
