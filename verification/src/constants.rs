//! Fixed names and values of the tag engine.

use vstd::prelude::*;

verus! {

/// The three parts of the version.
pub const VERSION_MAJOR: &'static str = "0";

pub const VERSION_MINOR: &'static str = "1";

pub const VERSION_PATCH: &'static str = "0";

pub const ENV_PREFIX: &'static str = "STAG";

pub const APP_NAME: &'static str = "supertag";

pub const AUTHOR: &'static str = "Andrew Moffat";

pub const ORG: &'static str = "ai.supertag";

/// The directory in which macOS keeps its journal of changes.
pub const FSEVENTS_PATH: &'static str = "/.fseventsd";

/// The file that tells macOS to keep no journal of changes.
pub const FSEVENTS_NO_LOG_PATH: &'static str = "/.fseventsd/no_log";

/// The file that tells the indexer of macOS to stay out.
pub const NO_INDEX_PATH: &'static str = "/.metadata_never_index";

/// A file that tells the GNOME indexer to stay out.
pub const TRACKER_IGNORE: &'static str = ".trackerignore";

/// The prefix of a component that excludes a tag.
pub const NEGATIVE_TAG_PREFIX: &'static str = "-";

pub const DB_FILE_NAME: &'static str = "db.sqlite3";

pub const DB_FILE_PATH: &'static str = "/.supertag/db.sqlite3";

pub const STAG_ROOT_CONF_PATH: &'static str = "/.supertag";

pub const STAG_ROOT_CONF_NAME: &'static str = ".supertag";

pub const MANAGED_FILES_DIR_NAME: &'static str = "managed_files";

/// The file whose removal tells a recursive delete from the delete of a
/// single file.
pub const UNLINK_CANARY: &'static str = ".unlink_canary";

/// The name to which a tag or file is renamed to delete it.
pub const UNLINK_NAME: &'static str = "delete";

/// The device number reported for every entry.
pub const DEVICE_ID: u64 = 63;

/// The number of bytes in the header of an alias file.
pub const ALIAS_HEADER_LEN: usize = 12;

/// The header that every alias file begins with: `book`, four zero bytes,
/// `mark`.
pub open spec fn alias_header() -> Seq<u8> {
    seq![0x62u8, 0x6f, 0x6f, 0x6b, 0, 0, 0, 0, 0x6d, 0x61, 0x72, 0x6b]
}

/// The byte of the alias header at position `i`.
pub fn alias_header_byte(i: usize) -> (b: u8)
    requires
        i < ALIAS_HEADER_LEN,
    ensures
        b == alias_header()[i as int],
{
    if i == 0 {
        0x62
    } else if i == 1 {
        0x6f
    } else if i == 2 {
        0x6f
    } else if i == 3 {
        0x6b
    } else if i < 8 {
        0
    } else if i == 8 {
        0x6d
    } else if i == 9 {
        0x61
    } else if i == 10 {
        0x72
    } else {
        0x6b
    }
}

} // verus!
