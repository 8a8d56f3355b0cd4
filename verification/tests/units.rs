use supertag::cli::{id_validator, perm_validator, strip_prefix};
use supertag::common::{
    creatable_tag_group, has_ext_prefix, name_to_tag_group, primary_tag, read_from_slice,
    set_ext_prefix, should_unlink, should_unlink_with_ext, strip_ext_prefix, strip_negative_tag,
    version_str,
};
use supertag::err::{Errno, STagError, StoreError};
use supertag::fuse::conf::{make_fs_name, make_fuse_config, make_mount_config, FuseConfig, MountConfig};
use supertag::fuse::opcache::{Alias, OpCache, ReaddirCacheEntry, Request};
use supertag::fuse::util::{new_dir, new_link, new_regfile, new_statvfs, statfs, S_IFDIR, S_IFLNK, S_IFREG};
use supertag::managed_file::{digest_path, subdir_path};
use supertag::notify::{Note, RateLimiter};
use supertag::num::{i64_to_dec, read_unsigned, u32_to_octal3, u64_to_dec};
use supertag::path::{
    canonical_of, components_of, ends_with, get_filename, join_name, parent, same_path,
    starts_with, PathPart,
};
use supertag::settings::{join_path, Config, Mount, Settings, Symbols};
use supertag::sql::query::FileWanted;
use supertag::sql::Store;
use supertag::text::{chars_of, join, str_lt, string_of};
use supertag::types::file_perms::{Permissions, UMask};
use supertag::types::{
    collect_pinnable, collect_regular_names, collect_tags_and_groups, taggroup_pairs, DeviceFile,
    TagCollectible, TagCollection, TagType,
};

fn perms() -> Permissions {
    Permissions::from(0o755)
}

fn settings() -> Settings {
    Settings {
        config: Config {
            symbols: Symbols::default(),
            mount: Mount { base_dir: "/mnt/stag".into(), uid: 1, gid: 2, permissions: perms() },
        },
        collection: Some("col".into()),
        config_dir: "/cfg".into(),
        data_dir: "/data".into(),
        data_local_dir: "/data".into(),
    }
}

fn names(v: &[&str]) -> Vec<String> {
    v.iter().map(|s| s.to_string()).collect()
}

// ---- text and numbers

#[test]
fn chars_round_trip_with_non_ascii() {
    let s = "a\u{22C2}b\u{FE6B}";
    assert_eq!(string_of(&chars_of(s)), s);
    assert_eq!(chars_of(s).len(), 4);
}

#[test]
fn lexicographic_order_is_by_code_point() {
    assert!(str_lt("a", "b"));
    assert!(str_lt("a", "ab"));
    assert!(!str_lt("ab", "a"));
    assert!(!str_lt("a", "a"));
    assert!(str_lt("", "a"));
    assert!(str_lt("Z", "a"));
    assert!(str_lt("z", "\u{22C2}"));
    assert_eq!(str_lt("a1", "a_tags"), "a1" < "a_tags");
}

#[test]
fn join_puts_separator_between_items() {
    assert_eq!(join(&names(&["a", "b", "c"]), "/"), "a/b/c");
    assert_eq!(join(&names(&["a"]), "/"), "a");
    assert_eq!(join(&names(&[]), "/"), "");
    assert_eq!(join(&names(&["", ""]), ":"), ":");
}

#[test]
fn decimal_digits_of_numbers() {
    assert_eq!(string_of(&u64_to_dec(0)), "0");
    assert_eq!(string_of(&u64_to_dec(12345)), "12345");
    assert_eq!(string_of(&u64_to_dec(u64::MAX)), "18446744073709551615");
    assert_eq!(string_of(&i64_to_dec(-1)), "-1");
    assert_eq!(string_of(&i64_to_dec(i64::MIN)), "-9223372036854775808");
    assert_eq!(string_of(&u32_to_octal3(0)), "000");
    assert_eq!(string_of(&u32_to_octal3(0o22)), "022");
    assert_eq!(string_of(&u32_to_octal3(0o1755)), "1755");
}

#[test]
fn reading_numbers_follows_the_standard_parser() {
    let cases = ["0", "007", "+12", "12a", "", "+", "-3", "18446744073709551615",
        "18446744073709551616", "99999999999999999999999", " 1"];
    for c in cases.iter() {
        let got = read_unsigned(&chars_of(c), 10, u64::MAX);
        assert_eq!(got, c.parse::<u64>().ok(), "reading {:?}", c);
    }
    for c in ["755", "8", "+17", "37777777777", "40000000000", ""].iter() {
        let got = read_unsigned(&chars_of(c), 8, u32::MAX as u64);
        assert_eq!(got, u32::from_str_radix(c, 8).ok().map(|v| v as u64), "reading {:?}", c);
    }
}

// ---- paths

#[test]
fn components_follow_the_standard_path() {
    for p in ["", "/", "a", "/a/b", "a//b/", "./a", "a/./b", "/.", ".", "..", "a/..", "//a", "a/b/."] {
        let got: Vec<String> = components_of(p)
            .into_iter()
            .map(|c| match c {
                PathPart::Root => "/".to_string(),
                PathPart::Cur => ".".to_string(),
                PathPart::Parent => "..".to_string(),
                PathPart::Normal(n) => n,
            })
            .collect();
        let want: Vec<String> = std::path::Path::new(p)
            .components()
            .map(|c| c.as_os_str().to_str().unwrap().to_string())
            .collect();
        assert_eq!(got, want, "components of {:?}", p);
    }
}

#[test]
fn file_name_parent_and_prefix() {
    assert_eq!(get_filename("/a/b"), Some("b".to_string()));
    assert_eq!(get_filename("/a/b/"), Some("b".to_string()));
    assert_eq!(get_filename("/"), Some("/".to_string()));
    assert_eq!(get_filename(""), None);
    assert_eq!(parent("/a/b"), Some("/a".to_string()));
    assert_eq!(parent("/a"), Some("/".to_string()));
    assert_eq!(parent("/"), None);
    assert_eq!(parent("a"), Some("".to_string()));
    assert_eq!(parent(""), None);
    assert!(same_path("/a//b/", "/a/b"));
    assert!(!same_path("/a/b", "a/b"));
    assert!(ends_with("/t1/.unlink_canary", ".unlink_canary"));
    assert!(!ends_with("/t1/x.unlink_canary", ".unlink_canary"));
    assert!(starts_with("/.supertag/db.sqlite3", "/.supertag"));
    assert!(!starts_with("/.supertagx", "/.supertag"));
    assert_eq!(canonical_of("//a/./b/"), "/a/b");
    assert_eq!(canonical_of("a/b"), "a/b");
    assert_eq!(join_name("/a", "b"), "/a/b");
    assert_eq!(join_name("/", "b"), "/b");
    assert_eq!(join_path("/a", "b"), "/a/b");
    assert_eq!(join_path("/a/", "b"), "/a/b");
    assert_eq!(join_path("/a", "/b"), "/b");
    assert_eq!(join_path("", "b"), "b");
    assert_eq!(strip_prefix("/mnt/stag/col/t1", "/mnt/stag/col"), "t1");
    assert_eq!(strip_prefix("/mnt/stag/col", "/mnt/stag/col"), "");
    assert_eq!(strip_prefix("/other/t1", "/mnt/stag/col"), "/other/t1");
}

// ---- names

#[test]
fn negation_and_group_markers() {
    assert_eq!(strip_negative_tag("-t1"), Some("t1".to_string()));
    assert_eq!(strip_negative_tag("t1"), None);
    assert_eq!(strip_negative_tag("-"), Some("".to_string()));
    assert_eq!(strip_ext_prefix("a_tags+", "+"), Some("a_tags".to_string()));
    assert_eq!(strip_ext_prefix("a_tags+.txt", "+"), Some("a_tags.txt".to_string()));
    assert_eq!(strip_ext_prefix("a_tags", "+"), None);
    assert_eq!(strip_ext_prefix("a+b.txt", "+"), None);
    assert_eq!(strip_ext_prefix("a.b+.c", "+"), Some("a.b.c".to_string()));
    assert!(has_ext_prefix("a_tags+", "+"));
    assert!(has_ext_prefix("a_tags+.txt", "+"));
    assert!(!has_ext_prefix("a_tags.txt+", "+"));
    assert_eq!(set_ext_prefix("a_tags", "+"), "a_tags+");
    assert_eq!(set_ext_prefix("a_tags.txt", "+"), "a_tags+.txt");
    assert_eq!(name_to_tag_group("g", "+"), "g+");
    assert!(creatable_tag_group("g", "+", "\u{22C2}"));
    assert!(!creatable_tag_group("g+", "+", "\u{22C2}"));
    assert!(!creatable_tag_group("a/b", "+", "\u{22C2}"));
    assert!(!creatable_tag_group("\u{22C2}", "+", "\u{22C2}"));
}

#[test]
fn primary_tag_stops_at_device_marker() {
    assert_eq!(primary_tag("/t1/name\u{FE6B}12-34", '\u{FE6B}').unwrap(), Some("name".to_string()));
    assert_eq!(primary_tag("/t1/name", '\u{FE6B}').unwrap(), Some("name".to_string()));
    assert_eq!(primary_tag("/t1/n", '\u{FE6B}').unwrap(), None);
    assert!(matches!(primary_tag("", '\u{FE6B}'), Err(STagError::InvalidPath(_))));
}

#[test]
fn delete_name_and_version() {
    assert!(should_unlink("delete"));
    assert!(!should_unlink("delete.txt"));
    assert!(!should_unlink("deleted"));
    assert!(should_unlink_with_ext("delete"));
    assert!(should_unlink_with_ext("delete.txt"));
    assert!(!should_unlink_with_ext("deleted"));
    assert_eq!(version_str(), "0.1.0");
}

#[test]
fn read_from_slice_copies_what_fits() {
    let src = [1u8, 2, 3, 4, 5];
    let mut dst = vec![0u8; 3];
    assert_eq!(read_from_slice(&src, &mut dst, 1), 3);
    assert_eq!(dst, vec![2, 3, 4]);
    let mut dst = vec![9u8; 4];
    assert_eq!(read_from_slice(&src, &mut dst, 3), 2);
    assert_eq!(dst, vec![4, 5, 9, 9]);
    assert_eq!(read_from_slice(&src, &mut dst, 5), 0);
    assert_eq!(read_from_slice(&src, &mut dst, 6), 0);
    assert_eq!(dst, vec![4, 5, 9, 9]);
}

// ---- grammar

#[test]
fn path_grammar_by_kind() {
    let syms = Symbols::default();
    let df = syms.inodify_filename("f.txt", 7, 42);
    let path = format!("/t1/-t2/g+/\u{22C2}/{}/plain", df);
    let tags = syms.path_to_tags(&path);
    assert_eq!(tags.len(), 6);
    assert_eq!(tags[0], TagType::Regular("t1".into()));
    assert_eq!(tags[1], TagType::Negation("t2".into()));
    assert_eq!(tags[2], TagType::Group("g".into()));
    assert_eq!(tags[3], TagType::FileDir);
    assert_eq!(tags[4], TagType::DeviceFileSymlink(DeviceFile::new("f.txt", 7, 42)));
    assert_eq!(tags[5], TagType::Regular("plain".into()));
    let tags = syms.path_to_tags("/t1/_/name");
    assert_eq!(tags[1], TagType::FileDir);
    assert_eq!(tags[2], TagType::Symlink("name".into()));
    assert_eq!(syms.path_to_tags("/").len(), 0);
    assert_eq!(syms.path_to_tags("/a/../b/./c").len(), 3);
}

#[test]
fn device_file_names() {
    let syms = Symbols::default();
    assert_eq!(syms.inodify_filename("a", 1, 2), "a\u{FE6B}1-2");
    assert_eq!(
        syms.filename_to_device_file("a\u{FE6B}1-2").unwrap(),
        Some(DeviceFile::new("a", 1, 2))
    );
    assert_eq!(syms.filename_to_device_file("a-1-2").unwrap(), None);
    assert!(matches!(
        syms.filename_to_device_file("a\u{FE6B}x-2"),
        Err(STagError::BadDeviceFile(_))
    ));
    assert!(matches!(
        syms.filename_to_device_file("a\u{FE6B}1-"),
        Err(STagError::BadDeviceFile(_))
    ));
    assert_eq!(syms.filename_to_device_file("a\u{FE6B}1").unwrap(), None);
    assert_eq!(
        DeviceFile::new("a", 1, 2).describe(),
        "<DeviceFile filename=a device=1 inode=2>"
    );
    assert_eq!(TagType::Group("g".into()).describe(), "Group(g)");
    assert_eq!(TagType::FileDir.describe(), "FileDir");
}

#[test]
fn tag_collection_accessors() {
    let syms = Symbols::default();
    let mut tc = TagCollection::new(&syms, "/t1/g+/t2/\u{22C2}\u{7f}");
    assert!(tc.unlinking);
    assert_eq!(tc.len(), 4);
    assert_eq!(tc.first(), Some(&TagType::Regular("t1".into())));
    assert_eq!(tc.primary_parent(), Some(&TagType::Regular("t2".into())));
    assert_eq!(tc.all_but_last().len(), 3);
    assert_eq!(tc.pop(), Some(TagType::Regular("\u{22C2}\u{7f}".into())));
    assert_eq!(tc.primary_type().unwrap(), &TagType::Regular("t2".into()));
    tc.push(TagType::FileDir);
    assert_eq!(tc.last(), Some(&TagType::FileDir));
    assert_eq!(tc.join_path(&syms), "t1/g+/t2/\u{22C2}");
    assert_eq!(tc.collect_regular_names(), names(&["t1", "t2"]));
    assert_eq!(collect_regular_names(tc.as_slice()), names(&["t1", "t2"]));
    assert_eq!(collect_tags_and_groups(tc.iter()).len(), 3);
    assert_eq!(taggroup_pairs(tc.as_slice()), vec![("g".to_string(), "t2".to_string())]);
    let empty = TagCollection::new(&syms, "/");
    assert!(matches!(empty.primary_type(), Err(STagError::NotEnoughTags)));
    assert_eq!(empty.primary_parent(), None);
    let groups = syms.path_to_tags("/a+/b+/t/c+/-n/d+");
    let pins = collect_pinnable(&groups);
    assert_eq!(
        pins,
        vec![
            TagType::Group("a".into()),
            TagType::Regular("t".into()),
            TagType::Group("c".into()),
            TagType::Group("d".into()),
        ]
    );
}

#[test]
fn settings_paths() {
    let mut s = settings();
    assert_eq!(s.collection_dir("col"), "/cfg/collections/col");
    assert_eq!(s.db_file("col"), "/cfg/collections/col/col.db");
    assert_eq!(s.log_dir("col"), "/cfg/collections/col/logs/");
    assert_eq!(s.managed_dir("col"), "/cfg/collections/col/managed_files");
    assert_eq!(s.notify_socket_file("col"), "/cfg/collections/col/notify.sock");
    assert_eq!(s.base_config_file(), "/cfg/config.toml");
    assert_eq!(s.config_file("col"), "/cfg/collections/col/config.toml");
    assert_eq!(s.mountpoint("col"), "/mnt/stag/col");
    assert_eq!(s.abs_mountpoint("/t1/t2"), "/mnt/stag/col/t1/t2");
    assert_eq!(s.abs_mountpoint("t1"), "/mnt/stag/col/t1");
    assert_eq!(s.collection_from_path("/mnt/stag/col/t1"), Some("col".to_string()));
    assert_eq!(s.collection_from_path("/mnt/stag"), None);
    assert_eq!(s.collection_from_path("/elsewhere/x"), None);
    assert!(s.in_own_collection("/mnt/stag/col/t1"));
    assert!(!s.in_own_collection("/mnt/stag/other/t1"));
    assert_eq!(s.set_collection("b"), Some("col".to_string()));
    assert_eq!(s.get_collection(), Some("b".to_string()));
}

// ---- store

fn linked(store: &mut Store, name: &str, ino: u64, tags: &[&str], now: u64) {
    store
        .add_file(7, ino, &format!("/src/{}/{}", ino, name), name, &names(tags), 1, 1, &UMask(0o022), now, None)
        .unwrap();
}

#[test]
fn num_files_counts_links_after_each_change() {
    let mut s = Store::new(0);
    linked(&mut s, "a", 1, &["t1", "t2"], 1);
    linked(&mut s, "b", 2, &["t1"], 2);
    linked(&mut s, "a", 1, &["t1"], 3);
    let check = |s: &Store| {
        for t in s.get_all_tags() {
            assert_eq!(t.num_files as usize, s.count_links_of(t.id), "tag {}", t.name);
        }
    };
    check(&s);
    assert_eq!(s.get_tag("t1").unwrap().num_files, 2);
    assert_eq!(s.get_tag("t2").unwrap().num_files, 1);
    s.merge_tags("t1", &[TagType::Regular("t1".into())], &names(&["t2", "t3"]), 4).unwrap();
    check(&s);
    assert_eq!(s.get_tag("t1").unwrap().num_files, 0);
    assert_eq!(s.get_tag("t2").unwrap().num_files, 2);
    s.remove_tag("t2", 5, true);
    check(&s);
    assert!(s.get_tag("t2").is_none());
    assert_eq!(s.links.len(), 0);
}

#[test]
fn store_orders_tags_groups_and_files_by_name() {
    let mut s = Store::new(0);
    for n in ["m", "b", "z", "a"] {
        s.ensure_tag(n, 1, 1, &perms(), 1).unwrap();
        s.ensure_tag_group(n, 1, 1, &perms(), 1).unwrap();
    }
    let tags: Vec<String> = s.get_all_tags().into_iter().map(|t| t.name).collect();
    assert_eq!(tags, names(&["a", "b", "m", "z"]));
    let groups: Vec<String> = s.get_all_tag_groups().into_iter().map(|t| t.name).collect();
    assert_eq!(groups, names(&["a", "b", "m", "z"]));
    s.rename_tag("m", "c", 2).unwrap();
    let tags: Vec<String> = s.get_all_tags().into_iter().map(|t| t.name).collect();
    assert_eq!(tags, names(&["a", "b", "c", "z"]));
    assert_eq!(s.rename_tag("a", "b", 3), Err(StoreError::Constraint));
    assert_eq!(s.rename_tag_group("a", "b", 3), Err(StoreError::Constraint));
    linked(&mut s, "y", 1, &["a"], 4);
    linked(&mut s, "x", 2, &["a"], 5);
    linked(&mut s, "x", 3, &["a"], 6);
    let files: Vec<(String, u64)> = s
        .files_tagged_with(&[TagType::Regular("a".into())])
        .into_iter()
        .map(|f| (f.primary_tag, f.inode))
        .collect();
    assert_eq!(files, vec![("x".to_string(), 2), ("x".to_string(), 3), ("y".to_string(), 1)]);
    s.rename_file(&DeviceFile::new("x", 7, 2), "zz", 7);
    let files: Vec<String> = s
        .files_tagged_with(&[TagType::Regular("a".into())])
        .into_iter()
        .map(|f| f.primary_tag)
        .collect();
    assert_eq!(files, names(&["x", "y", "zz"]));
}

#[test]
fn store_ids_and_errors() {
    let mut s = Store::new(0);
    let (n, id) = s.ensure_tag("t1", 1, 1, &perms(), 1).unwrap();
    assert_eq!((n.as_str(), id), ("t1", 1));
    let (_, id2) = s.ensure_tag("t0", 1, 1, &perms(), 1).unwrap();
    assert_eq!(id2, 2);
    assert_eq!(s.ensure_tag("t1", 1, 1, &perms(), 9).unwrap().1, 1);
    assert_eq!(s.get_tag("t1").unwrap().mtime, 9);
    assert_eq!(s.get_root_mtime(), 9);
    assert_eq!(s.link_file_to_tag(7, 1, "t1", 1, 1, &perms(), 2), Err(StoreError::Constraint));
    s.insert_file(7, 1, "/p", "p", 2, None).unwrap();
    assert_eq!(s.link_file_to_tag(7, 1, "nope", 1, 1, &perms(), 2), Err(StoreError::Constraint));
    s.link_file_to_tag(7, 1, "t1", 1, 1, &perms(), 3).unwrap();
    s.link_file_to_tag(7, 1, "t1", 1, 1, &perms(), 4).unwrap();
    assert_eq!(s.links.len(), 1);
    assert_eq!(
        s.remove_devicefile(&DeviceFile::new("p", 7, 99), &names(&["t1"]), 5),
        Err(StoreError::NoRows)
    );
    assert_eq!(
        s.remove_tag_from_intersection("nope", &[TagType::Regular("t1".into())], 5).err(),
        Some(StoreError::NoRows)
    );
    assert_eq!(
        s.remove_taggroup_from_itersection("nope", &[TagType::Regular("t1".into())], 5),
        Err(StoreError::NoRows)
    );
    assert_eq!(s.merge_tags("nope", &[], &names(&["t1"]), 5), Err(StoreError::NoRows));
    let mut full = Store::new(0);
    full.ensure_tag("t", 1, 1, &perms(), 1).unwrap();
    full.tags[0].id = i64::MAX;
    assert_eq!(full.ensure_tag("u", 1, 1, &perms(), 2), Err(StoreError::Full));
    assert_eq!(full.tags.len(), 1);
    assert_eq!(
        full.pin_tags(&[TagType::Regular("t".into()), TagType::Regular("u".into())], 1, 1, &perms(), 3),
        Err(StoreError::Full)
    );
    assert_eq!(full.get_root_mtime(), 1);
}

#[test]
fn linking_then_unlinking_restores_links() {
    let mut s = Store::new(0);
    linked(&mut s, "a", 1, &["t1"], 1);
    linked(&mut s, "b", 2, &["t1", "t2"], 2);
    let links_before = s.links.clone();
    let t2_before = s.get_tag("t2").unwrap().num_files;
    s.link_file_to_tag(7, 1, "t2", 1, 1, &perms(), 3).unwrap();
    assert_eq!(s.get_tag("t2").unwrap().num_files, t2_before + 1);
    let removed = s.remove_devicefile(&DeviceFile::new("a", 7, 1), &names(&["t2"]), 4).unwrap();
    assert_eq!(removed, vec![s.get_tag("t2").unwrap().id]);
    assert_eq!(s.links, links_before);
    assert_eq!(s.get_tag("t2").unwrap().num_files, t2_before);
}

#[test]
fn renaming_there_and_back_restores_the_tags() {
    let mut s = Store::new(0);
    linked(&mut s, "a", 1, &["m", "b"], 1);
    s.ensure_tag("z", 1, 1, &perms(), 1).unwrap();
    let before: Vec<(i64, String, i64)> =
        s.get_all_tags().into_iter().map(|t| (t.id, t.name, t.num_files)).collect();
    s.rename_tag("b", "q", 2).unwrap();
    s.rename_tag("q", "b", 3).unwrap();
    let after: Vec<(i64, String, i64)> =
        s.get_all_tags().into_iter().map(|t| (t.id, t.name, t.num_files)).collect();
    assert_eq!(before, after);
    assert_eq!(s.get_root_mtime(), 3);
}

#[test]
fn making_and_removing_a_tag_restores_the_store() {
    let mut s = Store::new(0);
    linked(&mut s, "a", 1, &["m"], 1);
    s.pin_tags(&[TagType::Regular("m".into()), TagType::Regular("n".into())], 1, 1, &perms(), 2)
        .unwrap();
    let tags_before: Vec<String> = s.get_all_tags().into_iter().map(|t| t.name).collect();
    let (links, pins) = (s.links.clone(), s.pins.clone());
    s.ensure_tag("fresh", 1, 1, &perms(), 3).unwrap();
    s.remove_tag("fresh", 4, true);
    let tags_after: Vec<String> = s.get_all_tags().into_iter().map(|t| t.name).collect();
    assert_eq!(tags_before, tags_after);
    assert_eq!(s.links, links);
    assert_eq!(s.pins, pins);
}

#[test]
fn intersection_does_not_depend_on_order() {
    let mut s = Store::new(0);
    linked(&mut s, "x", 1, &["a"], 1);
    linked(&mut s, "y", 2, &["a", "b"], 2);
    linked(&mut s, "z", 3, &["b", "a", "c"], 3);
    let ab = [TagType::Regular("a".into()), TagType::Regular("b".into())];
    let ba = [TagType::Regular("b".into()), TagType::Regular("a".into())];
    let f = |s: &Store, t: &[TagType]| -> Vec<String> {
        s.files_tagged_with(t).into_iter().map(|f| f.primary_tag).collect()
    };
    assert_eq!(f(&s, &ab), names(&["y", "z"]));
    assert_eq!(f(&s, &ab), f(&s, &ba));
    let not_c = [TagType::Regular("a".into()), TagType::Negation("c".into())];
    assert_eq!(f(&s, &not_c), names(&["x", "y"]));
    assert_eq!(f(&s, &[]), Vec::<String>::new());
    assert_eq!(f(&s, &[TagType::FileDir]), Vec::<String>::new());
    assert!(s.contains_file(&ab, &FileWanted::Named("z".into())).is_some());
    assert!(s.contains_file(&ab, &FileWanted::Named("x".into())).is_none());
    assert!(s.contains_file(&ab, &FileWanted::Device(DeviceFile::new("y", 7, 2))).is_some());
}

#[test]
fn unlinked_file_is_in_no_file_directory() {
    let mut s = Store::new(0);
    linked(&mut s, "x", 1, &["a"], 1);
    s.remove_devicefile(&DeviceFile::new("x", 7, 1), &names(&["a"]), 2).unwrap();
    assert_eq!(s.files.len(), 1);
    for t in [vec![TagType::Regular("a".into())], vec![], vec![TagType::Negation("b".into())]] {
        assert!(s.files_tagged_with(&t).is_empty());
    }
}

#[test]
fn pins_and_their_subdirectories() {
    let mut s = Store::new(0);
    let t = |n: &str| TagType::Regular(n.into());
    let g = |n: &str| TagType::Group(n.into());
    s.pin_tags(&[t("t1"), t("t2"), t("t3")], 1, 1, &perms(), 1).unwrap();
    s.pin_tags(&[t("t1"), g("g1"), t("t4")], 1, 1, &perms(), 2).unwrap();
    assert!(!s.is_pinned(&[t("t1"), t("t2")]));
    assert!(!s.is_pinned(&[t("t1")]));
    assert!(s.is_pinned(&[t("t1"), t("t2"), t("t3")]));
    assert!(s.is_pinned(&[t("t1"), g("g1"), t("t4")]));
    assert!(!s.is_pinned(&[t("t2"), t("t1")]));
    assert!(!s.is_pinned(&[t("t1"), t("nope")]));
    assert!(s.tag_is_in_group("g1", "t4"));
    assert_eq!(s.pinned_subdirs(&[t("t1")]).len(), 2);
    assert_eq!(s.pinned_subdirs(&[t("t1"), t("t2")]).len(), 1);
    assert_eq!(s.pinned_subdirs(&[t("t1"), t("t2"), t("t3")]).len(), 0);
    s.remove_tag("t2", 3, true);
    assert_eq!(s.pins.len(), 1);
    s.remove_taggroup("g1", 4);
    assert_eq!(s.pins.len(), 0);
    assert_eq!(s.members.len(), 0);
    assert!(s.tag_exists("t4"));
    assert!(!s.tag_group_exists("g1"));
}

#[test]
fn snapshot_is_a_deep_copy() {
    let mut s = Store::new(0);
    linked(&mut s, "x", 1, &["a"], 1);
    let copy = s.clone();
    s.remove_tag("a", 2, true);
    assert_eq!(copy.tags.len(), 1);
    assert_eq!(copy.links.len(), 1);
    assert_eq!(s.tags.len(), 0);
}

// ---- stat

#[test]
fn stat_modes_and_sizes() {
    let d = new_dir(5, 1, 2, &perms(), 3);
    assert_eq!(d.mode, S_IFDIR | 0o755);
    assert_eq!((d.nlink, d.size, d.mtime, d.uid, d.gid, d.device, d.inode), (2, 3, 5, 1, 2, 63, 1));
    let l = new_link(5, 1, 2, &Permissions::from(0o644), 10);
    assert_eq!(l.mode, S_IFLNK | 0o644);
    assert_eq!((l.nlink, l.size), (1, 10));
    let r = new_regfile(5, 1, 2, &Permissions::from(0o600), 0);
    assert_eq!(r.mode, S_IFREG | 0o600);
    assert_eq!(new_statvfs().f_bsize, 0);
    let v = statfs();
    assert_eq!(v.f_blocks, (100u64 * 1024 * 1024 * 1024) / 4096);
    assert_eq!((v.f_bsize, v.f_files, v.f_ffree, v.f_favail), (4096, 100, 10_000, 10_000));
    assert_eq!(Errno::ENOENT.code(), 2);
    assert_eq!(Errno::EEXIST.code(), 17);
    assert_eq!(STagError::PathExists("p".into()).errno(), Errno::EEXIST);
    assert_eq!(STagError::BadTag("t".into()).errno(), Errno::EIO);
    assert_eq!(STagError::NotEnoughTags.message(), "Not enough tags");
    assert_eq!(STagError::PathExists("p".into()).message(), "Path p already exists");
}

// ---- configuration

#[test]
fn config_arguments() {
    assert!(FuseConfig::default().to_args().is_empty());
    assert!(MountConfig::default().to_args().is_empty());
    let mut f = FuseConfig::default();
    f.umask = Some(0o22);
    f.uid = Some(-5);
    f.use_ino = Some(true);
    f.direct_io = Some(false);
    f.modules = Some(names(&["iconv", "subdir"]));
    f.volicon = Some("/x.icns".into());
    f.max_readahead = Some(4);
    assert_eq!(
        f.to_args(),
        names(&["-ouse_ino", "-oumask=022", "-ouid=-5", "-omodules=iconv:subdir", "-ovolicon=/x.icns"])
    );
    assert_eq!(
        make_mount_config("col").to_args(),
        names(&[
            "-oallow_other",
            "-odefault_permissions",
            "-ofsname=supertag:col",
            "-osubtype=manifold",
            "-odirect_io"
        ])
    );
    assert_eq!(
        make_fuse_config().to_args(),
        names(&["-ohard_remove", "-oentry_timeout=0", "-oattr_timeout=0"])
    );
    assert_eq!(make_fs_name("c"), "supertag:c");
}

#[test]
fn validators() {
    assert!(id_validator("1000").is_ok());
    assert_eq!(id_validator("x").unwrap_err(), "x is not a valid id");
    assert!(id_validator("4294967296").is_err());
    assert!(perm_validator("755").is_ok());
    assert_eq!(perm_validator("9").unwrap_err(), "9 is not a valid octal number");
}

// ---- managed files

#[test]
fn test_subdir_path() {
    let (path, hash) = subdir_path("/tmp/abc.txt");
    assert_eq!(path, "88/2a/46/06/3f/a0/7f/5a/06/2c/e0/75/57/40/8b/7b");
    assert_eq!(hash, "882a46063fa07f5a062ce07557408b7b");
}

#[test]
fn digest_path_writes_two_digits_for_each_byte() {
    let (path, hash) = digest_path(&[0x00, 0x0a, 0xff]);
    assert_eq!(path, "00/0a/ff");
    assert_eq!(hash, "000aff");
    assert_eq!(digest_path(&[]), (String::new(), String::new()));
}

// ---- notes

#[test]
fn notes_and_rate_limit() {
    assert_eq!(Note::BadCopy.kind(), "BadCopy");
    assert_eq!(Note::Unlink("/p".into()).kind(), "Unlink");
    assert_eq!(Note::Unlink("/p".into()).body(), "Delete by renaming folder to 'delete'");
    assert_eq!(Note::TagToTagGroup("t".into()).body(), "Cannot change a non-empty tag to a tag group");
    assert!(Note::Unlink("/p".into()).same_as(&Note::Unlink("/p".into())));
    assert!(!Note::Unlink("/p".into()).same_as(&Note::Unlink("/q".into())));
    let mut r = RateLimiter::new(1000);
    assert!(!r.allow(1100));
    assert!(!r.allow(1599));
    assert!(r.allow(2099));
    assert!(r.allow(2599));
    assert!(!r.allow(2000));
}

// ---- alias files

#[test]
fn alias_header_is_checked_byte_by_byte() {
    let header = b"book\0\0\0\0mark";
    let mut a = Alias::new("/t1/x", 0o644, UMask(0o022), 1, 1, "/m/x", 0);
    assert!(!a.is_valid());
    assert!(a.write(&header[..4], 0, 1).is_ok());
    assert_eq!((a.header_ptr, a.valid, a.written), (4, None, 4));
    assert!(a.write(&header[4..], 4, 2).is_ok());
    assert_eq!((a.header_ptr, a.valid, a.written), (12, Some(true), 12));
    assert!(!a.is_valid());
    assert!(a.write(b"rest", 12, 3).is_ok());
    assert_eq!((a.valid, a.written), (Some(true), 16));
    assert!(a.is_valid());
    let mut e = Alias::new("/t1/x", 0o644, UMask(0o022), 1, 1, "/m/x", 0);
    assert_eq!(e.write(header, 0, 1), Ok(()));
    assert!(!e.is_valid());
    assert_eq!(e.write(b"x", 12, 2), Ok(()));
    assert_eq!((e.valid, e.written), (Some(true), 13));
    assert!(e.is_valid());
    let mut f = Alias::new("/t1/x", 0o644, UMask(0o022), 1, 1, "/m/x", 0);
    assert_eq!(f.write(b"x", 12, 1), Ok(()));
    assert_eq!((f.valid, f.written), (None, 13));
    assert!(!f.is_valid());
    let mut b = Alias::new("/t1/x", 0o644, UMask(0o022), 1, 1, "/m/x", 0);
    let mut all = header.to_vec();
    all.extend_from_slice(b"more");
    assert!(b.write(&all, 0, 1).is_ok());
    assert_eq!((b.valid, b.written), (Some(true), 16));
    assert!(b.is_valid());
    assert!(b.write(b"tail", 16, 2).is_ok());
    let mut c = Alias::new("/t1/x", 0o644, UMask(0o022), 1, 1, "/m/x", 0);
    assert_eq!(c.write(b"boom", 0, 1), Err(Errno::EPERM));
    assert_eq!((c.valid, c.header_ptr), (Some(false), 3));
    assert_eq!(c.write(b"xx", 20, 2), Err(Errno::EPERM));
    assert!(c.write(&header[..2], 0, 3).is_ok());
    let mut d = Alias::new("/t1/x", 0o644, UMask(0o022), 1, 1, "/m/x", 0);
    d.linked = true;
    assert_eq!(d.write(header, 0, 1), Err(Errno::EPERM));
}

// ---- operation cache

#[test]
fn cache_keeps_and_forgets() {
    let mut c = OpCache::new(Symbols::default());
    let req = Request { uid: 1, gid: 2, pid: 3, umask: 0o022 };
    let tag = supertag::sql::types::Tag {
        id: 1,
        name: "t1".into(),
        mtime: 5,
        uid: 1,
        gid: 1,
        permissions: perms(),
        num_files: 2,
    };
    assert!(c.check_readdir_entry("/t1").is_none());
    c.add_readdir_entry("//t1/", ReaddirCacheEntry::Tag(tag));
    match c.check_readdir_entry("/t1") {
        Some(ReaddirCacheEntry::Tag(t)) => assert_eq!(t.num_files, 2),
        _ => panic!("entry not found"),
    }
    assert!(c.clear_readdir_entry("/t1").is_some());
    assert!(c.check_readdir_entry("/t1").is_none());
    assert!(!c.check_delete_pid(3));
    c.add_deny_delete_pid(3);
    assert!(c.check_delete_pid(3));
    assert!(!c.check_delete_pid(4));
    assert!(!c.consume_rename_delete("/delete"));
    c.add_rename_delete_entry("/delete");
    assert!(c.consume_rename_delete("/delete"));
    assert!(!c.consume_rename_delete("/delete"));
    let tf = supertag::sql::types::TaggedFile {
        id: 0,
        inode: 1,
        device: 1,
        path: "/src/a".into(),
        primary_tag: "a".into(),
        mtime: 1,
        uid: 1,
        gid: 1,
        permissions: perms(),
        alias_file: None,
    };
    c.add_symlink(&req, "/t1/a", tf);
    let other = Request { uid: 1, gid: 2, pid: 4, umask: 0o022 };
    assert!(c.consume_symlink(&other, "/t1/a").is_none());
    assert!(c.consume_symlink(&req, "/t1/a").is_some());
    assert!(c.consume_symlink(&req, "/t1/a").is_none());
    assert_eq!(c.ensure_filedir("/t1/a"), "/t1/\u{22C2}/a");
    assert_eq!(c.ensure_filedir("/t1/\u{22C2}/a"), "/t1/\u{22C2}/a");
    assert_eq!(c.ensure_no_filedir("/t1/\u{22C2}/a"), "/t1/a");
    assert_eq!(c.ensure_no_filedir("/t1/a"), "/t1/a");
    let alias = c.create_alias("/t1/a", 0o644, UMask(0o022), 1, 1, "/m/a", 7);
    assert_eq!(alias.written, 0);
    let mut got = c.check_alias_entry("/t1/a").unwrap();
    got.written = 9;
    assert!(c.update_alias("/t1/a", got));
    assert_eq!(c.check_alias_entry("/t1/a").unwrap().written, 9);
    c.clear_alias("/t1/\u{22C2}/a");
    assert!(c.check_alias_entry("/t1/a").is_none());
    assert!(!c.update_alias("/t1/a", alias));
}

// ---- later additions: purge, flags, times, names, notifier, one shot, mounts

use supertag::fuse::util::{open_opts_from_mode, split_names, to_timespec};
use supertag::iter::OneShot;
use supertag::notify::DesktopNotifier;
use supertag::platform::{mounted_collections, parse_mount_line, primary_collection, space};

fn store_with_two_files() -> Store {
    let mut s = Store::new(1);
    let umask = UMask(0o022);
    s.add_file(1, 10, "/src/a", "a", &["t1".to_string(), "t2".to_string()], 1, 1, &umask, 2, None)
        .unwrap();
    s.add_file(1, 11, "/src/b", "b", &["t1".to_string()], 1, 1, &umask, 3, None).unwrap();
    s
}

#[test]
fn purge_devicefile_takes_the_file_and_its_links() {
    let mut s = store_with_two_files();
    assert_eq!(s.get_tag("t1").unwrap().num_files, 2);
    s.purge_devicefile(&DeviceFile { device: 1, inode: 10, filename: "a".to_string() }, 9);
    assert!(s.is_well_formed());
    assert_eq!(s.files.len(), 1);
    assert_eq!(s.files[0].path, "/src/b");
    assert_eq!(s.get_tag("t1").unwrap().num_files, 1);
    assert_eq!(s.get_tag("t2").unwrap().num_files, 0);
    assert_eq!(s.root_mtime, 9);
}

#[test]
fn purge_of_an_unknown_file_only_sets_the_root_time() {
    let mut s = store_with_two_files();
    let before = s.clone();
    s.purge_devicefile(&DeviceFile { device: 1, inode: 99, filename: "z".to_string() }, 9);
    assert_eq!(s.files.len(), before.files.len());
    assert_eq!(s.links.len(), before.links.len());
    assert_eq!(s.get_tag("t1").unwrap().num_files, 2);
    assert_eq!(s.root_mtime, 9);
    s.purge_path("/src/none", 11);
    assert_eq!(s.files.len(), before.files.len());
    assert_eq!(s.root_mtime, 11);
    assert!(s.is_well_formed());
}

#[test]
fn purge_path_takes_the_file_of_that_path() {
    let mut s = store_with_two_files();
    s.purge_path("/src/b", 12);
    assert!(s.is_well_formed());
    assert_eq!(s.files.len(), 1);
    assert_eq!(s.files[0].path, "/src/a");
    assert_eq!(s.get_tag("t1").unwrap().num_files, 1);
    assert_eq!(s.get_tag("t2").unwrap().num_files, 1);
    assert_eq!(s.root_mtime, 12);
}

#[test]
fn well_formedness_is_decided() {
    let mut s = store_with_two_files();
    assert!(s.is_well_formed());
    s.tags[0].num_files += 1;
    assert!(!s.is_well_formed());
    s.tags[0].num_files -= 1;
    assert!(s.is_well_formed());
    s.tags.swap(0, 1);
    assert!(!s.is_well_formed());
    s.tags.swap(0, 1);
    let link = s.links[0].clone();
    s.links.push(link);
    assert!(!s.is_well_formed());
}

#[test]
fn open_flags_give_read_and_write() {
    assert_eq!(open_opts_from_mode(0), (true, false));
    assert_eq!(open_opts_from_mode(1), (false, true));
    assert_eq!(open_opts_from_mode(2), (true, true));
    assert_eq!(open_opts_from_mode(3), (true, true));
    assert_eq!(open_opts_from_mode(0o100 | 1), (false, true));
    assert_eq!(open_opts_from_mode(0o1000), (true, false));
}

#[test]
fn microseconds_become_seconds_and_nanoseconds() {
    assert_eq!(to_timespec(0), (0, 0));
    assert_eq!(to_timespec(1_500_000), (1, 500_000_000));
    assert_eq!(to_timespec(999_999), (0, 999_999_000));
    assert_eq!(to_timespec(1_600_000_000_123_456), (1_600_000_000, 123_456_000));
}

#[test]
fn names_are_split_at_zero_bytes() {
    assert_eq!(split_names(b""), Vec::<Vec<u8>>::new());
    assert_eq!(split_names(b"user.a\0user.b\0"), vec![b"user.a".to_vec(), b"user.b".to_vec()]);
    assert_eq!(split_names(b"a\0\0b\0"), vec![b"a".to_vec(), b"b".to_vec()]);
}

#[test]
fn desktop_notifier_shows_one_note_per_interval() {
    let mut n = DesktopNotifier::new(Some("icon.png".to_string()), 0);
    assert_eq!(n.tag, "desktop-notification");
    assert!(n.send_message(&Note::BadCopy, 100).is_none());
    let shown = n.send_message(&Note::Unlink("f".to_string()), 600).unwrap();
    assert_eq!(shown.summary, "Supertag Error");
    assert_eq!(shown.body, Note::Unlink("f".to_string()).body());
    assert_eq!(shown.icon.as_deref(), Some("icon.png"));
    assert_eq!(shown.timeout_ms, 6000);
    assert!(n.send_message(&Note::BadCopy, 1099).is_none());
    assert!(n.send_message(&Note::BadCopy, 1599).is_some());
    assert!(n.send_message(&Note::BadCopy, 1500).is_none());
}

#[test]
fn one_shot_yields_its_item_once() {
    let item = 7u32;
    let mut it = OneShot::new(&item);
    assert_eq!(it.next(), Some(&7));
    assert_eq!(it.next(), None);
    assert_eq!(it.next(), None);
}

#[test]
fn white_space_is_told() {
    for c in [' ', '\t', '\n', '\r', '\u{b}', '\u{c}', '\u{85}', '\u{a0}', '\u{2003}', '\u{3000}'] {
        assert!(space(c));
        assert!(c.is_whitespace());
    }
    for c in ['a', '0', '/', '\u{200b}', '\u{feff}'] {
        assert!(!space(c));
    }
    let mut n: u32 = 0;
    while n < 0x3100 {
        if let Some(c) = char::from_u32(n) {
            assert_eq!(space(c), c.is_whitespace());
        }
        n += 1;
    }
}

#[test]
fn mount_lines_name_collections() {
    let line: Vec<char> = "supertag:col on /mnt/col type fuse (rw)".chars().collect();
    assert_eq!(parse_mount_line(&line, false), Some(("col".to_string(), "/mnt/col".to_string())));
    let line: Vec<char> = "supertag:col on /mnt/col".chars().collect();
    assert_eq!(parse_mount_line(&line, false), None);
    assert_eq!(parse_mount_line(&line, true), Some(("col".to_string(), "/mnt/col".to_string())));
    let line: Vec<char> = "supertag:a on b on /mnt/c (x)".chars().collect();
    assert_eq!(parse_mount_line(&line, true), Some(("a".to_string(), "b".to_string())));
    let line: Vec<char> = "supertag: on  on /mnt/c (x)".chars().collect();
    assert_eq!(parse_mount_line(&line, true), Some((" on ".to_string(), "/mnt/c".to_string())));
    let line: Vec<char> = "supertag:col on ".chars().collect();
    assert_eq!(parse_mount_line(&line, true), None);
    let line: Vec<char> = "supertag:col on  x".chars().collect();
    assert_eq!(parse_mount_line(&line, false), None);
    assert_eq!(parse_mount_line(&line, true), Some(("col".to_string(), " x".to_string())));
    let line: Vec<char> = "/dev/sda1 on / type ext4".chars().collect();
    assert_eq!(parse_mount_line(&line, true), None);
    let line: Vec<char> = " supertag:col on /mnt/col x".chars().collect();
    assert_eq!(parse_mount_line(&line, true), None);
}

#[test]
fn mounted_collections_are_read_line_by_line() {
    let out = "/dev/sda1 on / type ext4 (rw)\nsupertag:one on /mnt/one type fuse (rw)\nproc on /proc type proc\nsupertag:two on /mnt/two\n";
    assert_eq!(
        mounted_collections(out),
        vec![
            ("one".to_string(), "/mnt/one".to_string()),
            ("two".to_string(), "/mnt/two".to_string())
        ]
    );
    assert_eq!(mounted_collections(""), Vec::<(String, String)>::new());
    assert_eq!(mounted_collections("supertag:one on /mnt/one"), Vec::<(String, String)>::new());
    assert_eq!(
        mounted_collections("supertag:one on /mnt/one "),
        vec![("one".to_string(), "/mnt/one".to_string())]
    );
}

#[test]
fn primary_collection_is_the_first_known_that_is_mounted() {
    let all = vec!["old".to_string(), "mid".to_string(), "new".to_string()];
    let mounted = vec![
        ("new".to_string(), "/mnt/new".to_string()),
        ("mid".to_string(), "/mnt/mid".to_string()),
    ];
    assert_eq!(primary_collection(&all, &mounted), Some("mid".to_string()));
    assert_eq!(primary_collection(&all, &[]), None);
    assert_eq!(primary_collection(&[], &mounted), None);
    let other = vec![("else".to_string(), "/mnt/else".to_string())];
    assert_eq!(primary_collection(&all, &other), None);
}

// ---- names by id and by group

use supertag::fuse::conf::make_mount_name;

fn store_with_groups() -> Store {
    let mut s = Store::new(1);
    let p = perms();
    s.ensure_tag("beta", 1, 1, &p, 2).unwrap();
    s.ensure_tag("alpha", 1, 1, &p, 3).unwrap();
    s.ensure_tag("gamma", 1, 1, &p, 4).unwrap();
    s.ensure_tag_group("letters", 1, 1, &p, 5).unwrap();
    s.ensure_tag_group("first", 1, 1, &p, 5).unwrap();
    s.add_tag_to_group("beta", "letters", 1, 1, &p, 5);
    s.add_tag_to_group("alpha", "letters", 1, 1, &p, 6);
    s.add_tag_to_group("alpha", "first", 1, 1, &p, 7);
    s.add_tag_to_group("gamma", "missing", 1, 1, &p, 8);
    assert!(s.is_well_formed());
    assert_eq!(s.members.len(), 3);
    s
}

#[test]
fn tag_ids_resolve_to_names_in_name_order() {
    let s = store_with_groups();
    let alpha = s.get_tag_id("alpha").unwrap();
    let beta = s.get_tag_id("beta").unwrap();
    let gamma = s.get_tag_id("gamma").unwrap();
    assert_eq!(s.resolve_tag_ids(&[gamma, alpha]), vec!["alpha".to_string(), "gamma".to_string()]);
    assert_eq!(s.resolve_tag_ids(&[beta]), vec!["beta".to_string()]);
    assert_eq!(s.resolve_tag_ids(&[]), Vec::<String>::new());
    assert_eq!(s.resolve_tag_ids(&[i64::MAX]), Vec::<String>::new());
}

#[test]
fn tag_names_of_a_group_come_in_name_order() {
    let s = store_with_groups();
    assert_eq!(
        s.tag_names_for_tag_group("letters"),
        vec!["alpha".to_string(), "beta".to_string()]
    );
    assert_eq!(s.tag_names_for_tag_group("first"), vec!["alpha".to_string()]);
    assert_eq!(s.tag_names_for_tag_group("none"), Vec::<String>::new());
}

#[test]
fn tag_groups_of_a_tag_come_in_name_order() {
    let s = store_with_groups();
    let alpha = s.get_tag_id("alpha").unwrap();
    let beta = s.get_tag_id("beta").unwrap();
    let gamma = s.get_tag_id("gamma").unwrap();
    let of_alpha = s.tag_groups_for_tag(alpha);
    let names: Vec<&str> = of_alpha.iter().map(|g| g.name.as_str()).collect();
    assert_eq!(names, vec!["first", "letters"]);
    assert_eq!(of_alpha[0].tag_ids, vec![alpha]);
    assert_eq!(of_alpha[1].tag_ids, vec![alpha]);
    let of_beta = s.tag_groups_for_tag(beta);
    assert_eq!(of_beta.len(), 1);
    assert_eq!(of_beta[0].name, "letters");
    assert_eq!(of_beta[0].tag_ids, vec![beta]);
    assert!(s.tag_groups_for_tag(gamma).is_empty());
}

#[test]
fn store_errors_become_library_errors() {
    let e = STagError::from_store(StoreError::Constraint);
    assert!(matches!(e, STagError::DatabaseError(StoreError::Constraint)));
    assert_eq!(e.errno(), Errno::EIO);
}

#[test]
fn mount_name_and_base_directory() {
    assert_eq!(make_mount_name("col"), "col");
    assert_eq!(make_fs_name("col"), "supertag:col");
    assert_eq!(settings().supertag_dir(), "/mnt/stag");
}

// ---- collections in order, resource forks, file system ids

use supertag::fuse::conf::{compute_fsid, fsid_of};
use supertag::fuse::util::mac_volume_icon;
use supertag::platform::all_collections;
use supertag::platform::mac::{folder_apple_double, generate_icns_fork, icon_apple_double};

#[test]
fn collections_come_in_the_order_of_their_making() {
    let entries = vec![
        ("c".to_string(), 30u64),
        ("a".to_string(), 10),
        ("d".to_string(), 10),
        ("b".to_string(), 20),
        ("e".to_string(), 10),
    ];
    assert_eq!(
        all_collections(&entries),
        vec!["a".to_string(), "d".to_string(), "e".to_string(), "b".to_string(), "c".to_string()]
    );
    assert_eq!(all_collections(&[]), Vec::<String>::new());
    assert_eq!(all_collections(&[("x".to_string(), 0)]), vec!["x".to_string()]);
}

#[test]
fn collection_is_resolved_from_the_path_or_the_primary() {
    let mut s = settings();
    s.collection = None;
    let got = s.resolve_collection("/mnt/stag/work/t1", true, Some("home".to_string()));
    assert_eq!(got, Some("work".to_string()));
    assert_eq!(s.collection, Some("work".to_string()));
    let got = s.resolve_collection("/mnt/stag/gone/t1", false, Some("home".to_string()));
    assert_eq!(got, Some("home".to_string()));
    assert_eq!(s.collection, Some("home".to_string()));
    let got = s.resolve_collection("/elsewhere/x", true, Some("other".to_string()));
    assert_eq!(got, Some("other".to_string()));
    assert_eq!(s.collection, Some("other".to_string()));
    let got = s.resolve_collection("/elsewhere/x", true, None);
    assert_eq!(got, None);
    assert_eq!(s.collection, Some("other".to_string()));
    let got = s.resolve_collection("/mnt/stag", true, None);
    assert_eq!(got, None);
}

#[test]
fn resource_fork_holds_the_icon_between_header_and_map() {
    let fork = generate_icns_fork(b"abc");
    assert_eq!(fork.len(), 256 + 4 + 3 + 50);
    assert_eq!(&fork[0..4], &[0, 0, 1, 0]);
    assert_eq!(&fork[4..8], &[0, 0, 1, 7]);
    assert_eq!(&fork[8..12], &[0, 0, 0, 7]);
    assert_eq!(&fork[12..16], &[0, 0, 0, 50]);
    assert!(fork[16..256].iter().all(|b| *b == 0));
    assert_eq!(&fork[256..260], &[0, 0, 0, 3]);
    assert_eq!(&fork[260..263], b"abc");
    let map = &fork[263..];
    assert_eq!(&map[0..16], &fork[0..16]);
    assert!(map[16..24].iter().all(|b| *b == 0));
    assert_eq!(&map[24..26], &[0, 28]);
    assert_eq!(&map[26..28], &[0, 50]);
    assert_eq!(&map[28..30], &[0, 0]);
    assert_eq!(&map[30..34], b"icns");
    assert_eq!(&map[34..36], &[0, 0]);
    assert_eq!(&map[36..38], &[0, 10]);
    assert_eq!(&map[38..40], &[0xbf, 0xb9]);
    assert_eq!(&map[40..42], &[0xff, 0xff]);
    assert!(map[42..50].iter().all(|b| *b == 0));
    let empty = generate_icns_fork(b"");
    assert_eq!(empty.len(), 310);
    assert_eq!(&empty[4..8], &[0, 0, 1, 4]);
    let big = generate_icns_fork(&vec![7u8; 70000]);
    assert_eq!(&big[256..260], &[0, 1, 0x11, 0x70]);
    assert_eq!(&big[4..8], &[0, 1, 0x12, 0x74]);
}

#[test]
fn apple_double_of_a_folder() {
    let data = folder_apple_double();
    assert_eq!(data.len(), 26 + 24 + 3760 + 286);
    assert_eq!(&data[0..4], &[0x00, 0x05, 0x16, 0x07]);
    assert_eq!(&data[4..8], &[0x00, 0x02, 0x00, 0x00]);
    assert_eq!(&data[8..24], b"Mac OS X        ");
    assert_eq!(&data[24..26], &[0, 2]);
    assert_eq!(&data[26..30], &[0, 0, 0, 9]);
    assert_eq!(&data[30..34], &[0, 0, 0, 50]);
    assert_eq!(&data[34..38], &[0, 0, 0x0e, 0xb0]);
    assert_eq!(&data[38..42], &[0, 0, 0, 2]);
    assert_eq!(&data[42..46], &[0, 0, 0x0e, 0xe2]);
    assert_eq!(&data[46..50], &[0, 0, 0x01, 0x1e]);
    assert_eq!(&data[50..54], b"icon");
    assert_eq!(&data[54..58], b"MACS");
    assert_eq!(&data[58..60], &[0x40, 0x10]);
    assert!(data[60..].iter().all(|b| *b == 0));
}

#[test]
fn apple_double_of_an_icon_carries_the_resource_fork() {
    let fork = generate_icns_fork(b"abc");
    let data = icon_apple_double(b"abc");
    assert_eq!(data.len(), 26 + 24 + 3760 + fork.len());
    assert_eq!(&data[46..50], &[0, 0, 0x01, 0x39]);
    assert_eq!(&data[..46], &folder_apple_double()[..46]);
    assert_eq!(&data[50..3810], &folder_apple_double()[50..3810]);
    assert_eq!(&data[3810..], &fork[..]);
}

#[test]
fn file_system_id_has_twenty_four_bits() {
    assert_eq!(fsid_of(0), 0);
    assert_eq!(fsid_of(0xffff_ffff_ffff_ffff), 0xff_ffff);
    assert_eq!(fsid_of(0x1234_5678_9abc_def0), 0xbc_def0);
    let id = compute_fsid("col");
    assert!((0..=0xff_ffff).contains(&id));
    assert_eq!(id, compute_fsid("col"));
    let mut hasher = metrohash::MetroHash64::new();
    std::hash::Hasher::write(&mut hasher, b"col");
    assert_eq!(id as u64, std::hash::Hasher::finish(&hasher) & 0xff_ffff);
}

#[test]
fn volume_icon_is_a_regular_file_open_to_all() {
    let st = mac_volume_icon(3, 4, 99);
    assert_eq!(st.mode, S_IFREG | 0o777);
    assert_eq!(st.size, 100000);
    assert_eq!((st.uid, st.gid, st.nlink, st.inode), (3, 4, 1, 1));
    assert_eq!((st.atime, st.mtime, st.ctime, st.birthtime), (99, 99, 99, 99));
}

#[test]
fn managed_file_is_kept_under_the_digest_of_its_path() {
    let s = settings();
    let (dir, file) = s.managed_save_path("/tmp/some/file", "col");
    let (unique, hash) = subdir_path("/tmp/some/file");
    assert_eq!(dir, format!("{}/{}", s.managed_dir("col"), unique));
    assert_eq!(file, format!("{}/{}", dir, hash));
    assert_eq!(hash.len(), 32);
    assert_eq!(unique.len(), 47);
    let (other, _) = s.managed_save_path("/tmp/some/other", "col");
    assert_ne!(dir, other);
    let digest = md5::compute(b"/tmp/some/file");
    assert_eq!(hash, format!("{:x}", digest));
}

// ---- what a listener has heard

use supertag::notify::{NoteBuffer, PEER_BUFFER};

#[test]
fn listener_numbers_the_notes_it_hears() {
    let mut b = NoteBuffer::new();
    assert_eq!(b.marker(), 0);
    assert!(b.find_after(&Note::BadCopy, 0).is_none());
    b.push(Note::BadCopy);
    b.push(Note::Unlink("/t1".to_string()));
    b.push(Note::BadCopy);
    assert_eq!(b.marker(), 3);
    assert_eq!(b.find_after(&Note::BadCopy, 0), Some((Note::BadCopy, 1)));
    assert_eq!(b.find_after(&Note::BadCopy, 1), Some((Note::BadCopy, 3)));
    assert_eq!(b.find_after(&Note::BadCopy, 3), None);
    assert_eq!(
        b.find_after(&Note::Unlink("/t1".to_string()), 0),
        Some((Note::Unlink("/t1".to_string()), 2))
    );
    assert_eq!(b.find_after(&Note::Unlink("/t2".to_string()), 0), None);
    assert_eq!(b.find_after(&Note::DraggedToRoot, 0), None);
}

#[test]
fn listener_drops_the_oldest_notes() {
    let mut b = NoteBuffer::new();
    b.push(Note::DraggedToRoot);
    for _ in 1..PEER_BUFFER + 5 {
        b.push(Note::BadCopy);
    }
    assert_eq!(b.entries.len(), PEER_BUFFER - 1);
    assert_eq!(b.marker(), PEER_BUFFER + 5);
    assert_eq!(b.counter, PEER_BUFFER + 6);
    assert_eq!(b.entries.front().unwrap().0, 7);
    assert_eq!(b.find_after(&Note::DraggedToRoot, 0), None);
    assert_eq!(b.find_after(&Note::BadCopy, 0), Some((Note::BadCopy, 7)));
}

use supertag::platform::{find_mount, fstab_lines};

#[test]
fn table_of_collections_marks_the_primary_and_the_mounted() {
    let all = vec!["old".to_string(), "mid".to_string(), "new".to_string()];
    let mounted = vec![
        ("new".to_string(), "/mnt/first".to_string()),
        ("mid".to_string(), "/mnt/mid".to_string()),
        ("new".to_string(), "/mnt/new".to_string()),
    ];
    assert_eq!(find_mount(&mounted, "new"), Some("/mnt/new".to_string()));
    assert_eq!(find_mount(&mounted, "old"), None);
    let primary = primary_collection(&all, &mounted);
    assert_eq!(
        fstab_lines(&all, &mounted, &primary),
        vec![
            "  old".to_string(),
            "  * mid => /mnt/mid".to_string(),
            "  new => /mnt/new".to_string()
        ]
    );
    assert_eq!(fstab_lines(&all, &[], &None), vec!["  old", "  mid", "  new"]);
    assert_eq!(fstab_lines(&[], &mounted, &None), Vec::<String>::new());
}

#[test]
fn mount_point_of_the_mounted_collection() {
    let s = settings();
    assert_eq!(s.daemon_mountpoint(), "/mnt/stag/col");
    assert_eq!(s.daemon_mountpoint(), s.mountpoint("col"));
    assert_eq!(s.abs_mountpoint("/t1/t2"), "/mnt/stag/col/t1/t2");
}

// ---- what a lookup in a cache gave

use supertag::fuse::fs::alias::ready_in;
use supertag::fuse::opcache::{alias_in, entry_in, CacheValue};
use supertag::sql::types::Tag;

fn an_alias() -> Alias {
    Alias::new("/t1/a", 0o644, UMask(0o022), 1, 2, "/m/a", 7)
}

fn a_tag() -> Tag {
    Tag { id: 3, name: "t".to_string(), mtime: 1, uid: 1, gid: 1, permissions: perms(), num_files: 0 }
}

#[test]
fn alias_is_taken_from_what_the_cache_gave() {
    assert!(alias_in(None).is_none());
    assert!(alias_in(Some(CacheValue::Mark)).is_none());
    assert!(alias_in(Some(CacheValue::Entry(ReaddirCacheEntry::Tag(a_tag())))).is_none());
    let mut a = an_alias();
    a.written = 5;
    let got = alias_in(Some(CacheValue::Alias(a))).unwrap();
    assert_eq!((got.written, got.path.as_str(), got.managed_file.as_str()), (5, "/t1/a", "/m/a"));
}

#[test]
fn entry_is_taken_from_what_the_cache_gave() {
    assert!(entry_in(None).is_none());
    assert!(entry_in(Some(CacheValue::Mark)).is_none());
    assert!(entry_in(Some(CacheValue::Alias(an_alias()))).is_none());
    match entry_in(Some(CacheValue::Entry(ReaddirCacheEntry::Tag(a_tag())))) {
        Some(ReaddirCacheEntry::Tag(t)) => assert_eq!((t.id, t.name.as_str()), (3, "t")),
        other => panic!("{:?}", other),
    }
}

#[test]
fn only_a_valid_unlinked_alias_is_ready() {
    assert!(ready_in(None).is_none());
    assert!(ready_in(Some(an_alias())).is_none());
    let mut a = an_alias();
    a.valid = Some(true);
    a.written = 12;
    assert!(ready_in(Some(a)).is_none());
    let mut a = an_alias();
    a.valid = Some(true);
    a.written = 13;
    assert_eq!(ready_in(Some(a)).unwrap().written, 13);
    let mut a = an_alias();
    a.valid = Some(true);
    a.written = 13;
    a.linked = true;
    assert!(ready_in(Some(a)).is_none());
    let mut a = an_alias();
    a.valid = Some(false);
    a.written = 13;
    assert!(ready_in(Some(a)).is_none());
}

#[test]
fn restart_sets_back_only_what_was_written() {
    let mut a = an_alias();
    a.valid = Some(true);
    a.written = 40;
    a.header_ptr = 12;
    a.linked = true;
    a.restart();
    assert_eq!(a.written, 0);
    assert_eq!((a.valid, a.header_ptr, a.linked), (Some(true), 12, true));
    assert_eq!((a.path.as_str(), a.managed_file.as_str(), a.mode, a.uid, a.gid), ("/t1/a", "/m/a", 0o644, 1, 2));
    assert_eq!((a.btime, a.mtime), (7, 7));
}

#[test]
fn update_of_an_alias_needs_one_that_is_stored() {
    let mut c = OpCache::new(Symbols::default());
    assert!(!c.update_alias("/t1/a", an_alias()));
    assert!(c.check_alias_entry("/t1/a").is_none());
    let _ = c.create_alias("/t1/a", 0o644, UMask(0o022), 1, 2, "/m/a", 7);
    let mut a = an_alias();
    a.written = 9;
    a.managed_file = "/m/b".to_string();
    assert!(c.update_alias("/t1/a", a));
    let got = c.check_alias_entry("/t1/a").unwrap();
    assert_eq!((got.written, got.managed_file.as_str()), (9, "/m/b"));
    assert!(!c.update_alias("/t1/other", an_alias()));
}

#[test]
fn permissions_are_read_from_octal_text() {
    let p: Permissions = "755".parse().unwrap();
    assert_eq!(p, Permissions::from(0o755));
    assert_eq!(p.mode(), 0o755);
    let p: Permissions = "+7".parse().unwrap();
    assert_eq!(p.mode(), 0o007);
    let p: Permissions = "17777".parse().unwrap();
    assert_eq!(p.mode(), 0o777);
    assert!("".parse::<Permissions>().is_err());
    assert!("78".parse::<Permissions>().is_err());
    assert!("-7".parse::<Permissions>().is_err());
    assert!("40000000000".parse::<Permissions>().is_err());
    assert_eq!("37777777777".parse::<Permissions>().unwrap().mode(), 0o777);
    assert_eq!(<Permissions as std::str::FromStr>::from_str("640"), Permissions::from_octal("640"));
}

// ---- what a removal returns, options by field, pins as text, resolving

use supertag::num::read_signed;
use supertag::platform::mac::{recursive_resolve_alias, ResolveStep, Resolving};
use supertag::sql::model::PinId;
use supertag::sql::pins::{pin_from_text, pin_to_text, read_step};

#[test]
fn rm_returns_the_id_of_the_last_tag_and_takes_that_link_only() {
    let mut s = Store::new(0);
    s.add_file(1, 10, "/src/z", "z", &names(&["t1", "t2", "t3"]), 1, 1, &UMask(0o022), 1, None)
        .unwrap();
    let t2 = s.get_tag_id("t2").unwrap();
    let ids = supertag::fsops::rm::rm(&Symbols::default(), &mut s, "t1/t3/t2/\u{22C2}/z", 2).unwrap();
    assert_eq!(ids, vec![t2]);
    assert_eq!(s.links.len(), 2);
    assert!(s.links.iter().all(|l| l.tag_id != t2));
    assert_eq!(s.get_tag("t2").unwrap().num_files, 0);
    assert_eq!(s.get_tag("t1").unwrap().num_files, 1);
    assert_eq!(s.get_tag("t3").unwrap().num_files, 1);
    assert_eq!((s.tags.len(), s.files.len()), (3, 1));
    let again = supertag::fsops::rm::rm(&Symbols::default(), &mut s, "t1/t3/t2/\u{22C2}/z", 3).unwrap();
    assert_eq!(again, Vec::<i64>::new());
    let by_id = supertag::fsops::rm::rm(&Symbols::default(), &mut s, "t3/\u{22C2}/z\u{FE6B}1-10", 4).unwrap();
    assert_eq!(by_id, vec![s.get_tag_id("t3").unwrap()]);
    assert_eq!(s.links.len(), 1);
}

#[test]
fn mount_options_by_field() {
    let c = make_mount_config("itest_col");
    assert_eq!(c.fsname.as_deref(), Some("supertag:itest_col"));
    assert_eq!(c.subtype.as_deref(), Some("manifold"));
    assert_eq!((c.direct_io, c.default_permissions, c.allow_other), (Some(true), Some(true), Some(true)));
    assert_eq!((c.allow_root, c.auto_unmount, c.nonempty, c.large_read), (None, None, None, None));
    assert_eq!((c.max_read, c.fsid, c.iosize, c.daemon_timeout), (None, None, None, None));
    assert_eq!((c.volname, c.fstypename), (None, None));
    assert_eq!((c.local, c.noappledouble, c.noapplexattr, c.rdonly), (None, None, None, None));
    let f = make_fuse_config();
    assert_eq!((f.attr_timeout, f.entry_timeout), (Some(0), Some(0)));
    assert_eq!((f.hard_remove, f.kernel_cache), (Some(true), Some(false)));
    assert_eq!((f.use_ino, f.readdir_ino, f.direct_io, f.auto_cache), (None, None, None, None));
    assert_eq!((f.umask, f.uid, f.negative_timeout, f.ac_attr_timeout), (None, None, None, None));
    assert_eq!((f.modules, f.volicon, f.max_write, f.max_readahead), (None, None, None, None));
}

#[test]
fn signed_numbers_are_read_as_std_reads_them() {
    let cases = [
        "0", "-0", "+0", "7", "-7", "+7", "", "-", "+", "--1", "-+1", "+-1", "1x", "x1", " 1",
        "9223372036854775807", "9223372036854775808", "-9223372036854775808",
        "-9223372036854775809", "0012", "-0012",
    ];
    for c in cases {
        let chars: Vec<char> = c.chars().collect();
        assert_eq!(read_signed(&chars), c.parse::<i64>().ok(), "reading {:?}", c);
    }
}

#[test]
fn pins_are_written_and_read_as_text() {
    let pin = vec![PinId::Tag(1), PinId::Group(22), PinId::Tag(i64::MAX), PinId::Group(-3)];
    let text = pin_to_text(&pin);
    assert_eq!(text, "t1/g22/t9223372036854775807/g-3/");
    assert_eq!(pin_from_text(&text), pin);
    assert_eq!(pin_to_text(&[]), "");
    assert_eq!(pin_from_text(""), Vec::<PinId>::new());
    assert_eq!(pin_from_text("t1/t2"), vec![PinId::Tag(1), PinId::Tag(2)]);
    assert_eq!(pin_from_text("/t1//x9/g/t/g5/tt/"), vec![PinId::Tag(1), PinId::Group(5)]);
    assert!(pin_to_text(&pin).starts_with(&pin_to_text(&pin[..2])));
    let chunk: Vec<char> = "g40".chars().collect();
    assert_eq!(read_step(&chunk), Some(PinId::Group(40)));
    assert_eq!(read_step(&[]), None);
    assert_eq!(read_step(&['t']), None);
}

#[test]
fn pins_survive_the_text_of_a_store() {
    let mut s = Store::new(0);
    let t = |n: &str| TagType::Regular(n.into());
    s.pin_tags(&[t("t1"), t("t2"), t("t3")], 1, 1, &perms(), 1).unwrap();
    s.pin_tags(&[t("t1"), TagType::Group("g1".into()), t("t4")], 1, 1, &perms(), 2).unwrap();
    for p in s.pins.iter() {
        assert_eq!(&pin_from_text(&pin_to_text(p)), p);
    }
}

#[test]
fn alias_is_resolved_while_resolving_succeeds() {
    let start = Resolving::new("/m/a");
    assert_eq!((start.resolved.as_str(), start.at_least_once), ("/m/a", false));
    match recursive_resolve_alias::<u8>(Resolving::new("/m/a"), Err(7)) {
        ResolveStep::Done(Err(7)) => {}
        other => panic!("{:?}", other),
    }
    let next = match recursive_resolve_alias::<u8>(Resolving::new("/m/a"), Ok("/m/b".to_string())) {
        ResolveStep::Again(st) => st,
        other => panic!("{:?}", other),
    };
    assert_eq!((next.resolved.as_str(), next.at_least_once), ("/m/b", true));
    let next = match recursive_resolve_alias::<u8>(next, Ok("/src/c".to_string())) {
        ResolveStep::Again(st) => st,
        other => panic!("{:?}", other),
    };
    match recursive_resolve_alias::<u8>(next, Err(9)) {
        ResolveStep::Done(Ok(p)) => assert_eq!(p, "/src/c"),
        other => panic!("{:?}", other),
    }
}
