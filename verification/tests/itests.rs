use supertag::cli::LinkSource;
use supertag::err::{Errno, STagError};
use supertag::fuse::fs::TagFilesystem;
use supertag::fuse::opcache::Request;
use supertag::fuse::util::{S_IFDIR, S_IFLNK};
use supertag::notify::Note;
use supertag::settings::{Config, Mount, Settings, Symbols};
use supertag::sql::Store;
use supertag::types::file_perms::{Permissions, UMask};

const MOUNT: &str = "/mnt/stag/col";
const FILEDIR: &str = "\u{22C2}";
const CANARY: &str = ".unlink_canary";

#[derive(Clone, Copy, PartialEq, Debug)]
enum OpMode {
    Cli,
    Manual,
    Finder,
}

#[derive(Clone, Debug)]
struct LinkedFile {
    name: String,
    target: String,
    device: u64,
    inode: u64,
}

impl LinkedFile {
    fn link_filename(&self, inodify: bool) -> String {
        if inodify {
            Symbols::default().inodify_filename(&self.name, self.device, self.inode)
        } else {
            self.name.clone()
        }
    }

    fn link_filedir_path(&self, tags: &[&str], inodify: bool) -> String {
        format!("{}/{}", filedir_path(tags), self.link_filename(inodify))
    }

    fn new_link_filename(&self, new_name: &str, inodify: bool) -> String {
        if inodify {
            Symbols::default().inodify_filename(new_name, self.device, self.inode)
        } else {
            new_name.to_string()
        }
    }

    fn new_link_path(&self, tags: &[&str], new_name: &str, inodify: bool) -> String {
        format!("{}/{}", filedir_path(tags), self.new_link_filename(new_name, inodify))
    }
}

fn mountpoint_path(tags: &[&str]) -> String {
    let mut p = String::new();
    for t in tags {
        p.push('/');
        p.push_str(t);
    }
    if p.is_empty() {
        p.push('/');
    }
    p
}

fn filedir_path(tags: &[&str]) -> String {
    let mut parts = tags.to_vec();
    parts.push(FILEDIR);
    mountpoint_path(&parts)
}

fn parent_of(path: &str) -> String {
    match path.rfind('/') {
        Some(0) | None => "/".to_string(),
        Some(i) => path[..i].to_string(),
    }
}

fn name_of(path: &str) -> String {
    match path.rfind('/') {
        Some(i) => path[i + 1..].to_string(),
        None => path.to_string(),
    }
}

fn abs(path: &str) -> String {
    if path == "/" {
        MOUNT.to_string()
    } else {
        format!("{}{}", MOUNT, path)
    }
}

struct TestHelper {
    fs: TagFilesystem,
    now: u64,
    next_inode: u64,
    uid: u32,
    gid: u32,
    umask: u32,
    notes: Vec<Note>,
    symlink_mode: OpMode,
    rmdir_mode: OpMode,
    rm_mode: OpMode,
    mkdir_mode: OpMode,
    rename_mode: OpMode,
}

impl TestHelper {
    fn new() -> Self {
        Self::with_mount(1000, 1000, 0o755)
    }

    fn with_mount(uid: u32, gid: u32, perms: u32) -> Self {
        let settings = Settings {
            config: Config {
                symbols: Symbols::default(),
                mount: Mount {
                    base_dir: "/mnt/stag".to_string(),
                    uid,
                    gid,
                    permissions: Permissions::from(perms),
                },
            },
            collection: Some("col".to_string()),
            config_dir: "/home/u/.config/supertag".to_string(),
            data_dir: "/home/u/.local/share/supertag".to_string(),
            data_local_dir: "/home/u/.local/share/supertag".to_string(),
        };
        let fs = TagFilesystem::new(settings, Store::new(1_000_000), false);
        TestHelper {
            fs,
            now: 1_000_000,
            next_inode: 100,
            uid: 1000,
            gid: 1000,
            umask: 0o022,
            notes: Vec::new(),
            symlink_mode: OpMode::Cli,
            rmdir_mode: OpMode::Cli,
            rm_mode: OpMode::Cli,
            mkdir_mode: OpMode::Cli,
            rename_mode: OpMode::Cli,
        }
    }

    fn req(&self) -> Request {
        Request { uid: self.uid, gid: self.gid, pid: 4242, umask: self.umask }
    }

    fn tick(&mut self) -> u64 {
        self.now += 1_000_000;
        self.now
    }

    fn note(&mut self, n: Option<Note>) {
        if let Some(n) = n {
            self.notes.push(n);
        }
    }

    fn getattr(&mut self, path: &str) -> Result<supertag::fuse::util::Stat, Errno> {
        let req = self.req();
        let now = self.now;
        self.fs.getattr(&req, path, now)
    }

    /// What the kernel does before it hands a path to the file system: it
    /// looks up every directory on the way.
    fn walk(&mut self, path: &str) -> bool {
        let parts: Vec<&str> = path.split('/').filter(|p| !p.is_empty()).collect();
        let mut cur = String::new();
        for p in parts.iter() {
            cur.push('/');
            cur.push_str(p);
            if self.getattr(&cur).is_err() {
                return false;
            }
        }
        true
    }

    fn getattr_exists(&mut self, path: &str) -> bool {
        self.walk(path)
    }

    fn ls_path(&mut self, path: &str) -> Result<Vec<String>, Errno> {
        if !self.walk(path) {
            return Err(Errno::ENOENT);
        }
        let req = self.req();
        let mut names = Vec::new();
        for e in self.fs.readdir_common(&req, path) {
            if e.name != "." && e.name != ".." {
                names.push(e.name);
            }
        }
        for e in self.fs.readdir(&req, path)? {
            names.push(e.name);
        }
        names.sort();
        Ok(names)
    }

    fn readdir_exists(&mut self, path: &str) -> bool {
        let needle = name_of(path);
        let parent = parent_of(path);
        match self.ls_path(&parent) {
            Ok(names) => names.iter().any(|n| *n == needle),
            Err(Errno::ENOENT) => false,
            Err(e) => panic!("{:?}", e),
        }
    }

    fn ls(&mut self, parts: &[&str]) -> Result<Vec<String>, Errno> {
        self.ls_path(&mountpoint_path(parts))
    }

    fn ls_filedir(&mut self, parts: &[&str]) -> Result<Vec<String>, Errno> {
        let listing = self.ls_path(&filedir_path(parts))?;
        Ok(listing.into_iter().filter(|e| e != CANARY).collect())
    }

    fn ls_tags(&mut self, tags: &[&str]) -> Result<Vec<String>, Errno> {
        let listing = self.ls(tags)?;
        Ok(listing.into_iter().filter(|e| e != FILEDIR).collect())
    }

    fn size(&mut self, path: &str) -> Option<i64> {
        if !self.walk(&parent_of(path)) {
            return None;
        }
        self.getattr(path).ok().map(|s| s.size)
    }

    fn assert_count(&mut self, parts: &[&str], size: i64) {
        let got = self.size(&mountpoint_path(parts)).unwrap_or(0);
        assert_eq!(got, size, "count of {:?}", parts);
    }

    fn assert_size(&mut self, parts: &[&str], size: i64) {
        let got = self.size(&mountpoint_path(parts)).expect("path does not exist");
        assert_eq!(got, size, "size of {:?}", parts);
    }

    fn assert_path_exists(&mut self, path: &str) {
        assert!(self.getattr_exists(path), "{:?} wasn't found via getattr", path);
        assert!(self.readdir_exists(path), "{:?} wasn't found via readdir", path);
    }

    fn assert_path_not_exists(&mut self, path: &str) {
        assert!(!self.getattr_exists(path), "{:?} was still found via getattr", path);
        assert!(!self.readdir_exists(path), "{:?} was still found via readdir", path);
    }

    fn assert_parts_exists(&mut self, parts: &[&str]) {
        self.assert_path_exists(&mountpoint_path(parts));
    }

    fn assert_parts_not_exists(&mut self, parts: &[&str]) {
        self.assert_path_not_exists(&mountpoint_path(parts));
    }

    fn assert_file_exists(&mut self, tags: &[&str], fname: &str) {
        let p = format!("{}/{}", filedir_path(tags), fname);
        self.assert_path_exists(&p);
    }

    fn probe(&mut self, abs_probe: &str) {
        let rel = abs_probe.strip_prefix(MOUNT).unwrap_or(abs_probe).to_string();
        let _ = self.getattr(&rel);
    }

    fn probe_tags(&mut self, names: Vec<String>) {
        for n in names {
            let p = format!("/{}\u{7f}", n);
            let _ = self.getattr(&p);
        }
    }

    /// The plain form of a path outside the mount, or the target of a link
    /// inside it.
    fn canonicalize(&mut self, path: &str) -> String {
        if let Some(rel) = path.strip_prefix(MOUNT) {
            let rel = if rel.is_empty() { "/".to_string() } else { rel.to_string() };
            if let Ok(st) = self.getattr(&rel) {
                if st.mode & 0o170000 == S_IFLNK {
                    let req = self.req();
                    return self.fs.readlink(&req, &rel).unwrap();
                }
            }
        }
        path.to_string()
    }

    fn new_file(&mut self, name: &str, dir: &str) -> LinkedFile {
        self.next_inode += 1;
        LinkedFile {
            name: name.to_string(),
            target: format!("{}/{}", dir, name),
            device: 7,
            inode: self.next_inode,
        }
    }

    fn temp_file(&mut self) -> LinkedFile {
        let n = self.next_inode + 1;
        self.new_file(&format!("supertag-testfile{}.tmp", n), "/tmp")
    }

    fn stat_source(&self, files: &[LinkedFile], path: &str) -> Option<(u64, u64)> {
        files.iter().find(|f| f.target == path).map(|f| (f.device, f.inode))
    }

    fn ln_cli(&mut self, known: &[LinkedFile], src: &str, dst_abs: &str) -> Result<(), STagError> {
        let abs_src = self.canonicalize(src);
        let id = self.stat_source(known, &abs_src);
        let files = vec![LinkSource { path: abs_src, id }];
        let now = self.tick();
        let um = UMask(self.umask);
        let settings = clone_settings(&self.fs.settings);
        let (res, note) = supertag::ln(
            &settings,
            &mut self.fs.store,
            MOUNT,
            &files,
            dst_abs,
            self.uid,
            self.gid,
            &um,
            now,
        );
        self.note(note);
        let names = res?;
        self.probe_tags(names);
        Ok(())
    }

    fn create_dir_all(&mut self, path: &str) -> Result<(), Errno> {
        let parts: Vec<&str> = path.split('/').filter(|p| !p.is_empty()).collect();
        let mut cur = String::new();
        for p in parts.iter() {
            cur.push('/');
            cur.push_str(p);
            if self.getattr(&cur).is_err() {
                let req = self.req();
                let now = self.tick();
                self.fs.mkdir(&req, &cur, 0o777 & !self.umask, now)?;
                let _ = self.getattr(&cur);
            }
        }
        Ok(())
    }

    fn symlink_manual(
        &mut self,
        known: &[LinkedFile],
        src: &str,
        dst: &str,
    ) -> Result<(), STagError> {
        let abs_src = self.canonicalize(src);
        let id = self.stat_source(known, &abs_src);
        if !self.walk(&parent_of(dst)) {
            return Err(STagError::IOError("no such directory".to_string()));
        }
        let req = self.req();
        if self.getattr(dst).is_ok() {
            let now = self.tick();
            let (r, note) = self.fs.unlink(&req, dst, now);
            self.note(note);
            r.map_err(|e| STagError::IOError(format!("{:?}", e)))?;
        }
        let now = self.tick();
        let (r, note) = self.fs.symlink(&req, &abs_src, id, dst, now);
        self.note(note);
        r.map_err(|e| STagError::IOError(format!("{:?}", e)))?;
        // the kernel looks the new entry up right away
        let _ = self.getattr(dst);
        Ok(())
    }

    /// What happens when the file manager drops an alias of `src` at
    /// `dst`: the file is created, written and released, and the release
    /// links what the alias points to. What the release answers is lost.
    fn create_alias(
        &mut self,
        known: &[LinkedFile],
        src: &str,
        dst: &str,
    ) -> Result<(), STagError> {
        let abs_src = self.canonicalize(src);
        let id = self.stat_source(known, &abs_src);
        if !self.walk(&parent_of(dst)) {
            return Err(STagError::IOError("no such directory".to_string()));
        }
        let req = self.req();
        let managed = format!("/tmp/managed/{}", name_of(dst));
        let now = self.tick();
        let (r, note) = self.fs.create(&req, dst, 0o644, &managed, now);
        self.note(note);
        r.map_err(|e| STagError::IOError(format!("{:?}", e)))?;
        let mut data = b"book\0\0\0\0mark".to_vec();
        data.extend_from_slice(b"the rest of the bookmark");
        let now = self.tick();
        let (r, note) = self.fs.write(&req, dst, &data, 0, now);
        self.note(note);
        r.map_err(|e| STagError::IOError(format!("{:?}", e)))?;
        // the file is flushed and then released within a moment, and the
        // notes of that moment are shown no more often than the limiter
        // lets them
        let mut limiter = supertag::notify::RateLimiter::new(0);
        let pending = self.fs.flush(&req, dst).unwrap();
        self.process_alias(pending, dst, &abs_src, id, &mut limiter, 1000);
        let pending = self.fs.release(&req, dst).unwrap();
        self.process_alias(pending, dst, &abs_src, id, &mut limiter, 1001);
        Ok(())
    }

    fn process_alias(
        &mut self,
        pending: Option<supertag::fuse::opcache::Alias>,
        dst: &str,
        abs_src: &str,
        id: Option<(u64, u64)>,
        limiter: &mut supertag::notify::RateLimiter,
        at_ms: u64,
    ) {
        if let Some(alias) = pending {
            let (target, note) = self.fs.check_alias_target(dst, true);
            if limiter.allow(at_ms) {
                self.note(note);
            }
            if target.is_ok() {
                let (_, alias_file) = self.fs.settings.managed_save_path(&alias.managed_file, "col");
                let now = self.tick();
                let (_, note) = self.fs.link_alias(dst, &alias, abs_src, id, &alias_file, now);
                self.note(note);
            }
        }
    }

    fn ln_with_file(&mut self, file: &LinkedFile, src: &str, tags: &[&str]) -> Result<(), STagError> {
        let known = vec![file.clone()];
        match self.symlink_mode {
            OpMode::Manual | OpMode::Finder => {
                let tag_path = mountpoint_path(tags);
                self.create_dir_all(&tag_path)
                    .map_err(|e| STagError::IOError(format!("{:?}", e)))?;
                let dst = if tags.is_empty() {
                    format!("/{}", file.name)
                } else {
                    format!("{}/{}", tag_path, file.name)
                };
                if self.symlink_mode == OpMode::Manual {
                    self.symlink_manual(&known, src, &dst)
                } else {
                    self.create_alias(&known, src, &dst)
                }
            }
            OpMode::Cli => {
                let tag_path = abs(&mountpoint_path(tags));
                self.ln_cli(&known, src, &tag_path)
            }
        }
    }

    fn ln_with_tempfile(&mut self, file: LinkedFile, tags: &[&str]) -> Result<LinkedFile, STagError> {
        let target = file.target.clone();
        self.ln_with_file(&file, &target, tags)?;
        Ok(file)
    }

    fn ln(&mut self, tags: &[&str]) -> Result<LinkedFile, STagError> {
        let f = self.temp_file();
        self.ln_with_tempfile(f, tags)
    }

    fn rename_fs(&mut self, src: &str, dst: &str) -> Result<(), STagError> {
        let req = self.req();
        let now = self.tick();
        let (r, note) = self.fs.rename(&req, src, dst, now);
        self.note(note);
        r.map_err(|e| STagError::IOError(format!("{:?}", e)))
    }

    fn rmdir(&mut self, tags: &[&str]) -> Result<(), STagError> {
        let path = mountpoint_path(tags);
        match self.rmdir_mode {
            OpMode::Manual | OpMode::Finder => {
                let dst = format!("{}/delete", if parent_of(&path) == "/" {
                    String::new()
                } else {
                    parent_of(&path)
                });
                self.rename_fs(&path, &dst)
            }
            OpMode::Cli => {
                let now = self.tick();
                let settings = clone_settings(&self.fs.settings);
                let probe =
                    supertag::rmdir(&settings, &mut self.fs.store, MOUNT, &abs(&path), now)?;
                self.probe(&probe);
                Ok(())
            }
        }
    }

    fn rm(&mut self, path: &str) -> Result<(), STagError> {
        match self.rm_mode {
            OpMode::Manual | OpMode::Finder => {
                let req = self.req();
                let now = self.tick();
                let (r, note) = self.fs.unlink(&req, path, now);
                self.note(note);
                r.map_err(|e| STagError::IOError(format!("{:?}", e)))
            }
            OpMode::Cli => {
                let now = self.tick();
                let settings = clone_settings(&self.fs.settings);
                let (probe, names) =
                    supertag::rm(&settings, &mut self.fs.store, &abs(path), MOUNT, now)?;
                self.probe(&probe);
                self.probe_tags(names);
                Ok(())
            }
        }
    }

    fn mkdir(&mut self, tag: &str) -> Result<String, STagError> {
        let tag_path = mountpoint_path(&[tag]);
        match self.mkdir_mode {
            OpMode::Manual => {
                self.create_dir_all(&tag_path)
                    .map_err(|e| STagError::IOError(format!("{:?}", e)))?;
            }
            OpMode::Finder => {
                if self.getattr(&tag_path).is_ok() {
                    return Err(STagError::IOError("exists".to_string()));
                }
                let req = self.req();
                let now = self.tick();
                self.fs
                    .mkdir(&req, &tag_path, 0o777 & !self.umask, now)
                    .map_err(|e| STagError::IOError(format!("{:?}", e)))?;
                let _ = self.getattr(&tag_path);
            }
            OpMode::Cli => {
                let now = self.tick();
                let perms = UMask(self.umask).dir_perms();
                supertag::fsops::mkdir(
                    &self.fs.settings.config.symbols,
                    &mut self.fs.store,
                    &tag_path,
                    self.uid,
                    self.gid,
                    &perms,
                    now,
                )?;
            }
        }
        Ok(tag_path)
    }

    fn mv(&mut self, src: &str, dst: &str) -> Result<(), STagError> {
        match self.rename_mode {
            OpMode::Finder => self.rename_fs(src, dst),
            OpMode::Manual => {
                let is_dir = match self.getattr(dst) {
                    Ok(st) => self.walk(&parent_of(dst)) && st.mode & 0o170000 == S_IFDIR,
                    Err(_) => false,
                };
                let target = if is_dir {
                    format!("{}/{}", dst, name_of(src))
                } else {
                    dst.to_string()
                };
                self.rename_fs(src, &target)
            }
            OpMode::Cli => {
                let now = self.tick();
                let um = UMask(self.umask);
                let settings = clone_settings(&self.fs.settings);
                let (res, note) = supertag::rename(
                    &settings,
                    &mut self.fs.store,
                    MOUNT,
                    &abs(src),
                    &abs(dst),
                    self.uid,
                    self.gid,
                    &um,
                    now,
                );
                self.note(note);
                for p in res? {
                    self.probe(&p);
                }
                Ok(())
            }
        }
    }

    fn check_only_files(&mut self, tags: &[&str], files: &[&str]) -> bool {
        match self.ls_filedir(tags) {
            Ok(mut existing) => {
                existing.sort();
                let mut want: Vec<String> = files.iter().map(|s| s.to_string()).collect();
                want.sort();
                existing == want
            }
            Err(_) => false,
        }
    }
}

fn clone_settings(s: &Settings) -> Settings {
    Settings {
        config: Config {
            symbols: s.config.symbols.clone(),
            mount: Mount {
                base_dir: s.config.mount.base_dir.clone(),
                uid: s.config.mount.uid,
                gid: s.config.mount.gid,
                permissions: s.config.mount.permissions,
            },
        },
        collection: s.collection.clone(),
        config_dir: s.config_dir.clone(),
        data_dir: s.data_dir.clone(),
        data_local_dir: s.data_local_dir.clone(),
    }
}

/// Waits until the caches have let their entries go.
fn pause(ms: u64) {
    let start = std::time::Instant::now();
    while start.elapsed() < std::time::Duration::from_millis(ms) {
        std::hint::spin_loop();
    }
}

type TestResult = Result<(), STagError>;

// ---- basic

fn run_basic_tagging(mut th: TestHelper) -> TestResult {
    let linked = th.ln(&["t1"])?;
    th.assert_parts_exists(&["t1"]);
    th.assert_path_exists(&linked.link_filedir_path(&["t1"], false));
    th.assert_count(&["t1"], 1);
    assert!(th.notes.is_empty());
    Ok(())
}

#[test]
fn test_basic_tagging_cli() -> TestResult {
    run_basic_tagging(TestHelper::new())
}

#[test]
fn test_basic_tagging_manual() -> TestResult {
    let mut th = TestHelper::new();
    th.symlink_mode = OpMode::Manual;
    run_basic_tagging(th)
}

fn run_duplicate_names(mut th: TestHelper) -> TestResult {
    let to_link1 = th.new_file("collision", "/tmp/td1");
    let to_link2 = th.new_file("collision", "/tmp/td2");
    let linked1 = th.ln_with_tempfile(to_link1, &["t1"])?;
    th.assert_path_exists(&linked1.link_filedir_path(&["t1"], false));
    assert!(th.getattr_exists(&linked1.link_filedir_path(&["t1"], true)));
    assert!(!th.readdir_exists(&linked1.link_filedir_path(&["t1"], true)));
    pause(1100);
    let linked2 = th.ln_with_tempfile(to_link2, &["t1"])?;
    th.assert_path_exists(&linked1.link_filedir_path(&["t1"], true));
    th.assert_path_exists(&linked2.link_filedir_path(&["t1"], true));
    th.assert_path_not_exists(&linked1.link_filedir_path(&["t1"], false));
    th.assert_path_not_exists(&linked2.link_filedir_path(&["t1"], false));
    Ok(())
}

#[test]
fn test_duplicate_names_cli() -> TestResult {
    run_duplicate_names(TestHelper::new())
}

#[test]
fn test_duplicate_names_manual() -> TestResult {
    let mut th = TestHelper::new();
    th.symlink_mode = OpMode::Manual;
    run_duplicate_names(th)
}

#[test]
fn test_disable_recursive_symlinks_cli() -> TestResult {
    let mut th = TestHelper::new();
    let _l1 = th.ln(&["a1"])?;
    let _l2 = th.ln(&["a2"])?;
    let src = abs(&mountpoint_path(&["a2"]));
    let dst = abs(&mountpoint_path(&["a1", "a2"]));
    match th.ln_cli(&[], &src, &dst) {
        Err(STagError::RecursiveLink(p)) if p == src => Ok(()),
        Err(e) => panic!("Had wrong error {}", e.message()),
        Ok(()) => panic!("Should have had error"),
    }
}

#[test]
fn test_disable_recursive_symlinks_manual() -> TestResult {
    let mut th = TestHelper::new();
    let _l1 = th.ln(&["a1"])?;
    let _l2 = th.ln(&["a2"])?;
    let src = abs(&mountpoint_path(&["a2"]));
    let req = th.req();
    let now = th.tick();
    let (r, _note) = th.fs.symlink(&req, &src, None, &mountpoint_path(&["a1", "a2"]), now);
    assert_eq!(r, Err(Errno::EIO));
    Ok(())
}

fn run_tag_intersection(mut th: TestHelper) -> TestResult {
    let linked = th.ln(&["t1", "t2"])?;
    th.assert_parts_exists(&["t1"]);
    th.assert_parts_exists(&["t2"]);
    th.assert_parts_exists(&["t1", "t2"]);
    th.assert_parts_exists(&["t2", "t1"]);
    th.assert_path_exists(&linked.link_filedir_path(&["t1"], false));
    th.assert_path_exists(&linked.link_filedir_path(&["t2"], false));
    th.assert_path_exists(&linked.link_filedir_path(&["t1", "t2"], false));
    th.assert_path_exists(&linked.link_filedir_path(&["t2", "t1"], false));
    th.assert_count(&["t1"], 1);
    th.assert_count(&["t2"], 1);
    th.assert_count(&["t1", "t2"], 1);
    Ok(())
}

#[test]
fn test_tag_intersection_cli() -> TestResult {
    run_tag_intersection(TestHelper::new())
}

#[test]
fn test_tag_intersection_manual() -> TestResult {
    let mut th = TestHelper::new();
    th.symlink_mode = OpMode::Manual;
    run_tag_intersection(th)
}

#[test]
fn test_funky_name() -> TestResult {
    let mut th = TestHelper::new();
    let f = th.new_file("[!supertag-testfileabcdefgh.tmp", "/tmp");
    let linked = th.ln_with_tempfile(f, &["t1"])?;
    th.assert_parts_exists(&["t1"]);
    th.assert_path_exists(&linked.link_filedir_path(&["t1"], false));
    Ok(())
}

#[test]
fn test_tag_difference() -> TestResult {
    let mut th = TestHelper::new();
    let linked1 = th.ln(&["t1"])?;
    let linked2 = th.ln(&["t2"])?;
    let linked3 = th.ln(&["t1", "t2"])?;
    let linked4 = th.ln(&["t1", "t3"])?;

    th.assert_parts_exists(&["t1", "t2"]);
    th.assert_parts_exists(&["t1", "t3"]);
    th.assert_parts_exists(&["t2", "t1"]);
    th.assert_parts_exists(&["t3", "t1"]);
    th.assert_parts_not_exists(&["t2", "t3"]);
    th.assert_parts_not_exists(&["t3", "t2"]);

    th.assert_path_exists(&linked1.link_filedir_path(&["t1"], false));
    th.assert_path_not_exists(&linked1.link_filedir_path(&["t2"], false));

    th.assert_path_exists(&linked2.link_filedir_path(&["t2"], false));
    th.assert_path_not_exists(&linked2.link_filedir_path(&["t1"], false));

    th.assert_path_exists(&linked3.link_filedir_path(&["t2"], false));
    th.assert_path_exists(&linked3.link_filedir_path(&["t1"], false));
    th.assert_path_exists(&linked3.link_filedir_path(&["t1", "t2"], false));
    th.assert_path_exists(&linked3.link_filedir_path(&["t2", "t1"], false));
    th.assert_path_not_exists(&linked3.link_filedir_path(&["t3"], false));
    th.assert_path_not_exists(&linked3.link_filedir_path(&["t1", "t3"], false));

    th.assert_path_exists(&linked4.link_filedir_path(&["t1"], false));
    th.assert_path_exists(&linked4.link_filedir_path(&["t3"], false));
    th.assert_path_exists(&linked4.link_filedir_path(&["t1", "t3"], false));
    th.assert_path_exists(&linked4.link_filedir_path(&["t3", "t1"], false));
    th.assert_path_not_exists(&linked4.link_filedir_path(&["t2"], false));
    th.assert_path_not_exists(&linked4.link_filedir_path(&["t1", "t2"], false));

    th.assert_count(&["t1"], 3);
    th.assert_count(&["t2"], 2);
    th.assert_count(&["t3"], 1);
    th.assert_count(&["t1", "t2"], 1);
    th.assert_count(&["t1", "t3"], 1);
    Ok(())
}

#[test]
fn test_filedir() -> TestResult {
    let mut th = TestHelper::new();
    let _linked = th.ln(&["t1", "t2"])?;
    th.assert_path_exists(&filedir_path(&["t1"]));
    th.assert_path_exists(&filedir_path(&["t1", "t2"]));
    Ok(())
}

#[test]
fn test_mkdir_tag() -> TestResult {
    let mut th = TestHelper::new();
    th.create_dir_all("/t1").unwrap();
    th.assert_parts_exists(&["t1"]);
    Ok(())
}

fn run_same_file(mut th: TestHelper) -> TestResult {
    let temp = th.temp_file();
    let l1 = th.ln_with_tempfile(temp.clone(), &["t1"])?;
    pause(1100);
    let l2 = th.ln_with_tempfile(temp, &["t1"])?;
    th.assert_path_exists(&l1.link_filedir_path(&["t1"], false));
    th.assert_path_exists(&l2.link_filedir_path(&["t1"], false));
    Ok(())
}

#[test]
fn test_same_file_cli() -> TestResult {
    run_same_file(TestHelper::new())
}

#[test]
fn test_same_file_manual() -> TestResult {
    let mut th = TestHelper::new();
    th.symlink_mode = OpMode::Manual;
    run_same_file(th)
}

#[test]
fn test_no_filedir() -> TestResult {
    let mut th = TestHelper::new();
    th.mkdir("t1")?;
    let num1 = th.ls(&["t1"]).unwrap().len();
    assert_eq!(num1, 0);
    th.ln(&["t1"])?;
    let num2 = th.ls(&["t1"]).unwrap().len();
    assert_eq!(num2, 1);
    Ok(())
}

fn run_recursive_link(mut th: TestHelper) -> TestResult {
    let l1 = th.ln(&["t1"])?;
    let inside = abs(&l1.link_filedir_path(&["t1"], false));
    th.ln_with_file(&l1, &inside, &["t2"])?;
    let l2_path = format!("{}/{}", filedir_path(&["t2"]), l1.name);
    let recursive = th.canonicalize(&abs(&l2_path));
    assert_eq!(l1.target, recursive);
    Ok(())
}

#[test]
fn test_recursive_link_cli() -> TestResult {
    run_recursive_link(TestHelper::new())
}

#[test]
fn test_recursive_link_manual() -> TestResult {
    let mut th = TestHelper::new();
    th.symlink_mode = OpMode::Manual;
    run_recursive_link(th)
}

#[test]
fn test_ln_to_filedir_manual() -> TestResult {
    let mut th = TestHelper::new();
    th.mkdir("t1")?;
    let src = th.temp_file();
    let dst = format!("{}/{}", filedir_path(&["t1"]), src.name);
    th.symlink_manual(&[src.clone()], &src.target, &dst)?;
    th.assert_path_exists(&dst);
    Ok(())
}

#[test]
fn test_ln_to_filedir_cli() -> TestResult {
    let mut th = TestHelper::new();
    th.mkdir("t1")?;
    let src = th.temp_file();
    let dst = format!("{}/{}", filedir_path(&["t1"]), src.name);
    th.ln_cli(&[src.clone()], &src.target, &abs(&dst))?;
    th.assert_path_exists(&dst);
    Ok(())
}

#[test]
fn test_cli_filedir() -> TestResult {
    let mut th = TestHelper::new();
    let _l1 = th.ln(&["t1", "t2", "t3"])?;
    let files1 = th.ls(&["t1", "_"]).unwrap();
    let files2 = th.ls(&["t1", FILEDIR]).unwrap();
    assert_eq!(files1, files2);
    Ok(())
}

// ---- pins

#[test]
fn test_pin_tagdir() -> TestResult {
    let mut th = TestHelper::new();
    th.create_dir_all("/t1").unwrap();
    th.assert_parts_exists(&["t1"]);
    let req = th.req();
    let now = th.tick();
    th.fs.mkdir(&req, "/t1/t2", 0o755, now).unwrap();
    th.assert_parts_exists(&["t2"]);
    th.assert_parts_exists(&["t1", "t2"]);
    th.assert_parts_not_exists(&["t2", "t1"]);
    Ok(())
}

#[test]
fn test_pin_no_double_tagdir() -> TestResult {
    let mut th = TestHelper::new();
    th.create_dir_all("/t1").unwrap();
    th.assert_parts_exists(&["t1"]);
    let req = th.req();
    let now = th.tick();
    th.fs.mkdir(&req, "/t1/t2", 0o755, now).unwrap();
    th.ln(&["t1", "t2"])?;
    let names = th.ls(&["t1"]).unwrap();
    let mut seen = std::collections::HashSet::new();
    for n in names {
        if seen.contains(&n) {
            panic!("Double entry");
        }
        seen.insert(n);
    }
    Ok(())
}

// ---- remove

fn run_remove_symlink_single_tag(mut th: TestHelper) -> TestResult {
    let linked = th.ln(&["t1"])?;
    th.assert_count(&["t1"], 1);
    let supertag_path = linked.link_filedir_path(&["t1"], false);
    th.assert_path_exists(&supertag_path);
    th.rm(&supertag_path)?;
    th.assert_path_not_exists(&supertag_path);
    th.assert_count(&["t1"], 0);
    Ok(())
}

#[test]
fn test_remove_symlink_single_tag_cli() -> TestResult {
    run_remove_symlink_single_tag(TestHelper::new())
}

#[test]
fn test_remove_symlink_single_tag_manual() -> TestResult {
    let mut th = TestHelper::new();
    th.rm_mode = OpMode::Manual;
    run_remove_symlink_single_tag(th)
}

fn run_remove_symlink_multitag(mut th: TestHelper) -> TestResult {
    let linked = th.ln(&["t1", "t2"])?;
    let t1_path = linked.link_filedir_path(&["t1"], false);
    let t2_path = linked.link_filedir_path(&["t2"], false);
    th.assert_count(&["t1"], 1);
    th.assert_count(&["t2"], 1);
    th.assert_count(&["t1", "t2"], 1);
    th.assert_path_exists(&t1_path);
    th.assert_path_exists(&t2_path);
    th.rm(&t1_path)?;
    th.assert_path_not_exists(&t1_path);
    th.assert_path_exists(&t2_path);
    th.assert_count(&["t1"], 0);
    th.assert_count(&["t2"], 1);
    Ok(())
}

#[test]
fn test_remove_symlink_multitag_cli() -> TestResult {
    run_remove_symlink_multitag(TestHelper::new())
}

#[test]
fn test_remove_symlink_multitag_manual() -> TestResult {
    let mut th = TestHelper::new();
    th.rm_mode = OpMode::Manual;
    run_remove_symlink_multitag(th)
}

fn run_rm_tagdir(mut th: TestHelper) -> TestResult {
    let linked1 = th.ln(&["t1", "t2", "t3", "t4"])?;
    let _linked2 = th.ln(&["t1", "t2", "t3", "t4"])?;
    th.assert_count(&["t1", "t2", "t4"], 2);
    th.rmdir(&["t1", "t2", "t4"])?;
    assert!(th.getattr("/t1").is_ok());
    th.assert_parts_exists(&["t1"]);
    th.assert_parts_exists(&["t1", "t2", "t3"]);
    th.assert_path_exists(&linked1.link_filedir_path(&["t1", "t2", "t3"], false));
    th.assert_path_exists(&linked1.link_filedir_path(&["t1"], false));
    th.assert_parts_not_exists(&["t1", "t4"]);
    th.assert_parts_not_exists(&["t4", "t1", "t4"]);
    th.assert_path_not_exists(&linked1.link_filedir_path(&["t2", "t3", "t4"], false));
    th.assert_count(&["t1", "t2", "t3"], 2);
    th.assert_count(&["t3", "t4"], 0);
    th.assert_count(&["t4"], 0);
    th.assert_count(&["t1", "t2", "t4"], 0);
    Ok(())
}

#[test]
fn test_rm_tagdir_cli() -> TestResult {
    run_rm_tagdir(TestHelper::new())
}

#[test]
fn test_rm_tagdir_manual() -> TestResult {
    let mut th = TestHelper::new();
    th.rmdir_mode = OpMode::Manual;
    run_rm_tagdir(th)
}

fn run_top_level_rm_tagdir(mut th: TestHelper) -> TestResult {
    let _linked1 = th.ln(&["t1", "t2", "t3", "t4"])?;
    th.assert_parts_exists(&["t1"]);
    th.rmdir(&["t1"])?;
    th.assert_parts_not_exists(&["t1"]);
    Ok(())
}

#[test]
fn test_top_level_rm_tagdir_cli() -> TestResult {
    run_top_level_rm_tagdir(TestHelper::new())
}

#[test]
fn test_top_level_rm_tagdir_manual() -> TestResult {
    let mut th = TestHelper::new();
    th.rmdir_mode = OpMode::Manual;
    run_top_level_rm_tagdir(th)
}

fn run_delete_tag_cascade(mut th: TestHelper) -> TestResult {
    let l1 = th.ln(&["t1"])?;
    th.rmdir(&["t1"])?;
    let _l2 = th.ln(&["t1"])?;
    th.assert_path_not_exists(&l1.link_filedir_path(&["t1"], false));
    Ok(())
}

#[test]
fn test_delete_tag_cascade_cli() -> TestResult {
    run_delete_tag_cascade(TestHelper::new())
}

#[test]
fn test_delete_tag_cascade_manual() -> TestResult {
    let mut th = TestHelper::new();
    th.rmdir_mode = OpMode::Manual;
    run_delete_tag_cascade(th)
}

fn run_remove_collision(mut th: TestHelper) -> TestResult {
    let to_link1 = th.new_file("collision", "/tmp/td1");
    let to_link2 = th.new_file("collision", "/tmp/td2");
    let linked1 = th.ln_with_tempfile(to_link1, &["t1"])?;
    let linked2 = th.ln_with_tempfile(to_link2, &["t1"])?;
    th.assert_path_exists(&linked1.link_filedir_path(&["t1"], true));
    th.assert_path_exists(&linked2.link_filedir_path(&["t1"], true));
    th.rm(&linked1.link_filedir_path(&["t1"], true))?;
    th.assert_path_not_exists(&linked1.link_filedir_path(&["t1"], true));
    th.assert_path_exists(&linked2.link_filedir_path(&["t1"], false));
    assert!(th.getattr_exists(&linked2.link_filedir_path(&["t1"], true)));
    assert!(!th.readdir_exists(&linked2.link_filedir_path(&["t1"], true)));
    Ok(())
}

#[test]
fn test_remove_collision_cli() -> TestResult {
    run_remove_collision(TestHelper::new())
}

#[test]
fn test_remove_collision_manual() -> TestResult {
    let mut th = TestHelper::new();
    th.rm_mode = OpMode::Manual;
    run_remove_collision(th)
}

fn run_remove_and_relink_file(mut th: TestHelper) -> TestResult {
    let l1 = th.ln(&["t1"])?;
    th.assert_path_exists(&l1.link_filedir_path(&["t1"], false));
    th.rm(&l1.link_filedir_path(&["t1"], false))?;
    th.assert_path_not_exists(&l1.link_filedir_path(&["t1"], false));
    let target = l1.target.clone();
    th.ln_with_file(&l1, &target, &["t1"])?;
    th.assert_path_exists(&l1.link_filedir_path(&["t1"], false));
    Ok(())
}

#[test]
fn test_remove_and_relink_file_cli() -> TestResult {
    run_remove_and_relink_file(TestHelper::new())
}

#[test]
fn test_remove_and_relink_file_manual() -> TestResult {
    let mut th = TestHelper::new();
    th.rm_mode = OpMode::Manual;
    th.symlink_mode = OpMode::Manual;
    run_remove_and_relink_file(th)
}

fn run_remove_and_relink_tag(mut th: TestHelper) -> TestResult {
    let _l1 = th.ln(&["t1"])?;
    th.rmdir(&["t1"])?;
    th.assert_parts_not_exists(&["t1"]);
    let _l2 = th.ln(&["t1"])?;
    th.assert_parts_exists(&["t1"]);
    th.rmdir(&["t1"])?;
    th.assert_parts_not_exists(&["t1"]);
    th.mkdir("t1")?;
    th.assert_parts_exists(&["t1"]);
    Ok(())
}

#[test]
fn test_remove_and_relink_tag_cli() -> TestResult {
    run_remove_and_relink_tag(TestHelper::new())
}

#[test]
fn test_remove_and_relink_tag_manual() -> TestResult {
    let mut th = TestHelper::new();
    th.rmdir_mode = OpMode::Manual;
    th.mkdir_mode = OpMode::Manual;
    run_remove_and_relink_tag(th)
}

fn run_unlinked_stays_unlinked(mut th: TestHelper) -> TestResult {
    let l1 = th.ln(&["t1"])?;
    th.assert_path_exists(&l1.link_filedir_path(&["t1"], false));
    th.rmdir(&["t1"])?;
    th.assert_path_not_exists(&l1.link_filedir_path(&["t1"], false));
    th.assert_parts_not_exists(&["t1"]);
    let target = l1.target.clone();
    th.ln_with_file(&l1, &target, &["t2"])?;
    th.assert_path_exists(&l1.link_filedir_path(&["t2"], false));
    th.assert_parts_not_exists(&["t2", "t1"]);
    Ok(())
}

#[test]
fn test_unlinked_stays_unlinked_cli() -> TestResult {
    run_unlinked_stays_unlinked(TestHelper::new())
}

#[test]
fn test_unlinked_stays_unlinked_manual() -> TestResult {
    let mut th = TestHelper::new();
    th.rmdir_mode = OpMode::Manual;
    run_unlinked_stays_unlinked(th)
}

fn run_remove_tag_immediately(mut th: TestHelper) -> TestResult {
    let _l1 = th.ln(&["t1"])?;
    th.rmdir(&["t1"])?;
    th.assert_parts_not_exists(&["t1"]);
    Ok(())
}

#[test]
fn test_remove_tag_immediately_cli() -> TestResult {
    run_remove_tag_immediately(TestHelper::new())
}

#[test]
fn test_remove_tag_immediately_manual() -> TestResult {
    let mut th = TestHelper::new();
    th.rmdir_mode = OpMode::Manual;
    run_remove_tag_immediately(th)
}

fn run_only_remove_leaf_symlink(mut th: TestHelper) -> TestResult {
    let l1 = th.ln(&["t1", "t2", "t3"])?;
    th.assert_path_exists(&l1.link_filedir_path(&["t1", "t3", "t2"], false));
    th.rm(&l1.link_filedir_path(&["t1", "t3", "t2"], false))?;
    th.assert_path_not_exists(&l1.link_filedir_path(&["t1", "t3", "t2"], false));
    th.assert_path_exists(&l1.link_filedir_path(&["t1", "t3"], false));
    th.assert_path_exists(&l1.link_filedir_path(&["t3", "t1"], false));
    th.assert_path_exists(&l1.link_filedir_path(&["t1"], false));
    th.assert_path_exists(&l1.link_filedir_path(&["t3"], false));
    Ok(())
}

#[test]
fn test_only_remove_leaf_symlink_cli() -> TestResult {
    run_only_remove_leaf_symlink(TestHelper::new())
}

#[test]
fn test_only_remove_leaf_symlink_manual() -> TestResult {
    let mut th = TestHelper::new();
    th.rm_mode = OpMode::Manual;
    run_only_remove_leaf_symlink(th)
}

// ---- move and merge

fn run_nested_tag_merge(mut th: TestHelper) -> TestResult {
    let l1 = th.ln(&["t1", "t2"])?;
    let _l2 = th.ln(&["t3", "t4"])?;
    let l3 = th.ln(&["t2"])?;
    th.mv(&mountpoint_path(&["t2", "t1"]), &mountpoint_path(&["t3", "t4"]))?;
    th.assert_path_not_exists(&l1.link_filedir_path(&["t1"], false));
    th.assert_path_exists(&l1.link_filedir_path(&["t3"], false));
    th.assert_path_exists(&l1.link_filedir_path(&["t3", "t4"], false));
    th.assert_path_exists(&l1.link_filedir_path(&["t4"], false));
    th.assert_path_exists(&l3.link_filedir_path(&["t2"], false));
    th.assert_path_not_exists(&l3.link_filedir_path(&["t3", "t4"], false));
    th.assert_parts_exists(&["t1"]);
    th.assert_parts_exists(&["t2"]);
    Ok(())
}

#[test]
fn test_nested_tag_merge_cli() -> TestResult {
    run_nested_tag_merge(TestHelper::new())
}

#[test]
fn test_nested_tag_merge_manual() -> TestResult {
    let mut th = TestHelper::new();
    th.rename_mode = OpMode::Manual;
    run_nested_tag_merge(th)
}

fn run_move_tag_merge(mut th: TestHelper) -> TestResult {
    let l1 = th.ln(&["t1"])?;
    let _l2 = th.ln(&["t2"])?;
    let l3 = th.ln(&["t1", "t2", "t3"])?;
    th.mv(&mountpoint_path(&["t1"]), &mountpoint_path(&["t2"]))?;
    th.assert_parts_exists(&["t2"]);
    th.assert_path_exists(&l1.link_filedir_path(&["t2"], false));
    th.assert_parts_exists(&["t1"]);
    th.assert_path_not_exists(&l1.link_filedir_path(&["t1"], false));
    th.assert_path_exists(&l3.link_filedir_path(&["t3", "t2"], false));
    th.assert_parts_not_exists(&["t1", "t2"]);
    th.assert_parts_not_exists(&["t2", "t1"]);
    Ok(())
}

#[test]
fn test_move_tag_merge_cli() -> TestResult {
    run_move_tag_merge(TestHelper::new())
}

#[test]
fn test_move_tag_merge_manual() -> TestResult {
    let mut th = TestHelper::new();
    th.rename_mode = OpMode::Manual;
    run_move_tag_merge(th)
}

fn run_move_file_misname_exists(mut th: TestHelper) -> TestResult {
    let l1 = th.ln(&["t1"])?;
    let new_dst_filename = l1.new_link_filename("fudge", false);
    let new_dst_path = format!("{}/{}", filedir_path(&["t1"]), new_dst_filename);
    th.mv(&l1.link_filedir_path(&["t1"], false), &new_dst_path)?;
    th.assert_path_exists(&new_dst_path);
    Ok(())
}

#[test]
fn test_move_file_misname_cli() -> TestResult {
    run_move_file_misname_exists(TestHelper::new())
}

#[test]
fn test_move_file_misname_manual() -> TestResult {
    let mut th = TestHelper::new();
    th.rename_mode = OpMode::Manual;
    run_move_file_misname_exists(th)
}

#[test]
fn test_move_file_already_exists_cli() -> TestResult {
    run_move_file_misname_exists(TestHelper::new())
}

#[test]
fn test_move_file_already_exists_manual() -> TestResult {
    let mut th = TestHelper::new();
    th.rename_mode = OpMode::Manual;
    run_move_file_misname_exists(th)
}

fn run_move_merge_nested_same_name(mut th: TestHelper) -> TestResult {
    let l1 = th.ln(&["t1"])?;
    let _l2 = th.ln(&["t2"])?;
    th.mv(&mountpoint_path(&["t1"]), &mountpoint_path(&["t2", "t1"]))?;
    th.assert_path_not_exists(&l1.link_filedir_path(&["t1"], false));
    Ok(())
}

#[test]
fn test_move_merge_nested_same_name_cli() -> TestResult {
    run_move_merge_nested_same_name(TestHelper::new())
}

#[test]
fn test_move_merge_nested_same_name_manual() -> TestResult {
    let mut th = TestHelper::new();
    th.rename_mode = OpMode::Manual;
    run_move_merge_nested_same_name(th)
}

fn run_rename_file(mut th: TestHelper) -> TestResult {
    let linked = th.ln(&["t1", "t2"])?;
    let new_filename = "some_new_name";
    let dst = format!("{}/{}", filedir_path(&["t1"]), new_filename);
    th.mv(&linked.link_filedir_path(&["t1"], false), &dst)?;
    let new_dst_filename = linked.new_link_filename(new_filename, false);
    let new_dst_path = format!("{}/{}", filedir_path(&["t1"]), new_dst_filename);
    th.assert_path_exists(&new_dst_path);
    th.assert_path_not_exists(&linked.link_filedir_path(&["t1"], false));
    Ok(())
}

#[test]
fn test_rename_file_cli() -> TestResult {
    run_rename_file(TestHelper::new())
}

#[test]
fn test_rename_file_manual() -> TestResult {
    let mut th = TestHelper::new();
    th.rename_mode = OpMode::Manual;
    run_rename_file(th)
}

fn run_rename_collision(mut th: TestHelper) -> TestResult {
    let l1 = th.ln(&["t1"])?;
    let l2 = th.ln(&["t1"])?;
    let collision_name = l2.name.clone();
    let new_dst_path = l1.new_link_path(&["t1"], &collision_name, false);
    th.mv(&l1.link_filedir_path(&["t1"], false), &new_dst_path)?;
    th.assert_path_not_exists(&l2.link_filedir_path(&["t1"], false));
    th.assert_path_exists(&l2.link_filedir_path(&["t1"], true));
    th.assert_path_not_exists(&new_dst_path);
    th.assert_path_exists(&l1.new_link_path(&["t1"], &collision_name, true));
    Ok(())
}

#[test]
fn test_rename_collision_cli() -> TestResult {
    run_rename_collision(TestHelper::new())
}

fn run_rename_tag(mut th: TestHelper) -> TestResult {
    let _linked = th.ln(&["t1"])?;
    th.mv(&mountpoint_path(&["t1"]), &mountpoint_path(&["new_t1"]))?;
    th.assert_parts_not_exists(&["t1"]);
    th.assert_parts_exists(&["new_t1"]);
    Ok(())
}

#[test]
fn test_rename_tag_cli() -> TestResult {
    run_rename_tag(TestHelper::new())
}

#[test]
fn test_rename_tag_manual() -> TestResult {
    let mut th = TestHelper::new();
    th.rename_mode = OpMode::Manual;
    run_rename_tag(th)
}

#[test]
fn test_rename_tag_invalid_name() -> TestResult {
    let mut th = TestHelper::new();
    let _linked = th.ln(&["t1"])?;
    let src = mountpoint_path(&["t1"]);
    let dst = mountpoint_path(&[FILEDIR]);
    match th.mv(&src, &dst) {
        Err(STagError::BadTag(_tag)) => (),
        Ok(_) => panic!("Should have raised"),
        Err(e) => return Err(e),
    }
    th.assert_parts_exists(&["t1"]);
    Ok(())
}

// ---- negation

#[test]
fn test_not_tag() -> TestResult {
    let mut th = TestHelper::new();
    let l1 = th.ln(&["t1", "t2", "t3"])?;
    let l2 = th.ln(&["t1", "t3"])?;
    th.assert_path_exists(&filedir_path(&["t1", "-t2"]));
    th.assert_path_exists(&filedir_path(&["t1", "-t2", "t3"]));
    th.assert_path_not_exists(&l1.link_filedir_path(&["t1", "-t2", "t3"], false));
    th.assert_path_exists(&l2.link_filedir_path(&["t1", "-t2", "t3"], false));
    Ok(())
}

#[test]
fn test_not_tagdir() -> TestResult {
    let mut th = TestHelper::new();
    let _l1 = th.ln(&["t1", "t2", "t3"])?;
    let _l2 = th.ln(&["t1", "t3"])?;
    let _l3 = th.ln(&["t1", "t2", "t4"])?;
    th.assert_path_exists(&filedir_path(&["t1", "-t2"]));
    th.assert_path_exists(&filedir_path(&["t1", "-t2", "t3"]));
    th.assert_parts_exists(&["t1", "-t2", "t3"]);
    th.assert_parts_not_exists(&["t1", "-t2", "t4"]);
    Ok(())
}

fn run_disallow_not_tag_name(mut th: TestHelper) -> TestResult {
    th.ln(&["-t1"])?;
    th.assert_parts_not_exists(&["t1"]);
    th.assert_parts_not_exists(&["-t1"]);
    th.assert_parts_not_exists(&["--t1"]);
    Ok(())
}

#[test]
fn test_disallow_not_tag_name_cli() -> TestResult {
    run_disallow_not_tag_name(TestHelper::new())
}

#[test]
fn test_disallow_not_tag_name_manual() -> TestResult {
    let mut th = TestHelper::new();
    th.mkdir_mode = OpMode::Manual;
    run_disallow_not_tag_name(th)
}

// ---- notes

#[test]
fn test_bad_copy() -> TestResult {
    let mut th = TestHelper::new();
    th.mkdir("t1")?;
    let req = th.req();
    let now = th.tick();
    let (res, note) = th.fs.create(&req, "/t1/copied.txt", 0o644, "/managed/x", now);
    assert_eq!(res.err(), Some(Errno::ENOSYS));
    assert_eq!(note, Some(Note::BadCopy));
    Ok(())
}

fn run_dragged_to_root(mut th: TestHelper) -> TestResult {
    match th.ln(&[]) {
        Err(STagError::IOError(_)) if th.symlink_mode == OpMode::Manual => {}
        Err(STagError::InvalidPath(_)) if th.symlink_mode == OpMode::Cli => {}
        Ok(_) if th.symlink_mode == OpMode::Finder => {}
        Err(e) => panic!("Wrong error {:?}", e),
        Ok(_) => panic!("Should have had an error"),
    }
    assert_eq!(th.notes, vec![Note::DraggedToRoot]);
    Ok(())
}

#[test]
fn test_dragged_to_root_cli() -> TestResult {
    run_dragged_to_root(TestHelper::new())
}

#[test]
fn test_dragged_to_root_manual() -> TestResult {
    let mut th = TestHelper::new();
    th.symlink_mode = OpMode::Manual;
    run_dragged_to_root(th)
}

#[test]
fn test_non_rm_delete_dir() -> TestResult {
    let mut th = TestHelper::new();
    th.mkdir("t1")?;
    let req = th.req();
    let (r, note) = th.fs.rmdir(&req, "/t1");
    assert_eq!(r, Err(Errno::ENOSYS));
    assert_eq!(note, Some(Note::Unlink(abs("/t1"))));
    Ok(())
}

// ---- permissions

#[test]
fn test_mountdir_perms() -> TestResult {
    {
        let mut th = TestHelper::with_mount(456, 789, 0o775);
        let st = th.getattr("/").unwrap();
        let perms = Permissions::from(st.mode);
        assert_eq!(th.fs.settings.config.mount.permissions, perms);
        assert_eq!(perms, Permissions::from(0o775));
        assert_eq!(st.uid, 456);
        assert_eq!(st.gid, 789);
    }
    {
        let mut th = TestHelper::with_mount(567, 890, 0o644);
        let st = th.getattr("/").unwrap();
        let perms = Permissions::from(st.mode);
        assert_eq!(th.fs.settings.config.mount.permissions, perms);
        assert_eq!(perms, Permissions::from(0o644));
        assert_eq!(st.uid, 567);
        assert_eq!(st.gid, 890);
    }
    Ok(())
}

fn run_tag_perms(mut th: TestHelper) -> TestResult {
    let tag_path = th.mkdir("t1")?;
    let st = th.getattr(&tag_path).unwrap();
    let perms = Permissions::from(st.mode);
    assert_eq!(perms, UMask(th.umask).dir_perms());
    let filedir = filedir_path(&["t1"]);
    let st = th.getattr(&filedir).unwrap();
    let filedir_perms = Permissions::from(st.mode);
    assert_eq!(filedir_perms, UMask(th.umask).dir_perms());
    Ok(())
}

#[test]
fn test_tag_perms_cli() -> TestResult {
    run_tag_perms(TestHelper::new())
}

#[test]
fn test_tag_perms_manual() -> TestResult {
    let mut th = TestHelper::new();
    th.mkdir_mode = OpMode::Manual;
    run_tag_perms(th)
}

// ---- cache

#[test]
fn test_tag_cache() -> TestResult {
    let mut th = TestHelper::new();
    let _ = th.ln(&["t1"])?;
    th.assert_size(&["t1"], 1);
    th.fs.store.tags[0].num_files += 1;
    th.assert_size(&["t1"], 1);
    pause(1100);
    th.assert_size(&["t1"], 2);
    Ok(())
}

#[test]
fn test_file_cache() -> TestResult {
    let mut th = TestHelper::new();
    let l1 = th.ln(&["t1"])?;
    let path = l1.link_filedir_path(&["t1"], false);
    let mtime = th.getattr(&path).unwrap().mtime;
    th.fs.store.links[0].mtime = mtime + 10_000_000;
    let still_mtime = th.getattr(&path).unwrap().mtime;
    assert_eq!(still_mtime, mtime);
    pause(1100);
    let new_mtime = th.getattr(&path).unwrap().mtime;
    assert!(new_mtime > mtime, "{:?} wasn't greater than {:?}", new_mtime, mtime);
    Ok(())
}

// ---- mtime

fn run_tagdir_modify_time(mut th: TestHelper) -> TestResult {
    let t1 = mountpoint_path(&["t1"]);
    let t1_bar = filedir_path(&["t1"]);
    let t2 = mountpoint_path(&["t2"]);
    let t2_bar = filedir_path(&["t2"]);
    let _ = th.ln(&["t1", "t2"])?;
    let mtime_t1_1 = th.getattr(&t1).unwrap().mtime;
    let mtime_t1_bar_1 = th.getattr(&t1_bar).unwrap().mtime;
    let mtime_t2_1 = th.getattr(&t2).unwrap().mtime;
    let mtime_t2_bar_1 = th.getattr(&t2_bar).unwrap().mtime;
    th.tick();
    let _ = th.ln(&["t1"])?;
    let mtime_t1_2 = th.getattr(&t1).unwrap().mtime;
    let mtime_t1_bar_2 = th.getattr(&t1_bar).unwrap().mtime;
    let mtime_t2_2 = th.getattr(&t2).unwrap().mtime;
    let mtime_t2_bar_2 = th.getattr(&t2_bar).unwrap().mtime;
    assert!(mtime_t1_2 > mtime_t1_1);
    assert!(mtime_t1_bar_2 > mtime_t1_bar_1);
    assert_eq!(mtime_t2_1, mtime_t2_2);
    assert_eq!(mtime_t2_bar_1, mtime_t2_bar_2);
    assert_eq!(mtime_t2_1, mtime_t2_bar_1);
    Ok(())
}

#[test]
fn test_tagdir_modify_time_cli() -> TestResult {
    run_tagdir_modify_time(TestHelper::new())
}

fn run_different_mtimes_for_tag(mut th: TestHelper) -> TestResult {
    let t2t1 = mountpoint_path(&["t2", "t1"]);
    let t3t2t1 = mountpoint_path(&["t3", "t2", "t1"]);
    let _linked1 = th.ln(&["t1", "t2", "t3"])?;
    th.tick();
    let _linked2 = th.ln(&["t1", "t2"])?;
    let mtime_t3t2t1_1 = th.getattr(&t3t2t1).unwrap().mtime;
    let mtime_t2t1_1 = th.getattr(&t2t1).unwrap().mtime;
    let mtime_t1_1 = th.getattr("/t1").unwrap().mtime;
    assert!(mtime_t2t1_1 > mtime_t3t2t1_1);
    assert_eq!(mtime_t2t1_1, mtime_t1_1, "/t2/t1 mtime does not equal /t1 mtime");
    Ok(())
}

#[test]
fn test_different_mtimes_for_tag_cli() -> TestResult {
    run_different_mtimes_for_tag(TestHelper::new())
}

fn run_new_tag_mountdir_mtime(mut th: TestHelper) -> TestResult {
    let base_1 = th.getattr("/").unwrap().mtime;
    th.tick();
    let _ = th.ln(&["t1"])?;
    let base_2 = th.getattr("/").unwrap().mtime;
    assert!(base_2 > base_1);
    th.tick();
    let _ = th.ln(&["t2"])?;
    let base_3 = th.getattr("/").unwrap().mtime;
    assert!(base_3 > base_2);
    th.tick();
    let _ = th.ln(&["t1", "t2"])?;
    let base_4 = th.getattr("/").unwrap().mtime;
    assert!(base_4 > base_3);
    Ok(())
}

#[test]
fn test_new_tag_mountdir_mtime_cli() -> TestResult {
    run_new_tag_mountdir_mtime(TestHelper::new())
}

#[test]
fn test_new_tag_mountdir_mtime_manual() -> TestResult {
    let mut th = TestHelper::new();
    th.symlink_mode = OpMode::Manual;
    run_new_tag_mountdir_mtime(th)
}

fn run_rmdir_mountdir_mtime(mut th: TestHelper) -> TestResult {
    let _linked1 = th.ln(&["t1", "t2"])?;
    let base_1 = th.getattr("/").unwrap().mtime;
    th.tick();
    th.rmdir(&["t1", "t2"])?;
    let base_2 = th.getattr("/").unwrap().mtime;
    assert!(base_2 > base_1);
    Ok(())
}

#[test]
fn test_rmdir_mountdir_mtime_cli() -> TestResult {
    run_rmdir_mountdir_mtime(TestHelper::new())
}

#[test]
fn test_rmdir_mountdir_mtime_manual() -> TestResult {
    let mut th = TestHelper::new();
    th.symlink_mode = OpMode::Manual;
    run_rmdir_mountdir_mtime(th)
}

// ---- alias

#[test]
fn test_alias_bad() -> TestResult {
    let settings = clone_settings(&TestHelper::new().fs.settings);
    let mut fs = TagFilesystem::new(settings, Store::new(0), true);
    let req = Request { uid: 1, gid: 1, pid: 9, umask: 0o022 };
    fs.mkdir(&req, "/t1", 0o755, 1).unwrap();
    let alias_file = "/t1/test_alias";
    let (created, _) = fs.create(&req, alias_file, 0o644, "/managed/aa/bb", 2);
    assert!(created.is_ok());
    let (res, note) = fs.write(&req, alias_file, b"abc", 0, 3);
    assert_eq!(res, Err(Errno::EPERM));
    assert_eq!(note, Some(Note::BadCopy));
    let names = fs.readdir(&req, "/t1/\u{22C2}").unwrap();
    assert!(!names.iter().any(|e| e.name.starts_with("test_alias")));
    let (again, _) = fs.write(&req, alias_file, b"book", 0, 4);
    assert_eq!(again, Err(Errno::EPERM));
    Ok(())
}

// ---- tag groups

fn manual_mkdir_rename() -> TestHelper {
    let mut th = TestHelper::new();
    th.mkdir_mode = OpMode::Manual;
    th.rename_mode = OpMode::Manual;
    th
}

fn manual_all() -> TestHelper {
    let mut th = TestHelper::new();
    th.symlink_mode = OpMode::Manual;
    th.mkdir_mode = OpMode::Manual;
    th.rename_mode = OpMode::Manual;
    th
}

fn run_rename_tag_group(mut th: TestHelper) -> TestResult {
    th.mkdir("a_tags+")?;
    th.assert_parts_exists(&["a_tags+"]);
    th.mv(&mountpoint_path(&["a_tags+"]), &mountpoint_path(&["b_tags+"]))?;
    th.assert_parts_exists(&["b_tags+"]);
    th.assert_parts_not_exists(&["a_tags+"]);
    Ok(())
}

#[test]
fn test_rename_tag_group_cli() -> TestResult {
    run_rename_tag_group(TestHelper::new())
}

#[test]
fn test_rename_tag_group_manual() -> TestResult {
    run_rename_tag_group(manual_mkdir_rename())
}

#[test]
fn test_pin_tag_group() -> TestResult {
    let mut th = TestHelper::new();
    let req = th.req();
    let now = th.tick();
    th.fs.mkdir(&req, "/a_tags+", 0o755, now).unwrap();
    let now = th.tick();
    th.fs.mkdir(&req, "/a_tags+/a1", 0o755, now).unwrap();
    th.assert_parts_exists(&["a_tags+", "a1"]);
    Ok(())
}

fn run_tag_group_basic(mut th: TestHelper) -> TestResult {
    th.mkdir("a_tags+")?;
    let _l1 = th.ln(&["a1"])?;
    let _l2 = th.ln(&["b1"])?;
    th.mv(&mountpoint_path(&["a1"]), &mountpoint_path(&["a_tags+"]))?;
    th.assert_parts_not_exists(&["a_tags+", "a_tags+"]);
    th.assert_parts_not_exists(&["a_tags+", "a1", "a_tags+"]);
    assert!(th.getattr_exists(&mountpoint_path(&["a1"])));
    assert!(!th.readdir_exists(&mountpoint_path(&["a1"])));
    assert!(th.getattr_exists(&mountpoint_path(&["a_tags+", "a1"])));
    th.assert_path_not_exists(&filedir_path(&["a_tags+"]));
    th.assert_path_exists(&filedir_path(&["a_tags+", "a1"]));
    assert!(!th.getattr_exists(&mountpoint_path(&["a_tags+", "b1"])));
    th.assert_parts_exists(&["b1"]);
    Ok(())
}

#[test]
fn test_tag_group_basic_cli() -> TestResult {
    run_tag_group_basic(TestHelper::new())
}

#[test]
fn test_tag_group_basic_manual() -> TestResult {
    run_tag_group_basic(manual_mkdir_rename())
}

fn run_tag_group_no_crossover(mut th: TestHelper) -> TestResult {
    let _l1 = th.ln(&["a1"])?;
    let _l2 = th.ln(&["a2"])?;
    th.mkdir("a_tags+")?;
    th.mv(&mountpoint_path(&["a1"]), &mountpoint_path(&["a_tags+"]))?;
    th.mv(&mountpoint_path(&["a2"]), &mountpoint_path(&["a_tags+"]))?;
    let _l3 = th.ln(&["b1"])?;
    let _l4 = th.ln(&["b2"])?;
    th.mkdir("b_tags+")?;
    th.mv(&mountpoint_path(&["b1"]), &mountpoint_path(&["b_tags+"]))?;
    th.mv(&mountpoint_path(&["b2"]), &mountpoint_path(&["b_tags+"]))?;
    th.assert_parts_exists(&["a_tags+", "a1"]);
    th.assert_parts_exists(&["a_tags+", "a2"]);
    th.assert_parts_not_exists(&["a_tags+", "b1"]);
    th.assert_parts_not_exists(&["a_tags+", "b2"]);
    th.assert_parts_exists(&["b_tags+", "b1"]);
    th.assert_parts_exists(&["b_tags+", "b2"]);
    th.assert_parts_not_exists(&["b_tags+", "a1"]);
    th.assert_parts_not_exists(&["b_tags+", "a2"]);
    Ok(())
}

#[test]
fn test_tag_group_no_crossover_manual() -> TestResult {
    let mut th = TestHelper::new();
    th.mkdir_mode = OpMode::Manual;
    run_tag_group_no_crossover(th)
}

#[test]
fn test_tag_group_no_crossover_cli() -> TestResult {
    run_tag_group_no_crossover(TestHelper::new())
}

fn run_tag_group_gui_move(mut th: TestHelper) -> TestResult {
    th.mkdir("a_tags+")?;
    let _l1 = th.ln(&["a1"])?;
    let _l2 = th.ln(&["b1"])?;
    th.mv(&mountpoint_path(&["a1"]), &mountpoint_path(&["a_tags+", "a1"]))?;
    assert!(th.getattr_exists(&mountpoint_path(&["a1"])));
    assert!(!th.readdir_exists(&mountpoint_path(&["a1"])));
    assert!(th.getattr_exists(&mountpoint_path(&["a_tags+", "a1"])));
    th.assert_path_not_exists(&filedir_path(&["a_tags+"]));
    th.assert_path_exists(&filedir_path(&["a_tags+", "a1"]));
    assert!(!th.getattr_exists(&mountpoint_path(&["a_tags+", "b1"])));
    th.assert_parts_exists(&["b1"]);
    th.assert_parts_not_exists(&["a_tags+", "a_tags+"]);
    th.assert_parts_not_exists(&["a_tags+", "a1", "a_tags+"]);
    Ok(())
}

#[test]
fn test_tag_group_gui_move_cli() -> TestResult {
    run_tag_group_gui_move(TestHelper::new())
}

#[test]
fn test_tag_group_gui_move_manual() -> TestResult {
    run_tag_group_gui_move(manual_mkdir_rename())
}

fn run_file_in_tagdir_and_taggroup(mut th: TestHelper) -> TestResult {
    th.mkdir("a_tags+")?;
    let _l1 = th.ln(&["a1", "b1"])?;
    th.assert_parts_exists(&["b1", "a1"]);
    th.mv(&mountpoint_path(&["a1"]), &mountpoint_path(&["a_tags+"]))?;
    th.assert_parts_exists(&["b1", "a_tags+"]);
    Ok(())
}

#[test]
fn test_file_in_tagdir_and_taggroup_cli() -> TestResult {
    run_file_in_tagdir_and_taggroup(TestHelper::new())
}

#[test]
fn test_file_in_tagdir_and_taggroup_manual() -> TestResult {
    run_file_in_tagdir_and_taggroup(manual_all())
}

#[test]
fn test_merge_to_tag_under_taggroup() -> TestResult {
    let mut th = TestHelper::new();
    th.mkdir("b_tags+")?;
    let l1 = th.ln(&["a1", "b1", "b2"])?;
    th.mv(&mountpoint_path(&["b2"]), &mountpoint_path(&["a1", "b_tags+"]))?;
    th.assert_parts_exists(&["a1", "b_tags+", "b2"]);
    th.assert_path_exists(&l1.link_filedir_path(&["a1", "b_tags+", "b2"], false));
    assert!(th.getattr_exists(&l1.link_filedir_path(&["a1", "b_tags+", "b2"], false)));
    th.assert_parts_not_exists(&["b_tags+", "a1"]);
    Ok(())
}

#[test]
fn test_move_empty_tag_should_pin() -> TestResult {
    let mut th = TestHelper::new();
    th.mkdir("a_tags+")?;
    th.mkdir("a1")?;
    th.mv(&mountpoint_path(&["a1"]), &mountpoint_path(&["a_tags+"]))?;
    assert!(th.getattr_exists(&mountpoint_path(&["a1"])));
    th.assert_parts_exists(&["a_tags+", "a1"]);
    Ok(())
}

fn run_move_from_old_tg_to_new_tg(mut th: TestHelper) -> TestResult {
    let _l1 = th.ln(&["a1", "a2"])?;
    th.mkdir("a_tags+")?;
    th.mv(&mountpoint_path(&["a1"]), &mountpoint_path(&["a_tags+"]))?;
    th.mkdir("other_tags+")?;
    th.mv(&mountpoint_path(&["a_tags+", "a1"]), &mountpoint_path(&["other_tags+"]))?;
    th.assert_parts_exists(&["other_tags+", "a1"]);
    Ok(())
}

#[test]
fn test_move_from_old_tg_to_new_tg_cli() -> TestResult {
    run_move_from_old_tg_to_new_tg(TestHelper::new())
}

#[test]
fn test_move_from_old_tg_to_new_tg_manual() -> TestResult {
    run_move_from_old_tg_to_new_tg(manual_all())
}

#[test]
fn test_rename_tg_minus_char() -> TestResult {
    let mut th = TestHelper::new();
    th.mkdir("a_tags+")?;
    th.assert_parts_exists(&["a_tags+"]);
    th.mv(&mountpoint_path(&["a_tags+"]), &mountpoint_path(&["b_tags"]))?;
    th.assert_parts_exists(&["b_tags+"]);
    th.assert_parts_not_exists(&["a_tags+"]);
    Ok(())
}

fn run_delete_tg(mut th: TestHelper) -> TestResult {
    th.mkdir("a_tags+")?;
    let _l1 = th.ln(&["a1"])?;
    th.mv(&mountpoint_path(&["a1"]), &mountpoint_path(&["a_tags+"]))?;
    th.assert_parts_exists(&["a_tags+"]);
    th.assert_parts_exists(&["a_tags+", "a1"]);
    th.rmdir(&["a_tags+"])?;
    th.assert_parts_not_exists(&["a_tags+"]);
    th.assert_parts_exists(&["a1"]);
    Ok(())
}

#[test]
fn test_delete_tg_cli() -> TestResult {
    run_delete_tg(TestHelper::new())
}

#[test]
fn test_delete_tg_manual() -> TestResult {
    let mut th = TestHelper::new();
    th.rmdir_mode = OpMode::Manual;
    run_delete_tg(th)
}

#[test]
fn test_delete_tg_limited_tags() -> TestResult {
    let mut th = TestHelper::new();
    th.mkdir("a_tags+")?;
    let _l1 = th.ln(&["a1"])?;
    let _l2 = th.ln(&["a2", "a1"])?;
    let _l3 = th.ln(&["b1"])?;
    th.mv(&mountpoint_path(&["a1"]), &mountpoint_path(&["a_tags+"]))?;
    th.mv(&mountpoint_path(&["a2"]), &mountpoint_path(&["a_tags+"]))?;
    th.rmdir(&["a2", "a_tags+"])?;
    th.assert_parts_exists(&["a_tags+"]);
    th.assert_parts_exists(&["a_tags+", "a2"]);
    th.assert_parts_not_exists(&["a_tags+", "a1"]);
    Ok(())
}

fn run_rename_nonempty_tag_to_tg(mut th: TestHelper) -> TestResult {
    th.mkdir("a_tags")?;
    let _l1 = th.ln(&["a_tags"])?;
    match th.mv(&mountpoint_path(&["a_tags"]), &mountpoint_path(&["a_tags+"])) {
        Err(_) => {}
        Ok(_) => panic!("Should have had an error"),
    }
    assert_eq!(th.notes, vec![Note::TagToTagGroup("a_tags".to_string())]);
    th.assert_parts_exists(&["a_tags"]);
    th.assert_parts_not_exists(&["a_tags+"]);
    Ok(())
}

#[test]
fn test_rename_nonempty_tag_to_tg_cli() -> TestResult {
    run_rename_nonempty_tag_to_tg(TestHelper::new())
}

#[test]
fn test_rename_nonempty_tag_to_tg_manual() -> TestResult {
    run_rename_nonempty_tag_to_tg(manual_all())
}

fn run_rename_empty_tag_to_tg(mut th: TestHelper) -> TestResult {
    th.mkdir("a_tags")?;
    th.mv(&mountpoint_path(&["a_tags"]), &mountpoint_path(&["a_tags+"]))?;
    th.assert_parts_exists(&["a_tags+"]);
    th.assert_parts_not_exists(&["a_tags"]);
    Ok(())
}

#[test]
fn test_rename_empty_tag_to_tg_cli() -> TestResult {
    run_rename_empty_tag_to_tg(TestHelper::new())
}

#[test]
fn test_rename_empty_tag_to_tg_manual() -> TestResult {
    run_rename_empty_tag_to_tg(manual_all())
}

#[test]
fn test_nested_tag_group() -> TestResult {
    let mut th = TestHelper::new();
    th.mkdir("a_tags+")?;
    th.mkdir("b_tags+")?;
    let _l1 = th.ln(&["a", "b"])?;
    let _l2 = th.ln(&["a", "b"])?;
    th.mv(&mountpoint_path(&["a"]), &mountpoint_path(&["a_tags+"]))?;
    th.mv(&mountpoint_path(&["b"]), &mountpoint_path(&["b_tags+"]))?;
    th.assert_parts_exists(&["a_tags+", "a", "b_tags+", "b"]);
    th.assert_parts_exists(&["b_tags+", "b", "a_tags+", "a"]);
    Ok(())
}

fn run_tag_group_multiple(mut th: TestHelper) -> TestResult {
    th.mkdir("a_tags+")?;
    th.mkdir("b_tags+")?;
    let _l1 = th.ln(&["ab"])?;
    th.mv(&mountpoint_path(&["ab"]), &mountpoint_path(&["a_tags+"]))?;
    th.mv(&mountpoint_path(&["a_tags+", "ab"]), &mountpoint_path(&["b_tags+"]))?;
    th.assert_parts_exists(&["a_tags+", "ab"]);
    th.assert_parts_exists(&["b_tags+", "ab"]);
    th.assert_parts_not_exists(&["b_tags+", "ab", "a_tags+"]);
    th.assert_parts_not_exists(&["b_tags+", "a_tags+"]);
    th.assert_parts_not_exists(&["a_tags+", "ab", "b_tags+"]);
    th.assert_parts_not_exists(&["a_tags+", "b_tags+"]);
    Ok(())
}

#[test]
fn test_tag_group_multiple_cli() -> TestResult {
    run_tag_group_multiple(TestHelper::new())
}

#[test]
fn test_tag_group_multiple_manual() -> TestResult {
    run_tag_group_multiple(manual_mkdir_rename())
}

#[test]
fn test_tag_group_size() -> TestResult {
    let mut th = TestHelper::new();
    th.mkdir("a_tags+")?;
    th.assert_size(&["a_tags+"], 0);
    let _l1 = th.ln(&["t1"])?;
    th.mv(&mountpoint_path(&["t1"]), &mountpoint_path(&["a_tags+"]))?;
    th.assert_size(&["a_tags+"], 1);
    let _l2 = th.ln(&["t1"])?;
    pause(1100);
    th.assert_size(&["a_tags+"], 2);
    Ok(())
}

fn run_tag_group_nested_size(mut th: TestHelper) -> TestResult {
    th.mkdir("a_tags+")?;
    let _l1 = th.ln(&["a1", "a2", "a3"])?;
    let _l2 = th.ln(&["a2", "a3", "a4"])?;
    let _l3 = th.ln(&["a3", "a4", "a5"])?;
    for i in 1..=5 {
        let tag = format!("a{}", i);
        th.mv(&mountpoint_path(&[&tag]), &mountpoint_path(&["a_tags+"]))?;
    }
    th.assert_size(&["a_tags+"], 3);
    th.assert_size(&["a_tags+", "a3", "a_tags+"], 3);
    th.assert_size(&["a_tags+", "a4", "a_tags+"], 2);
    th.assert_size(&["a_tags+", "a2", "a_tags+"], 2);
    th.assert_size(&["a_tags+", "a5", "a_tags+"], 1);
    th.assert_size(&["a_tags+", "a1", "a_tags+"], 1);
    Ok(())
}

#[test]
fn test_tag_group_nested_size_cli() -> TestResult {
    run_tag_group_nested_size(TestHelper::new())
}

#[test]
fn test_tag_group_nested_size_manual() -> TestResult {
    run_tag_group_nested_size(manual_all())
}

#[test]
fn test_taggroup_cache() -> TestResult {
    let mut th = TestHelper::new();
    th.mkdir("a_tags+")?;
    let _ = th.ln(&["t1"])?;
    th.mv(&mountpoint_path(&["t1"]), &mountpoint_path(&["a_tags+"]))?;
    let mtime = th.getattr("/a_tags+").unwrap().mtime;
    th.fs.store.groups[0].mtime = mtime + 10_000_000;
    let still_mtime = th.getattr("/a_tags+").unwrap().mtime;
    assert_eq!(still_mtime, mtime);
    pause(1100);
    let new_mtime = th.getattr("/a_tags+").unwrap().mtime;
    assert!(new_mtime > mtime, "{:?} wasn't greater than {:?}", new_mtime, mtime);
    Ok(())
}

#[test]
fn test_rename_delete_stat() -> TestResult {
    let mut th = TestHelper::new();
    th.rmdir_mode = OpMode::Manual;
    th.mkdir("t1")?;
    th.rmdir(&["t1"])?;
    assert!(th.getattr("/delete").is_ok());
    Ok(())
}

// ---- device files in names

#[test]
fn test_good_path_to_inode() -> TestResult {
    let symbols = Symbols::default();
    let path = symbols.inodify_filename("/test/some_file", 987, 12345);
    let res = symbols.path_to_device_file(&path)?;
    assert!(res.is_some());
    assert_eq!(res.unwrap(), supertag::types::DeviceFile::new("some_file", 987, 12345));
    Ok(())
}

#[test]
fn test_bad_path_to_inode() -> TestResult {
    let symbols = Symbols::default();
    let res = symbols.path_to_device_file("/test/some_file")?;
    assert!(res.is_none());
    Ok(())
}

#[test]
fn test_empty_path_to_inode() -> TestResult {
    let symbols = Symbols::default();
    match symbols.path_to_device_file("") {
        Ok(_) => panic!("Test didn't raise"),
        Err(STagError::InvalidPath(path)) => {
            assert_eq!(path, "");
        }
        Err(e) => panic!("Wrong error raised {:?}", e),
    }
    Ok(())
}

#[test]
fn test_unlinking_path_to_inode() -> TestResult {
    let symbols = Symbols::default();
    let mut path = symbols.inodify_filename("/test/some_file", 987, 12345);
    path.push(symbols.sync_char);
    let res = symbols.path_to_device_file(&path)?;
    assert!(res.is_some());
    assert_eq!(res.unwrap(), supertag::types::DeviceFile::new("some_file", 987, 12345));
    Ok(())
}

// ---- whole scenarios

fn fs_symlink(th: &mut TestHelper, src: &str, ino: u64, dst: &str) -> Result<(), Errno> {
    let req = th.req();
    let now = th.tick();
    let (r, note) = th.fs.symlink(&req, src, Some((7, ino)), dst, now);
    th.note(note);
    r?;
    let _ = th.getattr(dst);
    Ok(())
}

fn entry_names(th: &mut TestHelper, path: &str) -> Vec<String> {
    let req = th.req();
    th.fs.readdir(&req, path).unwrap().into_iter().map(|e| e.name).collect()
}

#[test]
fn link_under_a_tag_lists_reads_and_counts() {
    let mut th = TestHelper::new();
    let req = th.req();
    let now = th.tick();
    th.fs.mkdir(&req, "/t1", 0o755, now).unwrap();
    fs_symlink(&mut th, "/src/a.txt", 1, "/t1/a.txt").unwrap();
    assert!(entry_names(&mut th, "/t1/\u{22C2}").contains(&"a.txt".to_string()));
    assert_eq!(th.fs.readlink(&req, "/t1/\u{22C2}/a.txt").unwrap(), "/src/a.txt");
    assert_eq!(th.getattr("/t1").unwrap().size, 1);
}

#[test]
fn nested_link_shows_in_both_orders() {
    let mut th = TestHelper::new();
    fs_symlink(&mut th, "/src/x.bin", 1, "/t1/x.bin").unwrap();
    fs_symlink(&mut th, "/src/y.bin", 2, "/t1/t2/y.bin").unwrap();
    let t1 = entry_names(&mut th, "/t1/\u{22C2}");
    assert!(t1.contains(&"x.bin".to_string()) && t1.contains(&"y.bin".to_string()));
    let t1t2 = entry_names(&mut th, "/t1/t2/\u{22C2}");
    assert_eq!(t1t2, vec![CANARY.to_string(), "y.bin".to_string()]);
    assert_eq!(entry_names(&mut th, "/t2/t1/\u{22C2}"), t1t2);
}

#[test]
fn same_name_from_two_sources_is_qualified() {
    let mut th = TestHelper::new();
    fs_symlink(&mut th, "/src/a", 11, "/t1/a").unwrap();
    fs_symlink(&mut th, "/other/a", 22, "/t1/a").unwrap();
    let listed = entry_names(&mut th, "/t1/\u{22C2}");
    assert_eq!(
        listed,
        vec![CANARY.to_string(), "a\u{FE6B}7-11".to_string(), "a\u{FE6B}7-22".to_string()]
    );
    assert!(!listed.contains(&"a".to_string()));
    let req = th.req();
    let now = th.tick();
    let (r, _) = th.fs.unlink(&req, "/t1/\u{22C2}/a\u{FE6B}7-11", now);
    r.unwrap();
    assert_eq!(entry_names(&mut th, "/t1/\u{22C2}"), vec![CANARY.to_string(), "a".to_string()]);
}

#[test]
fn tag_moved_into_a_group_shows_below_it_only() {
    let mut th = TestHelper::new();
    let req = th.req();
    let now = th.tick();
    th.fs.mkdir(&req, "/a_tags+", 0o755, now).unwrap();
    fs_symlink(&mut th, "/src/q", 1, "/a1/q").unwrap();
    let now = th.tick();
    let (r, _) = th.fs.rename(&req, "/a1", "/a_tags+", now);
    r.unwrap();
    assert_eq!(entry_names(&mut th, "/"), vec!["a_tags+".to_string()]);
    assert!(entry_names(&mut th, "/a_tags+/a1/\u{22C2}").contains(&"q".to_string()));
    assert_eq!(entry_names(&mut th, "/a_tags+"), vec!["a1".to_string()]);
}

#[test]
fn pin_goes_one_way() {
    let mut th = TestHelper::new();
    let req = th.req();
    let now = th.tick();
    th.fs.mkdir(&req, "/t1", 0o755, now).unwrap();
    let now = th.tick();
    th.fs.mkdir(&req, "/t1/t2", 0o755, now).unwrap();
    assert_eq!(entry_names(&mut th, "/t1"), vec!["t2".to_string()]);
    assert_eq!(th.getattr("/t2/t1"), Err(Errno::ENOENT));
    assert!(th.getattr("/t1/t2").is_ok());
}

#[test]
fn rename_to_delete_removes_the_file_from_the_tag() {
    let mut th = TestHelper::new();
    fs_symlink(&mut th, "/src/z", 1, "/t1/z").unwrap();
    let req = th.req();
    let now = th.tick();
    let (r, _) = th.fs.rename(&req, "/t1/\u{22C2}/z", "/t1/\u{22C2}/delete", now);
    r.unwrap();
    assert_eq!(entry_names(&mut th, "/t1/\u{22C2}"), vec![CANARY.to_string()]);
    assert_eq!(th.getattr("/t1").unwrap().size, 0);
    assert_eq!(th.getattr("/t1/\u{22C2}/z"), Err(Errno::ENOENT));
    pause(600);
    assert_eq!(th.getattr("/t1/\u{22C2}/delete"), Err(Errno::ENOENT));
}

#[test]
fn rename_of_a_tag_to_delete_is_seen_once_and_then_gone() {
    let mut th = TestHelper::new();
    let req = th.req();
    let now = th.tick();
    th.fs.mkdir(&req, "/t1", 0o755, now).unwrap();
    let now = th.tick();
    let (r, _) = th.fs.rename(&req, "/t1", "/delete", now);
    r.unwrap();
    assert!(th.getattr("/delete").is_ok());
    assert_eq!(th.getattr("/delete"), Err(Errno::ENOENT));
    assert_eq!(th.getattr("/t1"), Err(Errno::ENOENT));
}

#[test]
fn link_at_the_root_is_refused_with_a_note() {
    let mut th = TestHelper::new();
    let req = th.req();
    let now = th.tick();
    let (r, note) = th.fs.symlink(&req, "/src/a", Some((7, 1)), "/a", now);
    assert_eq!(r, Err(Errno::EIO));
    assert_eq!(note, Some(Note::DraggedToRoot));
    assert!(th.fs.store.files.is_empty());
}

#[test]
fn canary_denies_further_unlinks_for_a_while() {
    let mut th = TestHelper::new();
    fs_symlink(&mut th, "/src/a", 1, "/t1/a").unwrap();
    let req = th.req();
    let now = th.tick();
    let (r, note) = th.fs.unlink(&req, "/t1/\u{22C2}/.unlink_canary", now);
    assert_eq!(r, Err(Errno::ENOSYS));
    assert_eq!(note, Some(Note::Unlink(abs("/t1/\u{22C2}/.unlink_canary"))));
    let (r, note) = th.fs.unlink(&req, "/t1/\u{22C2}/a", now);
    assert_eq!((r, note), (Err(Errno::ENOSYS), None));
    assert_eq!(th.fs.store.links.len(), 1);
    let other = Request { uid: 1000, gid: 1000, pid: 1, umask: 0o022 };
    let (r, _) = th.fs.unlink(&other, "/t1/\u{22C2}/a", now);
    assert!(r.is_ok());
    assert_eq!(th.fs.store.links.len(), 0);
}

#[test]
fn denied_process_may_unlink_again_later() {
    let mut th = TestHelper::new();
    fs_symlink(&mut th, "/src/a", 1, "/t1/a").unwrap();
    let req = th.req();
    let now = th.tick();
    let _ = th.fs.unlink(&req, "/.unlink_canary", now);
    pause(2100);
    let (r, _) = th.fs.unlink(&req, "/t1/\u{22C2}/a", now);
    assert!(r.is_ok());
}

#[test]
fn root_file_directory_lists_every_tag() {
    let mut th = TestHelper::new();
    fs_symlink(&mut th, "/src/a", 1, "/t1/t2/a").unwrap();
    let req = th.req();
    let now = th.tick();
    th.fs.mkdir(&req, "/g+", 0o755, now).unwrap();
    let now = th.tick();
    let (r, _) = th.fs.rename(&req, "/t2", "/g+", now);
    r.unwrap();
    assert_eq!(entry_names(&mut th, "/\u{22C2}"), vec!["t1".to_string(), "t2".to_string()]);
    assert_eq!(entry_names(&mut th, "/"), vec!["t1".to_string(), "g+".to_string()]);
}

#[test]
fn nonempty_tag_into_new_group_leaves_the_store() {
    let mut th = TestHelper::new();
    fs_symlink(&mut th, "/src/a", 1, "/t1/a").unwrap();
    let tags: Vec<String> = th.fs.store.get_all_tags().into_iter().map(|t| t.name).collect();
    let links = th.fs.store.links.clone();
    let root = th.fs.store.get_root_mtime();
    let req = th.req();
    let now = th.tick();
    let (r, note) = th.fs.rename(&req, "/t1", "/t1+", now);
    assert_eq!(r, Err(Errno::EIO));
    assert_eq!(note, Some(Note::TagToTagGroup("t1".to_string())));
    let after: Vec<String> = th.fs.store.get_all_tags().into_iter().map(|t| t.name).collect();
    assert_eq!(tags, after);
    assert_eq!(th.fs.store.links, links);
    assert_eq!(th.fs.store.get_root_mtime(), root);
    assert!(th.fs.store.groups.is_empty());
}

#[test]
fn special_paths_always_exist() {
    let mut th = TestHelper::new();
    assert_eq!(th.getattr("/.trackerignore").unwrap().mode & 0o170000, 0o100000);
    assert_eq!(th.getattr("/t9/.unlink_canary").unwrap().mode & 0o170000, 0o100000);
    assert_eq!(th.getattr("/.supertag").unwrap().mode & 0o170000, S_IFDIR);
    assert_eq!(th.getattr("/.supertag/db.sqlite3").unwrap().mode & 0o170000, S_IFLNK);
    assert_eq!(th.getattr("/.supertag/other"), Err(Errno::ENOENT));
    let req = th.req();
    assert_eq!(
        th.fs.readlink(&req, "/.supertag/db.sqlite3").unwrap(),
        "/home/u/.config/supertag/collections/col/col.db"
    );
    assert_eq!(entry_names(&mut th, "/.supertag"), vec!["db.sqlite3".to_string()]);
    assert_eq!(th.getattr("/nope"), Err(Errno::ENOENT));
    assert_eq!(th.fs.readlink(&req, "/nope"), Err(Errno::ENOENT));
    let (r, note) = th.fs.rmdir(&req, "/t1/\u{22C2}");
    assert_eq!((r, note), (Ok(()), None));
}

#[test]
fn sync_probe_flushes_the_caches_of_a_path() {
    let mut th = TestHelper::new();
    fs_symlink(&mut th, "/src/a", 1, "/t1/a").unwrap();
    assert_eq!(th.getattr("/t1").unwrap().size, 1);
    th.fs.store.tags[0].num_files = 5;
    assert_eq!(th.getattr("/t1").unwrap().size, 1);
    assert_eq!(th.getattr("/t1\u{7f}"), Err(Errno::ENOENT));
    assert_eq!(th.getattr("/t1").unwrap().size, 5);
}

#[test]
fn readdir_lists_no_name_twice() {
    let mut th = TestHelper::new();
    let req = th.req();
    for p in ["/t1", "/t1/t2", "/t1/g+", "/t1/g+/t3", "/t1/g+/t4", "/t1/t2/t5"] {
        let now = th.tick();
        th.fs.mkdir(&req, p, 0o755, now).unwrap();
    }
    fs_symlink(&mut th, "/src/a", 1, "/t1/t2/a").unwrap();
    fs_symlink(&mut th, "/src/b", 2, "/t1/t3/b").unwrap();
    for p in ["/", "/t1", "/t1/t2", "/t1/g+", "/t1/\u{22C2}", "/t1/g+/t3"] {
        let names = entry_names(&mut th, p);
        let mut seen = std::collections::HashSet::new();
        for n in names.iter() {
            assert!(seen.insert(n.clone()), "{:?} lists {:?} twice: {:?}", p, n, names);
        }
    }
}

// ---- alias files that prove good

fn alias_bytes() -> Vec<u8> {
    let mut data = b"book\0\0\0\0mark".to_vec();
    data.extend_from_slice(b"rest of the alias record");
    data
}

#[test]
fn good_alias_is_linked_under_the_tags_of_its_directory() {
    let settings = clone_settings(&TestHelper::new().fs.settings);
    let mut fs = TagFilesystem::new(settings, Store::new(0), true);
    let req = Request { uid: 1, gid: 1, pid: 9, umask: 0o022 };
    fs.mkdir(&req, "/t1", 0o755, 1).unwrap();
    let path = "/t1/target.txt";
    assert!(fs.pending_alias(path).is_none());
    let (created, _) = fs.create(&req, path, 0o644, "/managed/aa/bb", 2);
    assert!(created.is_ok());
    assert!(fs.pending_alias(path).is_none());
    let data = alias_bytes();
    let (res, note) = fs.write(&req, path, &data, 0, 3);
    assert_eq!(res, Ok(data.len()));
    assert_eq!(note, None);
    let alias = fs.pending_alias(path).unwrap();
    assert_eq!(alias.written, data.len());
    let (dst, note) = fs.check_alias_target(path, true);
    assert_eq!(dst, Ok("t1".to_string()));
    assert_eq!(note, None);
    let (res, _) = fs.link_alias(path, &alias, "/src/target.txt", Some((1, 77)), "/managed/aa/bb", 4);
    assert_eq!(res, Ok(()));
    assert!(fs.store.is_well_formed());
    assert_eq!(fs.store.get_tag("t1").unwrap().num_files, 1);
    assert_eq!(fs.store.files[0].alias_file.as_deref(), Some("/managed/aa/bb"));
    assert!(fs.pending_alias(path).is_none());
    assert_eq!(fs.resolve_to_alias_file(path), Some("/managed/aa/bb".to_string()));
    assert_eq!(fs.resolve_to_alias_file("/t1"), None);
    assert_eq!(fs.resolve_to_alias_file("/t1/other.txt"), None);
}

#[test]
fn alias_of_a_file_at_the_root_is_refused() {
    let settings = clone_settings(&TestHelper::new().fs.settings);
    let fs = TagFilesystem::new(settings, Store::new(0), true);
    let (dst, note) = fs.check_alias_target("/target.txt", true);
    assert_eq!(dst, Err(Errno::EIO));
    assert_eq!(note, Some(Note::DraggedToRoot));
    let (dst, note) = fs.check_alias_target("/target", false);
    assert_eq!(dst, Ok("".to_string()));
    assert_eq!(note, None);
}

#[test]
fn alias_without_a_file_name_in_its_target_is_refused() {
    let settings = clone_settings(&TestHelper::new().fs.settings);
    let mut fs = TagFilesystem::new(settings, Store::new(0), true);
    let req = Request { uid: 1, gid: 1, pid: 9, umask: 0o022 };
    fs.mkdir(&req, "/t1", 0o755, 1).unwrap();
    let path = "/t1/x";
    let _ = fs.create(&req, path, 0o644, "/managed/aa/bb", 2);
    let data = alias_bytes();
    let _ = fs.write(&req, path, &data, 0, 3);
    let alias = fs.pending_alias(path).unwrap();
    let (res, note) = fs.link_alias(path, &alias, "/", None, "/managed/aa/bb", 4);
    assert_eq!(res, Err(Errno::EIO));
    assert_eq!(note, None);
    assert_eq!(fs.store.files.len(), 0);
}

#[test]
fn reset_alias_starts_the_alias_file_over() {
    let settings = clone_settings(&TestHelper::new().fs.settings);
    let mut fs = TagFilesystem::new(settings, Store::new(0), true);
    let req = Request { uid: 1, gid: 1, pid: 9, umask: 0o022 };
    fs.mkdir(&req, "/t1", 0o755, 1).unwrap();
    let path = "/t1/x";
    assert!(!fs.reset_alias(path));
    let _ = fs.create(&req, path, 0o644, "/managed/aa/bb", 2);
    let data = alias_bytes();
    let _ = fs.write(&req, path, &data, 0, 3);
    assert!(fs.pending_alias(path).is_some());
    let before = fs.op_cache.check_alias_entry(path).unwrap();
    assert_eq!(before.written, data.len());
    assert!(fs.reset_alias(path));
    assert!(fs.pending_alias(path).is_none());
    let after = fs.op_cache.check_alias_entry(path).unwrap();
    assert_eq!(after.written, 0);
    assert_eq!((after.valid, after.header_ptr, after.linked), (before.valid, before.header_ptr, before.linked));
    assert_eq!((after.path, after.managed_file, after.mode), (before.path, before.managed_file, before.mode));
    assert_eq!((after.uid, after.gid, after.btime, after.mtime), (before.uid, before.gid, before.btime, before.mtime));
    assert!(!fs.reset_alias("/t1/other"));
    let (res, _) = fs.write(&req, path, &data, 0, 5);
    assert_eq!(res, Ok(data.len()));
    assert!(fs.pending_alias(path).is_some());
}

#[test]
fn attributes_and_opens_go_to_the_managed_file() {
    let settings = clone_settings(&TestHelper::new().fs.settings);
    let mut fs = TagFilesystem::new(settings, Store::new(0), true);
    let req = Request { uid: 1, gid: 1, pid: 9, umask: 0o022 };
    fs.mkdir(&req, "/t1", 0o755, 1).unwrap();
    let path = "/t1/target.txt";
    let _ = fs.create(&req, path, 0o644, "/managed/aa/bb", 2);
    let data = alias_bytes();
    let _ = fs.write(&req, path, &data, 0, 3);
    let alias = fs.pending_alias(path).unwrap();
    let (res, _) = fs.link_alias(path, &alias, "/src/target.txt", Some((1, 77)), "/managed/cc/dd", 4);
    assert_eq!(res, Ok(()));
    let file = "/managed/cc/dd".to_string();
    assert_eq!(fs.open(&req, path, 2), Ok((file.clone(), true, true)));
    assert_eq!(fs.open(&req, path, 1), Ok((file.clone(), false, true)));
    assert_eq!(fs.open(&req, path, 0), Ok((file.clone(), true, false)));
    assert_eq!(fs.truncate(&req, path), Ok(file.clone()));
    assert_eq!(fs.setxattr_impl(&req, path), Ok(file.clone()));
    assert_eq!(fs.getxattr_impl(&req, path), Ok(file.clone()));
    assert_eq!(fs.listxattr_impl(&req, path), Some(file.clone()));
    assert_eq!(fs.removexattr_impl(&req, path), Ok(file.clone()));
    let none = "/t1/\u{22C2}/none.txt";
    assert_eq!(fs.open(&req, none, 0), Err(Errno::ENOENT));
    assert_eq!(fs.truncate(&req, none), Err(Errno::EPERM));
    assert_eq!(fs.setxattr_impl(&req, none), Err(Errno::ENOENT));
    assert_eq!(fs.getxattr_impl(&req, none), Err(Errno::ENODATA));
    assert_eq!(fs.listxattr_impl(&req, none), None);
    assert_eq!(fs.removexattr_impl(&req, none), Err(Errno::ENOENT));
    assert_eq!(fs.getxattr_impl(&req, "/"), Err(Errno::ENODATA));
    assert_eq!(Errno::ENODATA.code(), 61);
    assert_eq!(Errno::ENOENT.code(), 2);
}

// ---- the same by hand

#[test]
fn test_rename_collision_manual() -> TestResult {
    let mut th = TestHelper::new();
    th.symlink_mode = OpMode::Manual;
    th.rename_mode = OpMode::Manual;
    run_rename_collision(th)
}

#[test]
fn test_tagdir_modify_time_manual() -> TestResult {
    let mut th = TestHelper::new();
    th.symlink_mode = OpMode::Manual;
    run_tagdir_modify_time(th)
}

#[test]
fn test_different_mtimes_for_tag_manual() -> TestResult {
    let mut th = TestHelper::new();
    th.symlink_mode = OpMode::Manual;
    run_different_mtimes_for_tag(th)
}

// ---- the same through the file manager, which links by alias files

fn finder() -> TestHelper {
    let mut th = TestHelper::new();
    th.fs.alias_files = true;
    th
}

fn finder_links() -> TestHelper {
    let mut th = finder();
    th.symlink_mode = OpMode::Finder;
    th
}

fn finder_renames() -> TestHelper {
    let mut th = finder();
    th.rename_mode = OpMode::Finder;
    th
}

fn finder_links_and_renames() -> TestHelper {
    let mut th = finder_links();
    th.rename_mode = OpMode::Finder;
    th
}

fn finder_links_and_rmdirs() -> TestHelper {
    let mut th = finder_links();
    th.rmdir_mode = OpMode::Finder;
    th
}

fn finder_links_and_rms() -> TestHelper {
    let mut th = finder_links();
    th.rm_mode = OpMode::Finder;
    th
}

fn finder_links_mkdirs_and_renames() -> TestHelper {
    let mut th = finder_links_and_renames();
    th.mkdir_mode = OpMode::Finder;
    th
}

#[test]
fn test_basic_tagging_finder() -> TestResult {
    run_basic_tagging(finder_links())
}

#[test]
fn test_duplicate_names_finder() -> TestResult {
    run_duplicate_names(finder_links())
}

#[test]
fn test_tag_intersection_finder() -> TestResult {
    run_tag_intersection(finder_links())
}

#[test]
fn test_same_file_finder() -> TestResult {
    run_same_file(finder_links())
}

#[test]
fn test_recursive_link_finder() -> TestResult {
    run_recursive_link(finder_links())
}

#[test]
fn test_ln_to_filedir_finder() -> TestResult {
    let mut th = finder();
    th.mkdir("t1")?;
    let src = th.temp_file();
    let dst = format!("{}/{}", filedir_path(&["t1"]), src.name);
    th.create_alias(&[src.clone()], &src.target, &dst)?;
    th.assert_path_exists(&dst);
    Ok(())
}

#[test]
fn test_nested_tag_merge_finder() -> TestResult {
    run_nested_tag_merge(finder_renames())
}

#[test]
fn test_move_tag_merge_finder() -> TestResult {
    run_move_tag_merge(finder_renames())
}

#[test]
fn test_move_file_misname_finder() -> TestResult {
    run_move_file_misname_exists(finder_renames())
}

#[test]
fn test_move_file_already_exists_finder() -> TestResult {
    run_move_file_misname_exists(finder_links_and_renames())
}

#[test]
fn test_move_merge_nested_same_name_finder() -> TestResult {
    run_move_merge_nested_same_name(finder_links_and_renames())
}

#[test]
fn test_rename_file_finder() -> TestResult {
    run_rename_file(finder_links_and_renames())
}

#[test]
fn test_rename_collision_finder() -> TestResult {
    run_rename_collision(finder_links_and_renames())
}

#[test]
fn test_rename_tag_finder() -> TestResult {
    run_rename_tag(finder_links_and_renames())
}

#[test]
fn test_tagdir_modify_time_finder() -> TestResult {
    run_tagdir_modify_time(finder_links())
}

#[test]
fn test_different_mtimes_for_tag_finder() -> TestResult {
    run_different_mtimes_for_tag(finder_links())
}

#[test]
fn test_new_tag_mountdir_mtime_finder() -> TestResult {
    run_new_tag_mountdir_mtime(finder_links())
}

#[test]
fn test_rmdir_mountdir_mtime_finder() -> TestResult {
    run_rmdir_mountdir_mtime(finder_links())
}

#[test]
fn test_disallow_not_tag_name_finder() -> TestResult {
    let mut th = finder();
    th.mkdir_mode = OpMode::Finder;
    run_disallow_not_tag_name(th)
}

#[test]
fn test_dragged_to_root_finder() -> TestResult {
    run_dragged_to_root(finder_links())
}

#[test]
fn test_rm_tagdir_finder() -> TestResult {
    let mut th = finder_links_and_rms();
    th.rmdir_mode = OpMode::Finder;
    run_rm_tagdir(th)
}

#[test]
fn test_remove_and_relink_file_finder() -> TestResult {
    run_remove_and_relink_file(finder_links_and_rms())
}

#[test]
fn test_remove_and_relink_tag_finder() -> TestResult {
    run_remove_and_relink_tag(finder_links_and_rmdirs())
}

#[test]
fn test_unlinked_stays_unlinked_finder() -> TestResult {
    run_unlinked_stays_unlinked(finder_links_and_rmdirs())
}

#[test]
fn test_remove_tag_immediately_finder() -> TestResult {
    run_remove_tag_immediately(finder_links_and_rmdirs())
}

#[test]
fn test_only_remove_leaf_symlink_finder() -> TestResult {
    run_only_remove_leaf_symlink(finder_links_and_rms())
}

#[test]
fn test_delete_tg_finder() -> TestResult {
    let mut th = finder();
    th.rmdir_mode = OpMode::Finder;
    run_delete_tg(th)
}

#[test]
fn test_rename_nonempty_tag_to_tg_finder() -> TestResult {
    run_rename_nonempty_tag_to_tg(finder_links_mkdirs_and_renames())
}

#[test]
fn test_rename_empty_tag_to_tg_finder() -> TestResult {
    run_rename_empty_tag_to_tg(finder_links_mkdirs_and_renames())
}

#[test]
fn test_basic_alias() -> TestResult {
    let mut th = finder_links();
    let l1 = th.ln(&["t1"])?;
    let linked_path = abs(&l1.link_filedir_path(&["t1"], false));
    let resolved = th.canonicalize(&linked_path);
    assert_eq!(l1.target, resolved);
    Ok(())
}

#[test]
fn indexer_files_of_the_other_platform_exist_only_there() {
    let mut th = TestHelper::new();
    assert_eq!(th.getattr("/.fseventsd").err(), Some(Errno::ENOENT));
    assert_eq!(th.getattr("/.fseventsd/no_log").err(), Some(Errno::ENOENT));
    assert_eq!(th.getattr("/.metadata_never_index").err(), Some(Errno::ENOENT));
    let dir = th.getattr("/.trackerignore").unwrap();
    assert_eq!(dir.mode & 0o170000, 0o100000);
    let mut th = finder();
    let st = th.getattr("/.fseventsd").unwrap();
    assert_eq!(st.mode, S_IFDIR | 0o755);
    assert_eq!((st.uid, st.gid, st.size), (1000, 1000, 0));
    let st = th.getattr("/.fseventsd/no_log").unwrap();
    assert_eq!(st.mode, 0o100000 | 0o644);
    let st = th.getattr("/.metadata_never_index").unwrap();
    assert_eq!(st.mode, 0o100000 | 0o644);
    assert_eq!(th.getattr("/.fseventsd/other").err(), Some(Errno::ENOENT));
    assert!(th.fs.store.tags.is_empty());
}

#[test]
fn delete_name_with_an_extension_deletes_only_on_the_other_platform() -> TestResult {
    let mut th = TestHelper::new();
    th.symlink_mode = OpMode::Manual;
    let l1 = th.ln(&["t1"])?;
    let src = l1.link_filedir_path(&["t1"], false);
    th.rename_fs(&src, &format!("{}/delete.tmp", filedir_path(&["t1"])))?;
    assert_eq!(th.ls_filedir(&["t1"]).unwrap(), vec!["delete.tmp".to_string()]);
    assert_eq!(th.fs.store.links.len(), 1);

    let mut th = finder();
    th.symlink_mode = OpMode::Manual;
    let l1 = th.ln(&["t1"])?;
    let src = l1.link_filedir_path(&["t1"], false);
    th.rename_fs(&src, &format!("{}/delete.tmp", filedir_path(&["t1"])))?;
    assert_eq!(th.fs.store.links.len(), 0);
    assert_eq!(th.fs.store.get_tag("t1").unwrap().num_files, 0);
    Ok(())
}

#[test]
fn flush_and_release_without_alias_files() {
    let th = TestHelper::new();
    let req = th.req();
    assert!(matches!(th.fs.flush(&req, "/t1/x"), Ok(None)));
    assert!(matches!(th.fs.release(&req, "/t1/x"), Err(Errno::ENOSYS)));
    let th = finder();
    assert!(matches!(th.fs.flush(&req, "/t1/x"), Ok(None)));
    assert!(matches!(th.fs.release(&req, "/t1/x"), Ok(None)));
}

// ---- what the calls do to the caches

#[test]
fn mkdir_flushes_the_listing_of_the_path_and_its_tags() -> TestResult {
    let mut th = TestHelper::new();
    th.mkdir_mode = OpMode::Manual;
    th.mkdir("t1")?;
    th.mkdir("t2")?;
    assert!(th.getattr("/t1").is_ok());
    assert!(th.getattr("/t2").is_ok());
    assert!(th.fs.op_cache.check_readdir_entry("/t1").is_some());
    assert!(th.fs.op_cache.check_readdir_entry("/t2").is_some());
    let req = th.req();
    let now = th.tick();
    th.fs.mkdir(&req, "/t1/t3", 0o755, now).unwrap();
    assert!(th.fs.op_cache.check_readdir_entry("/t1").is_none());
    assert!(th.fs.op_cache.check_readdir_entry("/t2").is_some());
    assert!(th.fs.op_cache.check_readdir_entry("/t1/t3").is_none());
    assert_eq!(th.ls_tags(&["t1"]).unwrap(), vec!["t3".to_string()]);
    assert!(th.fs.op_cache.check_readdir_entry("/t2").is_some());
    Ok(())
}

#[test]
fn symlink_keeps_the_link_for_the_caller_and_flushes_the_tags() -> TestResult {
    let mut th = TestHelper::new();
    th.mkdir_mode = OpMode::Manual;
    th.mkdir("t1")?;
    assert!(th.getattr("/t1").is_ok());
    assert!(th.fs.op_cache.check_readdir_entry("/t1").is_some());
    let req = th.req();
    let now = th.tick();
    let (r, note) = th.fs.symlink(&req, "/src/a.txt", Some((7, 70)), "/t1/a.txt", now);
    assert_eq!((r, note), (Ok(()), None));
    assert!(th.fs.op_cache.check_readdir_entry("/t1").is_none());
    let other = Request { uid: req.uid, gid: req.gid, pid: req.pid + 1, umask: req.umask };
    assert!(th.fs.op_cache.consume_symlink(&other, "/t1/a.txt").is_none());
    let kept = th.fs.op_cache.consume_symlink(&req, "/t1/a.txt").unwrap();
    assert_eq!((kept.path.as_str(), kept.primary_tag.as_str()), ("/src/a.txt", "a.txt"));
    assert_eq!((kept.device, kept.inode, kept.uid, kept.gid, kept.mtime), (7, 70, req.uid, req.gid, now));
    let now = th.tick();
    let (r, _) = th.fs.symlink(&req, "/src/b.txt", Some((7, 71)), "/b.txt", now);
    assert!(r.is_err());
    assert!(th.fs.op_cache.consume_symlink(&req, "/b.txt").is_none());
    Ok(())
}

#[test]
fn unlink_forgets_the_alias_file_and_flushes_the_listing() -> TestResult {
    let mut th = finder();
    th.symlink_mode = OpMode::Manual;
    let l1 = th.ln(&["t1"])?;
    let path = l1.link_filedir_path(&["t1"], false);
    let req = th.req();
    let now = th.tick();
    let _ = th.fs.create(&req, &path, 0o644, "/managed/x", now);
    assert!(th.fs.op_cache.check_alias_entry(&path).is_some());
    assert!(th.getattr("/t1").is_ok());
    let now = th.tick();
    let (r, note) = th.fs.unlink(&req, &path, now);
    assert_eq!((r, note), (Ok(()), None));
    assert!(th.fs.op_cache.check_alias_entry(&path).is_none());
    assert!(th.fs.op_cache.check_readdir_entry("/t1").is_none());
    assert!(th.fs.op_cache.check_readdir_entry(&path).is_none());
    assert_eq!(th.fs.store.links.len(), 0);
    Ok(())
}

#[test]
fn write_keeps_the_new_state_and_link_keeps_the_alias_as_linked() {
    let settings = clone_settings(&TestHelper::new().fs.settings);
    let mut fs = TagFilesystem::new(settings, Store::new(0), true);
    let req = Request { uid: 1, gid: 1, pid: 9, umask: 0o022 };
    fs.mkdir(&req, "/t1", 0o755, 1).unwrap();
    let path = "/t1/target.txt";
    let _ = fs.create(&req, path, 0o644, "/managed/aa/bb", 2);
    let (res, _) = fs.write(&req, path, b"book\0\0\0\0mark", 0, 3);
    assert_eq!(res, Ok(12));
    let a = fs.op_cache.check_alias_entry(path).unwrap();
    assert_eq!((a.written, a.header_ptr, a.valid, a.mtime), (12, 12, Some(true), 3));
    assert!(fs.pending_alias(path).is_none());
    let (res, _) = fs.write(&req, path, b"x", 12, 4);
    assert_eq!(res, Ok(1));
    let a = fs.pending_alias(path).unwrap();
    assert_eq!((a.written, a.valid, a.mtime), (13, Some(true), 4));
    let _ = fs.getattr(&req, "/t1", 5);
    assert!(fs.op_cache.check_readdir_entry("/t1").is_some());
    let (res, _) = fs.link_alias(path, &a, "/src/target.txt", Some((1, 77)), "/managed/cc/dd", 6);
    assert_eq!(res, Ok(()));
    let kept = fs.op_cache.check_alias_entry(path).unwrap();
    assert!(kept.linked);
    assert_eq!(kept.managed_file, "/managed/cc/dd");
    assert_eq!((kept.written, kept.valid, kept.uid, kept.mode), (13, Some(true), a.uid, a.mode));
    assert!(fs.op_cache.check_readdir_entry("/t1").is_none());
    let (res, note) = fs.write(&req, path, b"more", 13, 7);
    assert_eq!((res, note), (Err(Errno::EPERM), Some(Note::BadCopy)));
    assert!(fs.op_cache.check_alias_entry(path).is_none());
    let (res, note) = fs.write(&req, path, b"book", 0, 8);
    assert_eq!((res, note), (Err(Errno::EPERM), None));
}
