//! The checkpoint repository driven the way the application drives it, over
//! a project folder held in memory: a map from relative paths to contents.

use std::collections::{BTreeMap, BTreeSet, HashSet};

use checkpoint::data_structures::{
    CommitResult, FileHash, Repo, Workspace, WorkspaceDelta, WorkspaceFile,
};
use checkpoint::err::{Init, Reason};
use checkpoint::file_system::{
    ProjectRoot, get_failed_restore_id, init_project, restore_log_text,
};
use checkpoint::path::FsPath;

// ---------------------------------------------------------------------------
// An in-memory project folder
// ---------------------------------------------------------------------------

struct Disk {
    root: ProjectRoot,
    files: BTreeMap<Vec<String>, Vec<u8>>,
}

fn strings(parts: &[&str]) -> Vec<String> {
    parts.iter().map(|s| s.to_string()).collect()
}

fn rel(parts: &[&str]) -> FsPath {
    FsPath::new(String::new(), strings(parts))
}

fn project_root() -> ProjectRoot {
    ProjectRoot::new(FsPath::new("/".to_string(), strings(&["home", "user", "project"])))
}

impl Disk {
    fn empty() -> Disk {
        Disk { root: project_root(), files: BTreeMap::new() }
    }

    fn relative(&self, path: &FsPath) -> Vec<String> {
        path.strip_prefix(&self.root.get()).expect("path outside the project").parts
    }

    /// Lays out a project the way the application does with `init_project`'s plan.
    fn init(&mut self) -> Result<(), Init> {
        let sentinel = self.root.data_folder().sentinel().get();
        let exists = self.files.contains_key(&self.relative(&sentinel));
        let plan = init_project(&self.root, exists)?;
        for (path, text) in plan.files {
            let key = self.relative(&path);
            self.files.insert(key, text.into_bytes());
        }
        Ok(())
    }

    fn write(&mut self, parts: &[&str], contents: impl AsRef<[u8]>) {
        self.files.insert(strings(parts), contents.as_ref().to_vec());
    }

    fn read(&self, parts: &[&str]) -> Vec<u8> {
        self.files.get(&strings(parts)).expect("no such file").clone()
    }

    /// The file's contents, or nothing when it is gone.
    fn bytes(&self, parts: &[&str]) -> Vec<u8> {
        self.files.get(&strings(parts)).cloned().unwrap_or_default()
    }

    fn delete(&mut self, parts: &[&str]) {
        self.files.remove(&strings(parts)).expect("no such file");
    }

    fn remove_dir(&mut self, parts: &[&str]) {
        let prefix = strings(parts);
        self.files.retain(|k, _| !k.starts_with(&prefix));
    }

    fn rename(&mut self, from: &[&str], to: &[&str]) {
        let data = self.files.remove(&strings(from)).expect("no such file");
        self.files.insert(strings(to), data);
    }

    /// A file or a directory holding files.
    fn has(&self, parts: &[&str]) -> bool {
        let prefix = strings(parts);
        self.files.keys().any(|k| k.starts_with(&prefix))
    }

    fn scan(&self) -> Workspace {
        let base = self.root.get();
        let files = self
            .files
            .iter()
            .map(|(k, v)| WorkspaceFile {
                path: base.join(&FsPath::new(String::new(), k.clone())),
                data: v.clone(),
            })
            .collect();
        Workspace { project_path: base, files, existing: Vec::new() }
    }
}

fn fixture() -> (Disk, Repo) {
    let mut disk = Disk::empty();
    disk.init().unwrap();
    (disk, Repo::new())
}

fn commit(repo: &mut Repo, disk: &Disk, name: &str) -> CommitResult {
    repo.create_commit(&disk.root, name.to_string(), String::new(), Ok(disk.scan()))
        .expect("commit failed")
}

fn delta(repo: &Repo, disk: &Disk) -> WorkspaceDelta {
    repo.get_workspace_delta(&disk.root, &disk.scan())
}

/// Restores checkpoint `idx` the way the application does: log, clear the
/// tracked top-level entries, write the checkpoint's files, record it,
/// drop the log.
fn restore(repo: &mut Repo, disk: &mut Disk, idx: usize) -> Result<(), Reason> {
    let plan = repo.restore_plan(idx)?;
    let wal = disk.relative(&disk.root.data_folder().wal());
    disk.files.insert(wal.clone(), restore_log_text(idx).into_bytes());
    let root_path = disk.root.get();
    let data_folder = disk.root.data_folder().get();
    let tops: BTreeSet<String> = disk.files.keys().map(|k| k[0].clone()).collect();
    for top in tops {
        let entry = root_path.child(&top);
        if disk.root.removed_by_restore(&entry, &entry, &data_folder) {
            disk.files.retain(|k, _| k[0] != top);
        }
    }
    for (path, data) in plan {
        disk.files.insert(path.parts.clone(), data.0);
    }
    repo.restore_checkpoint(idx)?;
    disk.files.remove(&wal);
    Ok(())
}

fn stats(repo: &Repo, disk: &Disk, parts: &[&str]) -> (usize, usize) {
    repo.get_additions_deletions(&rel(parts), &disk.bytes(parts))
}

fn files_of(repo: &Repo, idx: usize) -> HashSet<(FsPath, FileHash)> {
    repo.commits[idx].files.iter().map(|(p, h)| (p.clone(), *h)).collect()
}

fn hash_of(repo: &Repo, idx: usize, relative: &FsPath) -> FileHash {
    repo.commits[idx]
        .files
        .iter()
        .find(|(p, _)| p == relative)
        .map(|(_, h)| *h)
        .unwrap_or_else(|| panic!("{relative:?} not in commit {idx}"))
}

/// A copy of the repository, as saving and loading it gives.
fn reloaded(repo: &Repo) -> Result<Repo, Reason> {
    let mut copy = Repo::new();
    for (h, d) in repo.file_data.entries() {
        copy.file_data.insert(*h, d.clone());
    }
    copy.commits = repo.commits.clone();
    copy.current_checkpoint = repo.current_checkpoint;
    Repo::load_project(Some(copy))
}

fn assert_repo_valid(repo: &Repo) {
    if let Some(c) = repo.current_checkpoint {
        assert!(
            c < repo.commits.len(),
            "current_checkpoint {} out of bounds (len {})",
            c,
            repo.commits.len()
        );
    }
    for (i, commit) in repo.commits.iter().enumerate() {
        for (path, hash) in &commit.files {
            assert!(
                repo.file_data.contains_key(hash),
                "commit {i} references {path:?} whose hash is missing from file_data"
            );
        }
    }
}

// ---------------------------------------------------------------------------
// Commit mechanics
// ---------------------------------------------------------------------------

#[test]
fn empty_name_defaults_to_numbered_checkpoint() {
    let (mut disk, mut repo) = fixture();

    disk.write(&["a.txt"], "one");
    commit(&mut repo, &disk, "");
    disk.write(&["a.txt"], "two");
    commit(&mut repo, &disk, "");

    assert_eq!(repo.commits[0].message, "Checkpoint #1");
    assert_eq!(repo.commits[1].message, "Checkpoint #2");
    assert_repo_valid(&repo);
}

#[test]
fn whitespace_only_name_is_kept_verbatim() {
    let (mut disk, mut repo) = fixture();
    disk.write(&["a.txt"], "x");
    commit(&mut repo, &disk, "   ");
    assert_eq!(repo.commits[0].message, "   ");
}

#[test]
fn noop_commit_changes_nothing_and_does_not_save() {
    let (disk, mut repo) = fixture();

    let result = repo
        .create_commit(&disk.root, "should not exist".into(), String::new(), Ok(disk.scan()))
        .unwrap();

    assert_eq!(result, CommitResult::NoOp);
    assert!(repo.commits.is_empty());
    assert_eq!(repo.current_checkpoint, None);
}

#[test]
fn identical_content_is_deduplicated_in_file_data() {
    let (mut disk, mut repo) = fixture();

    disk.write(&["a.txt"], "same bytes");
    disk.write(&["b.txt"], "same bytes");
    commit(&mut repo, &disk, "dedup");

    assert_eq!(repo.commits[0].files.len(), 2);
    assert_eq!(repo.file_data.len(), 1);
    assert_eq!(hash_of(&repo, 0, &rel(&["a.txt"])), hash_of(&repo, 0, &rel(&["b.txt"])));
    assert_repo_valid(&repo);
}

#[test]
fn empty_file_commits_and_restores() {
    let (mut disk, mut repo) = fixture();

    disk.write(&["empty.txt"], "");
    commit(&mut repo, &disk, "c0");
    disk.write(&["empty.txt"], "no longer empty");
    commit(&mut repo, &disk, "c1");

    restore(&mut repo, &mut disk, 0).unwrap();
    assert_eq!(disk.read(&["empty.txt"]), b"");
    assert_repo_valid(&repo);
}

#[test]
fn reverted_content_reuses_known_hash() {
    let (mut disk, mut repo) = fixture();

    disk.write(&["a.txt"], "v1");
    commit(&mut repo, &disk, "c0");
    disk.write(&["a.txt"], "v2");
    commit(&mut repo, &disk, "c1");
    disk.write(&["a.txt"], "v1");
    commit(&mut repo, &disk, "c2");

    assert_eq!(hash_of(&repo, 0, &rel(&["a.txt"])), hash_of(&repo, 2, &rel(&["a.txt"])));
    assert_eq!(repo.file_data.len(), 2);
    assert_repo_valid(&repo);
}

#[test]
fn commit_from_old_checkpoint_with_modified_file_is_rejected() {
    let (mut disk, mut repo) = fixture();

    disk.write(&["a.txt"], "v1");
    commit(&mut repo, &disk, "c0");
    disk.write(&["a.txt"], "v2");
    commit(&mut repo, &disk, "c1");

    restore(&mut repo, &mut disk, 0).unwrap();
    disk.write(&["a.txt"], "divergent");

    let result = repo.create_commit(&disk.root, "bad".into(), String::new(), Ok(disk.scan()));
    assert!(result.is_err(), "committing from an old checkpoint must be refused");
    assert_eq!(repo.commits.len(), 2, "no commit should have been created");
    assert_repo_valid(&repo);
}

#[test]
fn commit_from_old_checkpoint_with_new_file_is_rejected() {
    let (mut disk, mut repo) = fixture();

    disk.write(&["a.txt"], "v1");
    commit(&mut repo, &disk, "c0");
    disk.write(&["b.txt"], "added in c1");
    commit(&mut repo, &disk, "c1");

    restore(&mut repo, &mut disk, 0).unwrap();
    disk.write(&["c.txt"], "new while on old checkpoint");

    let result = repo.create_commit(&disk.root, "bad".into(), String::new(), Ok(disk.scan()));
    assert!(result.is_err(), "committing from an old checkpoint must be refused");
    assert_eq!(repo.commits.len(), 2);
    assert_repo_valid(&repo);
}

#[test]
fn restore_out_of_bounds_is_an_error() {
    let (mut disk, mut repo) = fixture();

    disk.write(&["a.txt"], "v1");
    commit(&mut repo, &disk, "c0");

    let n = repo.commits.len();
    let result = restore(&mut repo, &mut disk, n);
    assert!(result.is_err());
    assert_repo_valid(&repo);
}

// ---------------------------------------------------------------------------
// Delta detection
// ---------------------------------------------------------------------------

#[test]
fn delta_buckets_new_modified_deleted_correctly() {
    let (mut disk, mut repo) = fixture();

    disk.write(&["a.txt"], "a");
    disk.write(&["b.txt"], "b");
    disk.write(&["c.txt"], "c");
    commit(&mut repo, &disk, "base");

    disk.write(&["a.txt"], "a modified");
    disk.delete(&["b.txt"]);
    disk.write(&["d.txt"], "d is new");

    let delta = delta(&repo, &disk);

    let changed: HashSet<_> = delta.changed_files.iter().map(|(p, _, _)| p.clone()).collect();
    let new: HashSet<_> = delta.new_files.iter().map(|(p, _, _)| p.clone()).collect();
    let deleted: HashSet<_> = delta.deleted_files.iter().cloned().collect();

    assert_eq!(changed, HashSet::from([rel(&["a.txt"])]));
    assert_eq!(new, HashSet::from([rel(&["d.txt"])]));
    assert_eq!(deleted, HashSet::from([rel(&["b.txt"])]));
}

#[test]
fn rename_appears_as_delete_plus_add() {
    let (mut disk, mut repo) = fixture();

    disk.write(&["old_name.txt"], "contents");
    commit(&mut repo, &disk, "base");

    disk.rename(&["old_name.txt"], &["new_name.txt"]);

    let delta = delta(&repo, &disk);
    assert_eq!(delta.deleted_files, vec![rel(&["old_name.txt"])]);
    assert_eq!(delta.new_files.len(), 1);
    assert_eq!(delta.new_files[0].0, rel(&["new_name.txt"]));
    assert!(delta.changed_files.is_empty());
}

#[test]
fn dotfiles_are_not_tracked() {
    let (mut disk, repo) = fixture();

    disk.write(&[".secret"], "hidden");
    let delta = delta(&repo, &disk);
    assert!(delta.is_noop(), "dotfiles must not appear in any delta bucket");
}

#[test]
fn files_inside_dot_directories_are_tracked() {
    let (mut disk, repo) = fixture();

    disk.write(&[".hidden_dir", "normal.txt"], "surprise");
    let delta = delta(&repo, &disk);

    let new: HashSet<_> = delta.new_files.iter().map(|(p, _, _)| p.clone()).collect();
    assert!(new.contains(&rel(&[".hidden_dir", "normal.txt"])));
}

#[test]
fn untracked_and_data_folders_never_appear_in_deltas() {
    let (mut disk, repo) = fixture();

    disk.write(&["untracked_files", "huge_video.bin"], "pretend this is 4GB");
    disk.write(&["checkpoint_data", "intruder.txt"], "should be ignored");

    let delta = delta(&repo, &disk);
    assert!(delta.is_noop());
}

#[test]
fn nested_directories_roundtrip_through_commit_and_restore() {
    let (mut disk, mut repo) = fixture();

    let deep = ["src", "modules", "auth", "tokens.rs"];
    disk.write(&deep, "deep contents");
    commit(&mut repo, &disk, "c0");

    disk.remove_dir(&["src"]);
    disk.write(&["unrelated.txt"], "force a second commit to exist");
    commit(&mut repo, &disk, "c1");

    restore(&mut repo, &mut disk, 0).unwrap();
    assert_eq!(disk.read(&deep), b"deep contents");
    assert!(!disk.has(&["unrelated.txt"]));
    assert_repo_valid(&repo);
}

#[test]
fn non_utf8_content_roundtrips_losslessly() {
    let (mut disk, mut repo) = fixture();

    let bytes: Vec<u8> = vec![0x00, 0x9F, 0x92, 0x96, 0xFF, 0xFE, 0x80];
    disk.write(&["binary.dat"], &bytes);
    commit(&mut repo, &disk, "c0");
    disk.write(&["binary.dat"], "replaced");
    commit(&mut repo, &disk, "c1");

    restore(&mut repo, &mut disk, 0).unwrap();
    assert_eq!(disk.read(&["binary.dat"]), bytes);

    let loaded = reloaded(&repo).unwrap();
    let hash = hash_of(&loaded, 0, &rel(&["binary.dat"]));
    assert_eq!(loaded.file_data.get(&hash).unwrap().0, bytes);
}

#[test]
fn filenames_with_spaces_and_unicode_roundtrip() {
    let (mut disk, mut repo) = fixture();

    let fancy = ["meine Dateien", "résumé final (v2) 日本語.txt"];
    disk.write(&fancy, "fancy");
    commit(&mut repo, &disk, "c0");
    disk.write(&fancy, "changed");
    commit(&mut repo, &disk, "c1");

    restore(&mut repo, &mut disk, 0).unwrap();
    assert_eq!(disk.read(&fancy), b"fancy");

    let loaded = reloaded(&repo).unwrap();
    assert!(loaded.commits[0].files.iter().any(|(p, _)| p == &rel(&fancy)));
}

// ---------------------------------------------------------------------------
// Restore mechanics
// ---------------------------------------------------------------------------

#[test]
fn restore_deletes_files_and_dirs_created_after_checkpoint() {
    let (mut disk, mut repo) = fixture();

    disk.write(&["a.txt"], "original");
    commit(&mut repo, &disk, "c0");

    disk.write(&["b.txt"], "later file");
    disk.write(&["newdir", "c.txt"], "later dir");
    commit(&mut repo, &disk, "c1");

    restore(&mut repo, &mut disk, 0).unwrap();

    assert!(disk.has(&["a.txt"]));
    assert!(!disk.has(&["b.txt"]));
    assert!(!disk.has(&["newdir"]), "whole new top-level dir must vanish");
    assert_repo_valid(&repo);
}

#[test]
fn restore_recreates_deleted_directories() {
    let (mut disk, mut repo) = fixture();

    disk.write(&["sub", "dir", "file.txt"], "v1");
    commit(&mut repo, &disk, "c0");

    disk.remove_dir(&["sub"]);
    disk.write(&["other.txt"], "x");
    commit(&mut repo, &disk, "c1");

    restore(&mut repo, &mut disk, 0).unwrap();
    assert_eq!(disk.read(&["sub", "dir", "file.txt"]), b"v1");
}

#[test]
fn restore_current_checkpoint_with_clean_workspace_is_lossless() {
    let (mut disk, mut repo) = fixture();

    disk.write(&["a.txt"], "stable");
    commit(&mut repo, &disk, "c0");

    restore(&mut repo, &mut disk, 0).unwrap();

    assert_eq!(disk.read(&["a.txt"]), b"stable");
    assert_eq!(repo.current_checkpoint, Some(0));
    assert_repo_valid(&repo);
}

#[test]
fn restore_discards_unsaved_workspace_changes() {
    let (mut disk, mut repo) = fixture();

    disk.write(&["a.txt"], "committed");
    commit(&mut repo, &disk, "c0");

    disk.write(&["a.txt"], "dirty, never committed");
    disk.write(&["scratch.txt"], "also dirty");

    restore(&mut repo, &mut disk, 0).unwrap();

    assert_eq!(disk.read(&["a.txt"]), b"committed");
    assert!(!disk.has(&["scratch.txt"]));
}

#[test]
fn successful_restore_clears_wal_and_persists_state() {
    let (mut disk, mut repo) = fixture();

    disk.write(&["a.txt"], "v1");
    commit(&mut repo, &disk, "c0");
    disk.write(&["a.txt"], "v2");
    commit(&mut repo, &disk, "c1");

    restore(&mut repo, &mut disk, 0).unwrap();

    assert!(!disk.has(&["checkpoint_data", "restore.wal"]), "WAL must be deleted after success");
    assert_eq!(repo.current_checkpoint, Some(0));

    let loaded = reloaded(&repo).unwrap();
    assert_eq!(loaded.current_checkpoint, Some(0));
    assert_eq!(loaded.commits.len(), 2);
}

// ---------------------------------------------------------------------------
// Loading
// ---------------------------------------------------------------------------

#[test]
fn save_load_roundtrip_preserves_everything_but_timestamps() {
    let (mut disk, mut repo) = fixture();

    disk.write(&["a.txt"], "alpha");
    disk.write(&["sub", "b.txt"], "beta");
    repo.create_commit(&disk.root, "first".into(), "a description".into(), Ok(disk.scan()))
        .unwrap();
    disk.write(&["a.txt"], "alpha v2");
    repo.create_commit(&disk.root, "second".into(), String::new(), Ok(disk.scan())).unwrap();

    let loaded = reloaded(&repo).unwrap();

    assert_eq!(loaded.commits.len(), repo.commits.len());
    assert_eq!(loaded.current_checkpoint, repo.current_checkpoint);
    for i in 0..repo.commits.len() {
        assert_eq!(loaded.commits[i].message, repo.commits[i].message);
        assert_eq!(loaded.commits[i].description, repo.commits[i].description);
        assert_eq!(files_of(&loaded, i), files_of(&repo, i));
    }
    let orig_keys: HashSet<_> = repo.file_data.entries().iter().map(|(k, _)| *k).collect();
    let load_keys: HashSet<_> = loaded.file_data.entries().iter().map(|(k, _)| *k).collect();
    assert_eq!(orig_keys, load_keys);
    for (k, v) in repo.file_data.entries() {
        assert_eq!(loaded.file_data.get(k).unwrap().0, v.0);
    }
    assert_repo_valid(&loaded);
}

#[test]
fn load_with_missing_json_gives_fresh_repo() {
    let loaded = Repo::load_project(None).unwrap();
    assert!(loaded.commits.is_empty());
    assert_eq!(loaded.current_checkpoint, None);
}

#[test]
fn load_with_out_of_bounds_checkpoint_is_rejected() {
    let (mut disk, mut repo) = fixture();

    disk.write(&["a.txt"], "x");
    commit(&mut repo, &disk, "c0");

    repo.current_checkpoint = Some(99);
    let result = Repo::load_project(Some(repo));
    assert!(result.is_err(), "an internally inconsistent repo must not load");
    match result {
        Err(Reason::Other(m)) => assert_eq!(
            m,
            "Project data is inconsistent (checkpoint pointer out of range). Refusing to open; data.json has not been modified."
        ),
        other => panic!("unexpected {other:?}"),
    }
}

#[test]
fn load_with_missing_blob_is_rejected_without_modifying_disk() {
    let (mut disk, mut repo) = fixture();

    disk.write(&["a.txt"], "v1");
    commit(&mut repo, &disk, "c0");

    let stripped = Repo {
        file_data: Repo::new().file_data,
        commits: repo.commits.clone(),
        current_checkpoint: repo.current_checkpoint,
    };
    let result = Repo::load_project(Some(stripped));
    match result {
        Err(Reason::Other(m)) => assert_eq!(
            m,
            "Project data is inconsistent: checkpoint 'c0' references missing data for a.txt. Refusing to open; data.json has not been modified."
        ),
        other => panic!("unexpected {other:?}"),
    }
}

#[test]
fn stats_survive_save_and_load() {
    let (mut disk, mut repo) = fixture();
    disk.write(&["a.txt"], "one\ntwo\nthree\n");
    commit(&mut repo, &disk, "c0");
    disk.write(&["a.txt"], "one\nCHANGED\nthree\nfour\n");
    commit(&mut repo, &disk, "c1");

    let loaded = reloaded(&repo).unwrap();
    for i in 0..repo.commits.len() {
        assert_eq!(loaded.commits[i].additions, repo.commits[i].additions);
        assert_eq!(loaded.commits[i].deletions, repo.commits[i].deletions);
    }
}

// ---------------------------------------------------------------------------
// WAL / recovery
// ---------------------------------------------------------------------------

#[test]
fn no_wal_means_no_failed_commit() {
    assert_eq!(get_failed_restore_id(None), None);
}

#[test]
fn valid_wal_returns_the_recorded_id() {
    assert_eq!(get_failed_restore_id(Some("3".to_string())), Some(3));
}

#[test]
fn wal_with_surrounding_whitespace_still_parses() {
    assert_eq!(get_failed_restore_id(Some(" 7\n".to_string())), Some(7));
}

#[test]
fn garbage_wal_does_not_panic() {
    assert_eq!(get_failed_restore_id(Some("banana".to_string())), None);
}

// ---------------------------------------------------------------------------
// init_project
// ---------------------------------------------------------------------------

#[test]
fn init_creates_expected_structure() {
    let root = project_root();
    let plan = init_project(&root, false).unwrap();

    let files: Vec<FsPath> = plan.files.iter().map(|(p, _)| p.clone()).collect();
    assert!(files.contains(&root.data_folder().sentinel().get()));
    assert!(plan.directories.contains(&root.data_folder().get()));
    assert!(plan.directories.contains(&root.untracked()));
    assert!(files.contains(&root.data_folder().get().child("readme.txt")));
    assert!(files.contains(&root.untracked().child("readme.txt")));
}

#[test]
fn init_refuses_a_folder_that_already_has_a_project() {
    let (mut disk, _repo) = fixture();

    let result = disk.init();
    assert!(matches!(result, Err(Init::ProjectAlreadyExists)));
}

#[test]
fn init_over_half_initialized_folder_currently_succeeds() {
    let mut disk = Disk::empty();
    disk.write(&["checkpoint_data", "data.json"], "{}");

    let result = disk.init();
    assert!(result.is_ok());
}

#[test]
fn init_preserves_existing_user_files_and_first_commit_picks_them_up() {
    let mut disk = Disk::empty();
    disk.write(&["precious.txt"], "existed before init");

    disk.init().unwrap();

    assert_eq!(disk.read(&["precious.txt"]), b"existed before init");

    let mut repo = Repo::new();
    commit(&mut repo, &disk, "first");
    assert!(files_of(&repo, 0).iter().any(|(p, _)| p == &rel(&["precious.txt"])));
    assert_repo_valid(&repo);
}

// ---------------------------------------------------------------------------
// Cross-cutting lifecycle
// ---------------------------------------------------------------------------

#[test]
fn invariants_hold_across_a_full_lifecycle() {
    let (mut disk, mut repo) = fixture();

    disk.write(&["a.txt"], "v1");
    commit(&mut repo, &disk, "c0");
    assert!(repo.is_on_latest_checkpoint());
    assert_repo_valid(&repo);

    disk.write(&["a.txt"], "v2");
    disk.write(&["b.txt"], "new in c1");
    commit(&mut repo, &disk, "c1");
    assert!(repo.is_on_latest_checkpoint());
    assert_repo_valid(&repo);

    restore(&mut repo, &mut disk, 0).unwrap();
    assert!(!repo.is_on_latest_checkpoint());
    assert_repo_valid(&repo);

    restore(&mut repo, &mut disk, 1).unwrap();
    assert!(repo.is_on_latest_checkpoint());
    assert_eq!(disk.read(&["b.txt"]), b"new in c1");

    disk.write(&["a.txt"], "v3");
    commit(&mut repo, &disk, "c2");
    assert!(repo.is_on_latest_checkpoint());
    assert_eq!(repo.current_checkpoint, Some(2));
    assert_repo_valid(&repo);

    let loaded = reloaded(&repo).unwrap();
    assert_eq!(loaded.commits.len(), 3);
    assert_eq!(loaded.current_checkpoint, Some(2));
    assert_repo_valid(&loaded);
}

#[test]
fn fresh_repo_is_on_latest_checkpoint() {
    let repo = Repo::new();
    assert!(repo.is_on_latest_checkpoint());
    assert!(repo.last_commit().is_none());
}

#[test]
fn failed_save_rolls_back_the_commit() {
    let (mut disk, mut repo) = fixture();

    disk.write(&["a.txt"], "v1");
    let mut saved = None;
    commit_and_save(&mut repo, &disk, "c0", true, &mut saved).unwrap();

    // Saving fails, as when a directory squats on data.tmp.
    disk.write(&["a.txt"], "v2");
    let result = commit_and_save(&mut repo, &disk, "doomed", false, &mut saved);

    // Memory must not be ahead of disk.
    assert!(result.is_err());
    assert_eq!(repo.commits.len(), 1);
    assert_eq!(repo.current_checkpoint, Some(0));
    assert!(repo.is_on_latest_checkpoint());
    assert_repo_valid(&repo);

    // The saved state is still the old, valid one.
    let loaded = Repo::load_project(saved.take()).unwrap();
    assert_eq!(loaded.commits.len(), 1);

    // Once the obstruction clears, creating the checkpoint again works.
    let mut saved = Some(reloaded(&repo).unwrap());
    let retry = commit_and_save(&mut repo, &disk, "retried", true, &mut saved).unwrap();
    assert_eq!(retry, CommitResult::Success);
    assert_eq!(repo.commits.len(), 2);
    assert_repo_valid(&repo);
}

/// Makes a checkpoint and saves it the way the application does; `save_ok`
/// says whether the save succeeds, and `saved` holds what was last saved.
fn commit_and_save(
    repo: &mut Repo,
    disk: &Disk,
    name: &str,
    save_ok: bool,
    saved: &mut Option<Repo>,
) -> Result<CommitResult, Reason> {
    let previous = repo.current_checkpoint;
    let made = repo.create_commit(&disk.root, name.to_string(), String::new(), Ok(disk.scan()));
    let outcome = match made {
        Ok(CommitResult::Success) if save_ok => {
            *saved = Some(reloaded(repo).unwrap());
            Ok(())
        }
        Ok(CommitResult::Success) => {
            Err(Reason::Io(disk.root.data_folder().data_tmp(), "Is a directory".to_string()))
        }
        _ => Ok(()),
    };
    repo.settle_commit(previous, made, outcome)
}

#[test]
fn settling_keeps_what_needs_no_save() {
    let (disk, mut repo) = fixture();
    let r = repo.settle_commit(None, Ok(CommitResult::NoOp), Ok(()));
    assert_eq!(r.unwrap(), CommitResult::NoOp);
    let r = repo.settle_commit(None, Err(Reason::Other("x".into())), Ok(()));
    assert_eq!(r.unwrap_err().describe(), "x");
    assert!(repo.commits.is_empty());
    let _ = disk;
}

#[test]
fn life_goes_on_after_a_garbage_wal() {
    let (mut disk, mut repo) = fixture();

    disk.write(&["a.txt"], "v1");
    commit(&mut repo, &disk, "c0");

    disk.write(&["checkpoint_data", "restore.wal"], "banana");

    let mut repo = reloaded(&repo).unwrap();
    let log = String::from_utf8(disk.read(&["checkpoint_data", "restore.wal"])).unwrap();
    assert_eq!(get_failed_restore_id(Some(log)), None);
    assert_eq!(repo.commits.len(), 1);

    disk.write(&["a.txt"], "v2");
    assert_eq!(commit(&mut repo, &disk, "c1"), CommitResult::Success);
    assert!(
        !files_of(&repo, 1).iter().any(|(p, _)| p.parts.last().map(|s| s.as_str()) == Some("restore.wal")),
        "WAL must never be snapshotted into a commit"
    );

    restore(&mut repo, &mut disk, 0).unwrap();
    assert!(!disk.has(&["checkpoint_data", "restore.wal"]));
    assert_eq!(disk.read(&["a.txt"]), b"v1");
    assert_repo_valid(&repo);
}

#[test]
fn scan_errors_are_passed_on_and_change_nothing() {
    let (mut disk, mut repo) = fixture();
    disk.write(&["a.txt"], "v1");
    commit(&mut repo, &disk, "c0");

    let err = Reason::IoString("walk".to_string(), "denied".to_string());
    let result = repo.create_commit(&disk.root, "x".into(), String::new(), Err(err));
    match result {
        Err(e) => assert_eq!(e.describe(), "walk: denied"),
        Ok(r) => panic!("unexpected {r:?}"),
    }
    assert_eq!(repo.commits.len(), 1);
}

#[test]
fn old_checkpoint_refusal_has_its_message() {
    let (mut disk, mut repo) = fixture();
    disk.write(&["a.txt"], "v1");
    commit(&mut repo, &disk, "c0");
    disk.write(&["a.txt"], "v2");
    commit(&mut repo, &disk, "c1");
    restore(&mut repo, &mut disk, 0).unwrap();
    match repo.create_commit(&disk.root, "bad".into(), String::new(), Ok(disk.scan())) {
        Err(e) => assert_eq!(e.describe(), "Attempted to create commit when on old checkpoint."),
        Ok(r) => panic!("unexpected {r:?}"),
    }
}

#[test]
fn commit_leaves_a_clean_workspace() {
    let (mut disk, mut repo) = fixture();
    disk.write(&["a.txt"], "v1");
    disk.write(&["dir", "b.txt"], "b");
    commit(&mut repo, &disk, "c0");
    assert!(delta(&repo, &disk).is_noop());
    disk.write(&["a.txt"], "v2");
    disk.delete(&["dir", "b.txt"]);
    commit(&mut repo, &disk, "c1");
    assert!(delta(&repo, &disk).is_noop());
}

#[test]
fn restore_leaves_a_clean_workspace() {
    let (mut disk, mut repo) = fixture();
    disk.write(&["a.txt"], "v1");
    commit(&mut repo, &disk, "c0");
    disk.write(&["a.txt"], "v2");
    disk.write(&["b.txt"], "b");
    commit(&mut repo, &disk, "c1");
    restore(&mut repo, &mut disk, 0).unwrap();
    assert!(delta(&repo, &disk).is_noop());
}

#[test]
fn delta_carries_contents_only_when_unknown() {
    let (mut disk, mut repo) = fixture();
    disk.write(&["a.txt"], "known");
    commit(&mut repo, &disk, "c0");
    disk.write(&["b.txt"], "known");
    disk.write(&["c.txt"], "fresh");
    let d = delta(&repo, &disk);
    for (p, _, data) in &d.new_files {
        if p == &rel(&["b.txt"]) {
            assert!(data.is_none());
        } else {
            assert_eq!(data.as_ref().unwrap().0, b"fresh");
        }
    }
    assert_eq!(d.new_files.len(), 2);
}

#[test]
fn restore_log_reads_back_as_its_checkpoint() {
    for n in [0usize, 7, 42, 1234567] {
        assert_eq!(get_failed_restore_id(Some(restore_log_text(n))), Some(n));
    }
    assert_eq!(restore_log_text(42), "42");
}

// ===============================================
//              DIFF CHECKING TESTS
// ===============================================

fn utf16le_bytes(s: &str) -> Vec<u8> {
    let mut v = vec![0xFF, 0xFE];
    v.extend(s.encode_utf16().flat_map(u16::to_le_bytes));
    v
}

fn utf16be_bytes(s: &str) -> Vec<u8> {
    let mut v = vec![0xFE, 0xFF];
    v.extend(s.encode_utf16().flat_map(u16::to_be_bytes));
    v
}

#[test]
fn one_line_modified_counts_one_one() {
    let (mut disk, mut repo) = fixture();
    disk.write(&["a.txt"], "one\ntwo\nthree\n");
    commit(&mut repo, &disk, "c0");
    disk.write(&["a.txt"], "one\nCHANGED\nthree\n");
    assert_eq!(stats(&repo, &disk, &["a.txt"]), (1, 1));
}

#[test]
fn appending_lines_counts_only_additions() {
    let (mut disk, mut repo) = fixture();
    disk.write(&["a.txt"], "one\ntwo\n");
    commit(&mut repo, &disk, "c0");
    disk.write(&["a.txt"], "one\ntwo\nthree\nfour\n");
    assert_eq!(stats(&repo, &disk, &["a.txt"]), (2, 0));
}

#[test]
fn removing_lines_counts_only_deletions() {
    let (mut disk, mut repo) = fixture();
    disk.write(&["a.txt"], "one\ntwo\nthree\nfour\n");
    commit(&mut repo, &disk, "c0");
    disk.write(&["a.txt"], "one\nfour\n");
    assert_eq!(stats(&repo, &disk, &["a.txt"]), (0, 2));
}

#[test]
fn no_change_counts_zero() {
    let (mut disk, mut repo) = fixture();
    disk.write(&["a.txt"], "stable\ncontent\n");
    commit(&mut repo, &disk, "c0");
    assert_eq!(stats(&repo, &disk, &["a.txt"]), (0, 0));
}

#[test]
fn brand_new_file_is_all_additions() {
    let (mut disk, mut repo) = fixture();
    disk.write(&["other.txt"], "x\n");
    commit(&mut repo, &disk, "c0");
    disk.write(&["fresh.txt"], "a\nb\nc\n");
    assert_eq!(stats(&repo, &disk, &["fresh.txt"]), (3, 0));
}

#[test]
fn file_against_empty_repo_is_all_additions() {
    let (mut disk, repo) = fixture();
    disk.write(&["a.txt"], "x\ny\n");
    assert_eq!(stats(&repo, &disk, &["a.txt"]), (2, 0));
}

#[test]
fn deleted_file_is_all_deletions() {
    let (mut disk, mut repo) = fixture();
    disk.write(&["gone.txt"], "a\nb\nc\n");
    commit(&mut repo, &disk, "c0");
    disk.delete(&["gone.txt"]);
    assert_eq!(stats(&repo, &disk, &["gone.txt"]), (0, 3));
}

#[test]
fn empty_to_content_is_all_additions() {
    let (mut disk, mut repo) = fixture();
    disk.write(&["a.txt"], "");
    commit(&mut repo, &disk, "c0");
    disk.write(&["a.txt"], "a\nb\n");
    assert_eq!(stats(&repo, &disk, &["a.txt"]), (2, 0));
}

#[test]
fn content_to_empty_is_all_deletions() {
    let (mut disk, mut repo) = fixture();
    disk.write(&["a.txt"], "a\nb\nc\n");
    commit(&mut repo, &disk, "c0");
    disk.write(&["a.txt"], "");
    assert_eq!(stats(&repo, &disk, &["a.txt"]), (0, 3));
}

#[test]
fn crlf_vs_lf_same_content_is_no_change() {
    let (mut disk, mut repo) = fixture();
    disk.write(&["a.txt"], "one\ntwo\nthree\n");
    commit(&mut repo, &disk, "c0");
    disk.write(&["a.txt"], "one\r\ntwo\r\nthree\r\n");
    assert_eq!(stats(&repo, &disk, &["a.txt"]), (0, 0));
}

#[test]
fn binary_new_side_counts_zero() {
    let (mut disk, mut repo) = fixture();
    disk.write(&["f.dat"], "text\nfor now\n");
    commit(&mut repo, &disk, "c0");
    disk.write(&["f.dat"], [0x00u8, 0x01, 0x02, 0x00, 0xFF]);
    assert_eq!(stats(&repo, &disk, &["f.dat"]), (0, 0));
}

#[test]
fn binary_old_side_counts_zero() {
    let (mut disk, mut repo) = fixture();
    disk.write(&["f.dat"], [0x00u8, 0x01, 0x02, 0x00]);
    commit(&mut repo, &disk, "c0");
    disk.write(&["f.dat"], "now i am text\n");
    assert_eq!(stats(&repo, &disk, &["f.dat"]), (0, 0));
}

#[test]
fn png_like_binary_counts_zero_without_panicking() {
    let (mut disk, mut repo) = fixture();
    disk.write(&["img.png"], "placeholder\n");
    commit(&mut repo, &disk, "c0");
    let png = [0x89u8, b'P', b'N', b'G', 0x0D, 0x0A, 0x1A, 0x0A, 0x01, 0x02, 0x03];
    disk.write(&["img.png"], png);
    assert_eq!(stats(&repo, &disk, &["img.png"]), (0, 0));
}

#[test]
fn utf16le_one_line_modified_counts_one_one() {
    let (mut disk, mut repo) = fixture();
    disk.write(&["u.txt"], utf16le_bytes("one\ntwo\nthree\n"));
    commit(&mut repo, &disk, "c0");
    disk.write(&["u.txt"], utf16le_bytes("one\nCHANGED\nthree\n"));
    assert_eq!(stats(&repo, &disk, &["u.txt"]), (1, 1));
}

#[test]
fn utf16be_one_line_modified_counts_one_one() {
    let (mut disk, mut repo) = fixture();
    disk.write(&["u.txt"], utf16be_bytes("alpha\nbeta\n"));
    commit(&mut repo, &disk, "c0");
    disk.write(&["u.txt"], utf16be_bytes("alpha\nGAMMA\n"));
    assert_eq!(stats(&repo, &disk, &["u.txt"]), (1, 1));
}

#[test]
fn utf16_to_utf8_same_text_is_no_change() {
    let (mut disk, mut repo) = fixture();
    disk.write(&["u.txt"], utf16le_bytes("hello\nworld\n"));
    commit(&mut repo, &disk, "c0");
    disk.write(&["u.txt"], "hello\nworld\n");
    assert_eq!(stats(&repo, &disk, &["u.txt"]), (0, 0));
}

#[test]
fn utf16_crlf_normalized_same_as_lf() {
    let (mut disk, mut repo) = fixture();
    disk.write(&["u.txt"], utf16le_bytes("one\r\ntwo\r\n"));
    commit(&mut repo, &disk, "c0");
    disk.write(&["u.txt"], utf16le_bytes("one\ntwo\n"));
    assert_eq!(stats(&repo, &disk, &["u.txt"]), (0, 0));
}

#[test]
fn latin1_high_byte_counts_as_text() {
    let (mut disk, mut repo) = fixture();
    disk.write(&["a.txt"], b"cafe\nmenu\n");
    commit(&mut repo, &disk, "c0");
    disk.write(&["a.txt"], b"caf\xE9\nmenu\nnew line\n");
    assert_eq!(stats(&repo, &disk, &["a.txt"]), (2, 1));
}

#[test]
fn additions_deletions_track_the_current_checkpoint_through_a_session() {
    let (mut disk, mut repo) = fixture();

    disk.write(&["main.rs"], "fn main() {}\n");
    disk.write(&["lib.rs"], "// lib\npub fn a() {}\n");
    commit(&mut repo, &disk, "c0");

    assert_eq!(
        stats(&repo, &disk, &["main.rs"]),
        (0, 0),
        "clean workspace immediately after commit should show no change"
    );
    assert_eq!(stats(&repo, &disk, &["lib.rs"]), (0, 0));

    disk.write(&["main.rs"], "fn main() {\n    println!(\"hi\");\n}\n");
    let (add, del) = stats(&repo, &disk, &["main.rs"]);
    assert!(
        add >= 2 && del >= 1,
        "expanding one line into three should show several additions and at \
         least one deletion, got ({add}, {del})"
    );
    assert_eq!(stats(&repo, &disk, &["lib.rs"]), (0, 0));

    disk.write(&["util.rs"], "pub fn helper() {}\n");
    commit(&mut repo, &disk, "c1");

    assert_eq!(stats(&repo, &disk, &["main.rs"]), (0, 0));
    assert_eq!(stats(&repo, &disk, &["util.rs"]), (0, 0));

    disk.delete(&["lib.rs"]);
    let (add, del) = stats(&repo, &disk, &["lib.rs"]);
    assert_eq!(
        (add, del),
        (0, 2),
        "deleting the 2-line lib.rs should read as 0 additions, 2 deletions"
    );

    commit(&mut repo, &disk, "c2");
    assert!(repo.is_on_latest_checkpoint());

    restore(&mut repo, &mut disk, 0).unwrap();
    assert!(!repo.is_on_latest_checkpoint());

    assert_eq!(
        stats(&repo, &disk, &["main.rs"]),
        (0, 0),
        "after restoring c0, workspace matches c0 so main.rs reads clean"
    );
    assert_eq!(disk.read(&["lib.rs"]), b"// lib\npub fn a() {}\n");
    assert_eq!(stats(&repo, &disk, &["lib.rs"]), (0, 0));
    assert!(!disk.has(&["util.rs"]));

    disk.write(&["main.rs"], "fn main() { todo!() }\n");
    let (add, del) = stats(&repo, &disk, &["main.rs"]);
    assert!(
        add >= 1 && del >= 1,
        "editing main.rs while on c0 should diff against c0, got ({add}, {del})"
    );

    disk.write(&["main.rs"], "fn main() {}\n");
    restore(&mut repo, &mut disk, 2).unwrap();
    assert!(repo.is_on_latest_checkpoint());
}

// ---------------------------------------------------------------------------
// Per-commit additions/deletions stats
// ---------------------------------------------------------------------------

#[test]
fn first_commit_counts_all_lines_as_additions() {
    let (mut disk, mut repo) = fixture();
    disk.write(&["a.txt"], "one\ntwo\nthree\n");
    disk.write(&["b.txt"], "alpha\nbeta\n");
    commit(&mut repo, &disk, "c0");

    let c = &repo.commits[0];
    assert_eq!(c.additions, 5, "all 5 lines across both new files are additions");
    assert_eq!(c.deletions, 0, "a first commit deletes nothing");
}

#[test]
fn second_commit_counts_only_the_delta() {
    let (mut disk, mut repo) = fixture();
    disk.write(&["a.txt"], "one\ntwo\nthree\n");
    commit(&mut repo, &disk, "c0");

    disk.write(&["a.txt"], "one\nCHANGED\nthree\nfour\n");
    commit(&mut repo, &disk, "c1");

    let c = &repo.commits[1];
    assert_eq!((c.additions, c.deletions), (2, 1));
}

#[test]
fn commit_with_a_new_file_counts_its_lines_as_additions() {
    let (mut disk, mut repo) = fixture();
    disk.write(&["a.txt"], "x\n");
    commit(&mut repo, &disk, "c0");

    disk.write(&["new.txt"], "p\nq\nr\n");
    commit(&mut repo, &disk, "c1");

    let c = &repo.commits[1];
    assert_eq!(c.additions, 3);
    assert_eq!(c.deletions, 0);
}

#[test]
fn commit_with_a_deletion_counts_old_lines_as_deletions() {
    let (mut disk, mut repo) = fixture();
    disk.write(&["keep.txt"], "stays\n");
    disk.write(&["gone.txt"], "a\nb\nc\nd\n");
    commit(&mut repo, &disk, "c0");

    disk.delete(&["gone.txt"]);
    commit(&mut repo, &disk, "c1");

    let c = &repo.commits[1];
    assert_eq!(c.deletions, 4, "all 4 lines of the deleted file count as deletions");
    assert_eq!(c.additions, 0);
}

#[test]
fn mixed_commit_sums_all_three_buckets() {
    let (mut disk, mut repo) = fixture();
    disk.write(&["mod.txt"], "old1\nold2\n");
    disk.write(&["del.txt"], "g1\ng2\ng3\n");
    commit(&mut repo, &disk, "c0");

    disk.write(&["mod.txt"], "old1\nNEW\n");
    disk.delete(&["del.txt"]);
    disk.write(&["add.txt"], "n1\nn2\n");
    commit(&mut repo, &disk, "c1");

    let c = &repo.commits[1];
    assert_eq!((c.additions, c.deletions), (3, 4));
}

#[test]
fn binary_changes_contribute_zero_to_commit_stats() {
    let (mut disk, mut repo) = fixture();
    disk.write(&["code.txt"], "line one\n");
    disk.write(&["img.png"], [0x89u8, b'P', b'N', b'G', 0x00, 0x01]);
    commit(&mut repo, &disk, "c0");

    disk.write(&["code.txt"], "line one\nline two\n");
    disk.write(&["img.png"], [0x89u8, b'P', b'N', b'G', 0x00, 0x02, 0x03]);
    commit(&mut repo, &disk, "c1");

    let c = &repo.commits[1];
    assert_eq!(c.additions, 1, "only the text line counts; the binary edit is 0");
    assert_eq!(c.deletions, 0);
}

#[test]
fn binary_only_commit_records_zero_stats_but_still_commits() {
    let (mut disk, mut repo) = fixture();
    disk.write(&["data.bin"], [0x00u8, 0x01, 0x02]);
    commit(&mut repo, &disk, "c0");

    disk.write(&["data.bin"], [0x00u8, 0x01, 0x02, 0x03, 0x04]);
    let result = commit(&mut repo, &disk, "c1");

    assert_eq!(result, CommitResult::Success, "binary change is a real commit");
    let c = &repo.commits[1];
    assert_eq!((c.additions, c.deletions), (0, 0));
}

#[test]
fn file_hashes_are_the_sha256_of_their_contents() {
    let (mut disk, mut repo) = fixture();
    disk.write(&["a.txt"], "abc");
    commit(&mut repo, &disk, "c0");
    let h = hash_of(&repo, 0, &rel(&["a.txt"]));
    let hex: String = h.iter().map(|b| format!("{b:02x}")).collect();
    assert_eq!(hex, "ba7816bf8f01cfea414140de5dae2223b00361a396177a9cb410ff61f20015ad");
    assert_eq!(repo.file_data.get(&h).unwrap().0, b"abc");
}

#[test]
fn restore_plan_lists_the_checkpoint_files_with_their_contents() {
    let (mut disk, mut repo) = fixture();
    disk.write(&["a.txt"], "one");
    disk.write(&["d", "b.bin"], [0u8, 255, 7]);
    commit(&mut repo, &disk, "c0");
    let plan = repo.restore_plan(0).unwrap();
    let got: BTreeMap<Vec<String>, Vec<u8>> =
        plan.into_iter().map(|(p, d)| (p.parts, d.0)).collect();
    let want: BTreeMap<Vec<String>, Vec<u8>> = [
        (strings(&["a.txt"]), b"one".to_vec()),
        (strings(&["d", "b.bin"]), vec![0u8, 255, 7]),
    ]
    .into_iter()
    .collect();
    assert_eq!(got, want);
    match repo.restore_plan(1) {
        Err(e) => assert_eq!(e.describe(), "Attempting to restore to a checkpoint that does not exist."),
        Ok(_) => panic!("no such checkpoint"),
    }
}

#[test]
fn commit_with_a_pointer_out_of_range_is_refused() {
    let (mut disk, mut repo) = fixture();
    disk.write(&["a.txt"], "v1");
    commit(&mut repo, &disk, "c0");
    repo.current_checkpoint = Some(99);
    match repo.create_commit(&disk.root, "x".into(), String::new(), Ok(disk.scan())) {
        Err(e) => assert_eq!(e.describe(), "Attempted to create commit when on old checkpoint."),
        Ok(r) => panic!("unexpected {r:?}"),
    }
    assert_eq!(repo.commits.len(), 1);
}
