//! The checkpoint repository: stored file contents addressed by their
//! SHA-256 hash, the list of checkpoints (commits), and which of them the
//! project folder currently holds.
use vstd::prelude::*;
use crate::diff::{
    LineTag, count_changes, count_tag, diff_line_count, diff_lines, lemma_count_tag_absent, line_diff,
};
use crate::err::Reason;
use vstd::utf8::decode_utf8;
use crate::text::{chars_of, crlf_to_lf, decimal_digits, push_decimal, spec_crlf_to_lf, string_of};
use crate::utilities::{
    FileType, classify_file, decode_utf16, spec_classify, string_from_utf8_lossy, utf16_lossy,
    utf16_units, utf8_lossy,
};
use crate::file_system::{ProjectRoot, spec_is_trackable};
use crate::path::{FsPath, PathView, spec_display, spec_starts_with, spec_strip_prefix};
use crate::repo_laws::{
    content_addressed, distinct_files, lemma_commit_keeps_repo_consistent,
    lemma_commit_leaves_clean_workspace,
};

verus! {

/// The SHA-256 hash of a file's contents.
pub type FileHash = [u8; 32];

/// What `sha2::Sha256::digest` gives for `data`.
pub uninterp spec fn sha256(data: Seq<u8>) -> Seq<u8>;

/// `sha2::Sha256::digest(data)`, as an array.  The contract names the
/// result.
#[verifier::external_body]
pub(crate) fn sha256_digest(data: &[u8]) -> (r: FileHash)
    ensures
        r@ == sha256(data@),
{
    <sha2::Sha256 as sha2::Digest>::digest(data).into()
}

/// Whether two hashes are equal.
pub fn hash_eq(a: &FileHash, b: &FileHash) -> (r: bool)
    ensures
        r == (a@ == b@),
{
    let mut i: usize = 0;
    while i < 32
        invariant
            i <= 32,
            a@.len() == 32,
            b@.len() == 32,
            forall|j: int| 0 <= j < i ==> a@[j] == b@[j],
        decreases 32 - i,
    {
        if a[i] != b[i] {
            return false;
        }
        i = i + 1;
    }
    assert(a@ =~= b@);
    true
}

/// A copy of `b`.
pub fn copy_bytes(b: &[u8]) -> (r: Vec<u8>)
    ensures
        r@ == b@,
{
    let mut r: Vec<u8> = Vec::new();
    let mut i: usize = 0;
    while i < b.len()
        invariant
            i <= b@.len(),
            r@ == b@.take(i as int),
        decreases b@.len() - i,
    {
        r.push(b[i]);
        i = i + 1;
    }
    assert(b@.take(b@.len() as int) =~= b@);
    r
}

/// The contents of a file.
#[derive(Debug, PartialEq, Eq)]
pub struct FileData(pub Vec<u8>);

impl View for FileData {
    type V = Seq<u8>;

    open spec fn view(&self) -> Seq<u8> {
        self.0@
    }
}

impl Clone for FileData {
    fn clone(&self) -> (r: Self)
        ensures
            r@ == self@,
    {
        FileData(copy_bytes(self.0.as_slice()))
    }
}

/// File contents keyed by their hash; no hash occurs twice.
#[derive(Debug)]
pub struct FileStore {
    entries: Vec<(FileHash, FileData)>,
}

impl FileStore {
    #[verifier::type_invariant]
    spec fn keys_unique(self) -> bool {
        forall|i: int, j: int|
            0 <= i < self.entries@.len() && 0 <= j < self.entries@.len() && i != j
                ==> self.entries@[i].0@ != self.entries@[j].0@
    }

    spec fn has_key_at(self, k: Seq<u8>) -> bool {
        exists|i: int| 0 <= i < self.entries@.len() && self.entries@[i].0@ == k
    }

    spec fn index_of(self, k: Seq<u8>) -> int {
        choose|i: int| 0 <= i < self.entries@.len() && self.entries@[i].0@ == k
    }
}

impl View for FileStore {
    type V = Map<Seq<u8>, Seq<u8>>;

    closed spec fn view(&self) -> Map<Seq<u8>, Seq<u8>> {
        Map::new(|k: Seq<u8>| self.has_key_at(k), |k: Seq<u8>| self.entries@[self.index_of(k)].1@)
    }
}

impl FileStore {
    proof fn lemma_entry(self, i: int)
        requires
            self.keys_unique(),
            0 <= i < self.entries@.len(),
        ensures
            self@.contains_key(self.entries@[i].0@),
            self@[self.entries@[i].0@] == self.entries@[i].1@,
    {
        let k = self.entries@[i].0@;
        assert(self.has_key_at(k));
        let j = self.index_of(k);
        assert(j == i);
    }

    /// Whether every stored content is keyed by its own SHA-256 hash.
    pub open spec fn content_addressed(self) -> bool {
        forall|k: Seq<u8>| #[trigger] self@.contains_key(k) ==> sha256(self@[k]) == k
    }

    pub fn new() -> (r: FileStore)
        ensures
            r@ == Map::<Seq<u8>, Seq<u8>>::empty(),
    {
        let r = FileStore { entries: Vec::new() };
        assert(r@ =~= Map::<Seq<u8>, Seq<u8>>::empty());
        r
    }

    /// The number of stored contents.
    pub fn len(&self) -> (r: usize)
        ensures
            r as nat == self@.dom().len(),
    {
        proof {
            use_type_invariant(self);
            self.lemma_len();
        }
        self.entries.len()
    }

    proof fn lemma_len(self)
        requires
            self.keys_unique(),
        ensures
            self@.dom().len() == self.entries@.len(),
        decreases self.entries@.len(),
    {
        let keys = self.entries@.map_values(|e: (FileHash, FileData)| e.0@);
        assert forall|i: int, j: int| 0 <= i < j < keys.len() implies keys[i] != keys[j] by {}
        assert(keys.no_duplicates());
        assert(self@.dom() =~= keys.to_set()) by {
            assert forall|k: Seq<u8>| self@.dom().contains(k) implies keys.to_set().contains(k) by {
                let i = self.index_of(k);
                assert(keys[i] == k);
            }
            assert forall|k: Seq<u8>| keys.to_set().contains(k) implies self@.dom().contains(k) by {
                let i = choose|i: int| 0 <= i < keys.len() && keys[i] == k;
                assert(self.entries@[i].0@ == k);
            }
        }
        keys.unique_seq_to_set();
    }

    /// The position of the content stored under `hash`.
    fn find(&self, hash: &FileHash) -> (r: Option<usize>)
        ensures
            r matches Some(i) ==> i < self.entries@.len() && self.entries@[i as int].0@ == hash@,
            r is None ==> !self@.contains_key(hash@),
    {
        let mut i: usize = 0;
        while i < self.entries.len()
            invariant
                i <= self.entries@.len(),
                forall|j: int| 0 <= j < i ==> self.entries@[j].0@ != hash@,
            decreases self.entries@.len() - i,
        {
            if hash_eq(&self.entries[i].0, hash) {
                return Some(i);
            }
            i = i + 1;
        }
        None
    }

    /// Whether content is stored under `hash`.
    pub fn contains_key(&self, hash: &FileHash) -> (r: bool)
        ensures
            r == self@.contains_key(hash@),
    {
        proof {
            use_type_invariant(self);
        }
        match self.find(hash) {
            Some(i) => {
                proof {
                    self.lemma_entry(i as int);
                }
                true
            },
            None => false,
        }
    }

    /// The content stored under `hash`.
    pub fn get(&self, hash: &FileHash) -> (r: Option<&FileData>)
        ensures
            r matches Some(d) ==> self@.contains_key(hash@) && d@ == self@[hash@],
            r is None ==> !self@.contains_key(hash@),
    {
        proof {
            use_type_invariant(self);
        }
        match self.find(hash) {
            Some(i) => {
                proof {
                    self.lemma_entry(i as int);
                }
                Some(&self.entries[i].1)
            },
            None => None,
        }
    }

    /// Stores `data` under `hash`, replacing what was stored there.
    pub fn insert(&mut self, hash: FileHash, data: FileData)
        ensures
            final(self)@ == old(self)@.insert(hash@, data@),
    {
        proof {
            use_type_invariant(&*self);
        }
        let ghost old_entries = self.entries@;
        let ghost old_self = *self;
        let found = self.find(&hash);
        let mut entries: Vec<(FileHash, FileData)> = Vec::new();
        std::mem::swap(&mut entries, &mut self.entries);
        match found {
            Some(i) => {
                entries.set(i, (hash, data));
            },
            None => {
                proof {
                    assert forall|j: int| 0 <= j < old_entries.len() implies old_entries[j].0@
                        != hash@ by {
                        if old_entries[j].0@ == hash@ {
                            old_self.lemma_entry(j);
                        }
                    }
                }
                entries.push((hash, data));
            },
        }
        proof {
            assert forall|i: int, j: int|
                0 <= i < entries@.len() && 0 <= j < entries@.len() && i != j implies entries@[i].0@
                != entries@[j].0@ by {
                match found {
                    Some(f) => {
                        if i == f {
                            assert(old_entries[i].0@ == hash@);
                        }
                        if j == f {
                            assert(old_entries[j].0@ == hash@);
                        }
                    },
                    None => {},
                }
            }
        }
        self.entries = entries;
        proof {
            let new_self = *self;
            assert(new_self.keys_unique());
            assert(new_self@ =~= old_self@.insert(hash@, data@)) by {
                assert forall|k: Seq<u8>|
                    new_self@.contains_key(k) == old_self@.insert(hash@, data@).contains_key(
                        k,
                    ) by {
                    if new_self.has_key_at(k) {
                        let j = new_self.index_of(k);
                        if k != hash@ {
                            assert(old_entries[j] == new_self.entries@[j]);
                            assert(old_self.has_key_at(k));
                        }
                    }
                    if old_self.has_key_at(k) {
                        let j = old_self.index_of(k);
                        if k != hash@ {
                            assert(new_self.entries@[j] == old_entries[j]);
                            assert(new_self.has_key_at(k));
                        }
                    }
                    if k == hash@ {
                        match found {
                            Some(i) => assert(new_self.entries@[i as int].0@ == k),
                            None => assert(new_self.entries@[old_entries.len() as int].0@ == k),
                        }
                    }
                }
                assert forall|k: Seq<u8>| #[trigger]
                    new_self@.contains_key(k) implies new_self@[k] == old_self@.insert(
                    hash@,
                    data@,
                )[k] by {
                    let j = new_self.index_of(k);
                    new_self.lemma_entry(j);
                    if k != hash@ {
                        assert(old_entries[j] == new_self.entries@[j]);
                        old_self.lemma_entry(j);
                    }
                }
            }
        }
    }

    /// The stored entries, each a hash and the content stored under it.
    pub fn entries(&self) -> (r: &Vec<(FileHash, FileData)>)
        ensures
            forall|i: int|
                0 <= i < r@.len() ==> self@.contains_key(#[trigger] r@[i].0@) && self@[r@[i].0@]
                    == r@[i].1@,
            forall|k: Seq<u8>|
                self@.contains_key(k) ==> exists|i: int| 0 <= i < r@.len() && #[trigger] r@[i].0@ == k,
    {
        proof {
            use_type_invariant(self);
            assert forall|i: int| 0 <= i < self.entries@.len() implies self@.contains_key(
                #[trigger] self.entries@[i].0@,
            ) && self@[self.entries@[i].0@] == self.entries@[i].1@ by {
                self.lemma_entry(i);
            }
        }
        &self.entries
    }
}

/// A point in time: whole seconds since the Unix epoch and nanoseconds.
#[derive(Debug, Clone, Copy, PartialEq, Eq, Structural)]
pub struct Timestamp {
    pub secs: i64,
    pub nanos: u32,
}

pub open spec fn total_nanos(t: Timestamp) -> int {
    t.secs * 1_000_000_000 + t.nanos
}

/// The current local time (`chrono::Local::now()`).  Nothing is stated of
/// the result: it is the clock's reading.
#[verifier::external_body]
pub(crate) fn now() -> (r: Timestamp) {
    let t = chrono::Local::now();
    Timestamp { secs: t.timestamp(), nanos: t.timestamp_subsec_nanos() }
}

/// One checkpoint: its name, the files it holds (relative path and content
/// hash), a description, when it was made, and its line statistics.
#[derive(Debug)]
pub struct Commit {
    pub message: String,
    pub files: Vec<(FsPath, FileHash)>,
    pub description: String,
    pub timestamp: Timestamp,
    pub additions: usize,
    pub deletions: usize,
}

#[verifier::ext_equal]
pub struct CommitView {
    pub message: Seq<char>,
    pub files: Seq<(PathView, Seq<u8>)>,
    pub description: Seq<char>,
    pub timestamp: Timestamp,
    pub additions: usize,
    pub deletions: usize,
}

pub open spec fn files_view(v: Seq<(FsPath, FileHash)>) -> Seq<(PathView, Seq<u8>)> {
    v.map_values(|e: (FsPath, FileHash)| (e.0@, e.1@))
}

impl View for Commit {
    type V = CommitView;

    open spec fn view(&self) -> CommitView {
        CommitView {
            message: self.message@,
            files: files_view(self.files@),
            description: self.description@,
            timestamp: self.timestamp,
            additions: self.additions,
            deletions: self.deletions,
        }
    }
}

/// A copy of a list of commit entries.
pub fn clone_files(v: &Vec<(FsPath, FileHash)>) -> (r: Vec<(FsPath, FileHash)>)
    ensures
        files_view(r@) == files_view(v@),
{
    let mut r: Vec<(FsPath, FileHash)> = Vec::new();
    let mut i: usize = 0;
    while i < v.len()
        invariant
            i <= v@.len(),
            files_view(r@) == files_view(v@).take(i as int),
        decreases v@.len() - i,
    {
        let p = v[i].0.clone();
        let h = v[i].1;
        proof {
            assert(files_view(r@.push((p, h))) =~= files_view(r@).push((p@, h@)));
            assert(files_view(v@)[i as int] == (v@[i as int].0@, v@[i as int].1@));
            assert(files_view(r@).push((p@, h@)) =~= files_view(v@).take(i + 1));
        }
        r.push((p, h));
        i = i + 1;
    }
    assert(files_view(v@).take(v@.len() as int) =~= files_view(v@));
    r
}

impl Clone for Commit {
    fn clone(&self) -> (r: Self)
        ensures
            r@ == self@,
    {
        Commit {
            message: self.message.clone(),
            files: clone_files(&self.files),
            description: self.description.clone(),
            timestamp: self.timestamp,
            additions: self.additions,
            deletions: self.deletions,
        }
    }
}

impl Commit {
    /// A commit made now.
    pub fn new(
        message: String,
        description: String,
        files: Vec<(FsPath, FileHash)>,
        additions: usize,
        deletions: usize,
    ) -> (r: Self)
        ensures
            r.message == message,
            r.description == description,
            r.files == files,
            r.additions == additions,
            r.deletions == deletions,
    {
        Commit { message, description, files, timestamp: now(), additions, deletions }
    }
}

/// What creating a commit did.
#[derive(Debug, Clone, Copy, PartialEq, Eq, Structural)]
pub enum CommitResult {
    Success,
    NoOp,
}

/// The saved state of a project.
#[derive(Debug)]
pub struct Repo {
    pub file_data: FileStore,
    pub commits: Vec<Commit>,
    pub current_checkpoint: Option<usize>,
}

#[verifier::ext_equal]
pub struct RepoView {
    pub blobs: Map<Seq<u8>, Seq<u8>>,
    pub commits: Seq<CommitView>,
    pub current: Option<usize>,
}

pub open spec fn commits_view(v: Seq<Commit>) -> Seq<CommitView> {
    v.map_values(|c: Commit| c@)
}

impl View for Repo {
    type V = RepoView;

    open spec fn view(&self) -> RepoView {
        RepoView {
            blobs: self.file_data@,
            commits: commits_view(self.commits@),
            current: self.current_checkpoint,
        }
    }
}

/// The checkpoint pointer is absent or names a commit.
pub open spec fn current_in_range(r: RepoView) -> bool {
    r.current matches Some(c) ==> c < r.commits.len()
}

/// Every file of every commit has its content stored.
pub open spec fn contents_present(r: RepoView) -> bool {
    forall|i: int, j: int|
        0 <= i < r.commits.len() && 0 <= j < r.commits[i].files.len() ==> r.blobs.contains_key(
            #[trigger] r.commits[i].files[j].1,
        )
}

/// A consistent repository.
pub open spec fn repo_wf(r: RepoView) -> bool {
    current_in_range(r) && contents_present(r)
}

/// The files of the checkpoint the project is on (none before the first).
pub open spec fn current_files(r: RepoView) -> Seq<(PathView, Seq<u8>)> {
    match r.current {
        Some(c) => r.commits[c as int].files,
        None => Seq::empty(),
    }
}

pub open spec fn spec_is_on_latest(r: RepoView) -> bool {
    match r.current {
        Some(c) => c + 1 == r.commits.len(),
        None => r.commits.len() == 0,
    }
}

pub open spec fn pointer_message() -> Seq<char> {
    "Project data is inconsistent (checkpoint pointer out of range). Refusing to open; data.json has not been modified."@
}

pub open spec fn missing_data_message(commit: Seq<char>, path: PathView) -> Seq<char> {
    "Project data is inconsistent: checkpoint '"@ + commit + "' references missing data for "@
        + spec_display(path) + ". Refusing to open; data.json has not been modified."@
}

/// Entry `j` of commit `i` refers to content that is not stored.
pub open spec fn entry_missing(r: RepoView, i: int, j: int) -> bool {
    0 <= i < r.commits.len() && 0 <= j < r.commits[i].files.len() && !r.blobs.contains_key(
        r.commits[i].files[j].1,
    )
}

/// Entry `(i, j)` comes before entry `(i2, j2)` in commit order.
pub open spec fn entry_before(i2: int, j2: int, i: int, j: int) -> bool {
    i2 < i || (i2 == i && j2 < j)
}

impl Repo {
    pub fn new() -> (r: Self)
        ensures
            r@.commits.len() == 0,
            r@.blobs == Map::<Seq<u8>, Seq<u8>>::empty(),
            r@.current is None,
    {
        let r = Repo { commits: Vec::new(), file_data: FileStore::new(), current_checkpoint: None };
        assert(r@.commits =~= Seq::<CommitView>::empty());
        r
    }

    /// The commit the project is on.
    pub fn last_commit(&self) -> (r: Option<Commit>)
        requires
            current_in_range(self@),
        ensures
            r is Some <==> self@.current is Some,
            r matches Some(c) ==> c@ == self@.commits[self@.current->0 as int],
    {
        match self.current_checkpoint {
            Some(latest) => Some(self.commits[latest].clone()),
            None => None,
        }
    }

    /// Returns true if the current commit is the last commit.
    pub fn is_on_latest_checkpoint(&self) -> (r: bool)
        ensures
            r == spec_is_on_latest(self@),
    {
        match self.current_checkpoint {
            Some(commit) => commit < self.commits.len() && commit + 1 == self.commits.len(),
            None => self.commits.len() == 0,
        }
    }

    /// Admits a repository read from the saved state (`None` when there was
    /// none, which gives a fresh repository): it is refused, unchanged on
    /// disk, when its checkpoint pointer is out of range or a commit refers
    /// to content that is not stored.
    pub fn load_project(stored: Option<Repo>) -> (r: Result<Repo, Reason>)
        ensures
            stored is None ==> (r matches Ok(fresh) && fresh@.commits.len() == 0
                && fresh@.current is None && fresh@.blobs == Map::<Seq<u8>, Seq<u8>>::empty()),
            stored matches Some(s) ==> {
                &&& !current_in_range(s@) ==> (r matches Err(Reason::Other(m)) && m@
                    == pointer_message())
                &&& current_in_range(s@) && contents_present(s@) ==> (r matches Ok(loaded)
                    && loaded == s)
                &&& current_in_range(s@) && !contents_present(s@) ==> (r matches Err(
                    Reason::Other(m),
                ) && exists|i: int, j: int|
                    #![trigger entry_missing(s@, i, j)]
                    entry_missing(s@, i, j) && (forall|i2: int, j2: int|
                        entry_before(i2, j2, i, j) ==> !entry_missing(s@, i2, j2)) && m@
                        == missing_data_message(s@.commits[i].message, s@.commits[i].files[j].0))
            },
            r matches Ok(loaded) ==> repo_wf(loaded@),
    {
        match stored {
            None => Ok(Repo::new()),
            Some(repo) => Self::validate_loaded(repo),
        }
    }

    fn validate_loaded(repo: Repo) -> (r: Result<Repo, Reason>)
        ensures
            !current_in_range(repo@) ==> (r matches Err(Reason::Other(m)) && m@
                == pointer_message()),
            current_in_range(repo@) && contents_present(repo@) ==> (r matches Ok(loaded)
                && loaded == repo),
            current_in_range(repo@) && !contents_present(repo@) ==> (r matches Err(
                Reason::Other(m),
            ) && exists|i: int, j: int|
                #![trigger entry_missing(repo@, i, j)]
                entry_missing(repo@, i, j) && (forall|i2: int, j2: int|
                    entry_before(i2, j2, i, j) ==> !entry_missing(repo@, i2, j2)) && m@
                    == missing_data_message(repo@.commits[i].message, repo@.commits[i].files[j].0)),
            r matches Ok(loaded) ==> repo_wf(loaded@),
    {
        // Validate before handing the repo to anyone. On any inconsistency:
        // refuse without modifying anything.
        match repo.current_checkpoint {
            Some(c) => {
                if c >= repo.commits.len() {
                    return Err(
                        Reason::Other(
                            String::from_str(
                                "Project data is inconsistent (checkpoint pointer out of range). Refusing to open; data.json has not been modified.",
                            ),
                        ),
                    );
                }
            },
            None => {},
        }
        let mut i: usize = 0;
        while i < repo.commits.len()
            invariant
                i <= repo.commits@.len(),
                current_in_range(repo@),
                forall|i2: int, j2: int| 0 <= i2 < i ==> !entry_missing(repo@, i2, j2),
            decreases repo.commits@.len() - i,
        {
            let commit = &repo.commits[i];
            let mut j: usize = 0;
            while j < commit.files.len()
                invariant
                    i < repo.commits@.len(),
                    current_in_range(repo@),
                    commit == &repo.commits@[i as int],
                    j <= commit.files@.len(),
                    forall|i2: int, j2: int| 0 <= i2 < i ==> !entry_missing(repo@, i2, j2),
                    forall|j2: int| 0 <= j2 < j ==> !entry_missing(repo@, i as int, j2),
                decreases commit.files@.len() - j,
            {
                if !repo.file_data.contains_key(&commit.files[j].1) {
                    let mut m = String::from_str("Project data is inconsistent: checkpoint '");
                    m.append(commit.message.as_str());
                    m.append("' references missing data for ");
                    m.append(commit.files[j].0.display().as_str());
                    m.append(". Refusing to open; data.json has not been modified.");
                    proof {
                        assert(repo@.commits[i as int].files[j as int] == (
                            commit.files@[j as int].0@,
                            commit.files@[j as int].1@,
                        ));
                        assert(entry_missing(repo@, i as int, j as int));
                        assert forall|i2: int, j2: int|
                            entry_before(i2, j2, i as int, j as int) implies !entry_missing(
                            repo@,
                            i2,
                            j2,
                        ) by {}
                    }
                    return Err(Reason::Other(m));
                }
                proof {
                    assert(repo@.commits[i as int].files[j as int].1 == commit.files@[j as int].1@);
                }
                j = j + 1;
            }
            i = i + 1;
        }
        proof {
            assert forall|i2: int, j2: int|
                0 <= i2 < repo@.commits.len() && 0 <= j2 < repo@.commits[i2].files.len()
                    implies repo@.blobs.contains_key(#[trigger] repo@.commits[i2].files[j2].1) by {
                assert(!entry_missing(repo@, i2, j2));
            }
        }
        Ok(repo)
    }
}

/// The changes of the project folder against the checkpoint it is on:
/// new and modified files with their hash and, when the repository does not
/// hold it yet, their content; and the files that were deleted.
#[derive(Debug)]
pub struct WorkspaceDelta {
    pub new_files: Vec<(FsPath, FileHash, Option<FileData>)>,
    pub changed_files: Vec<(FsPath, FileHash, Option<FileData>)>,
    pub deleted_files: Vec<FsPath>,
}

impl WorkspaceDelta {
    pub fn is_noop(&self) -> (r: bool)
        ensures
            r == (self.new_files@.len() == 0 && self.changed_files@.len() == 0
                && self.deleted_files@.len() == 0),
    {
        self.new_files.len() == 0 && self.changed_files.len() == 0 && self.deleted_files.len() == 0
    }
}

/// A file found in the project folder: its canonical path and contents.
pub struct WorkspaceFile {
    pub path: FsPath,
    pub data: Vec<u8>,
}

/// What the project folder holds: its canonical path, the files found in
/// it, and other paths relative to it that are known to exist (a path that
/// a listed file has need not be repeated here).
pub struct Workspace {
    pub project_path: FsPath,
    pub files: Vec<WorkspaceFile>,
    pub existing: Vec<FsPath>,
}

#[verifier::ext_equal]
pub struct WorkspaceView {
    pub project: PathView,
    pub files: Seq<(PathView, Seq<u8>)>,
    pub existing: Seq<PathView>,
}

pub open spec fn workspace_files_view(v: Seq<WorkspaceFile>) -> Seq<(PathView, Seq<u8>)> {
    v.map_values(|f: WorkspaceFile| (f.path@, f.data@))
}

pub open spec fn paths_view(v: Seq<FsPath>) -> Seq<PathView> {
    v.map_values(|p: FsPath| p@)
}

impl View for Workspace {
    type V = WorkspaceView;

    open spec fn view(&self) -> WorkspaceView {
        WorkspaceView {
            project: self.project_path@,
            files: workspace_files_view(self.files@),
            existing: paths_view(self.existing@),
        }
    }
}

/// A new or modified file of a delta: its relative path, its hash, and its
/// contents when the repository does not hold them yet.
pub type DeltaEntryView = (PathView, Seq<u8>, Option<Seq<u8>>);

pub open spec fn data_view(d: Option<FileData>) -> Option<Seq<u8>> {
    match d {
        Some(x) => Some(x@),
        None => None,
    }
}

pub open spec fn entries_view(v: Seq<(FsPath, FileHash, Option<FileData>)>) -> Seq<DeltaEntryView> {
    v.map_values(|e: (FsPath, FileHash, Option<FileData>)| (e.0@, e.1@, data_view(e.2)))
}

#[verifier::ext_equal]
pub struct DeltaView {
    pub new_files: Seq<DeltaEntryView>,
    pub changed_files: Seq<DeltaEntryView>,
    pub deleted_files: Seq<PathView>,
}

impl View for WorkspaceDelta {
    type V = DeltaView;

    open spec fn view(&self) -> DeltaView {
        DeltaView {
            new_files: entries_view(self.new_files@),
            changed_files: entries_view(self.changed_files@),
            deleted_files: paths_view(self.deleted_files@),
        }
    }
}

pub open spec fn delta_is_noop(d: DeltaView) -> bool {
    d.new_files.len() == 0 && d.changed_files.len() == 0 && d.deleted_files.len() == 0
}

/// How a file of the project folder compares with the checkpoint.
#[derive(Debug, Clone, Copy, PartialEq, Eq, Structural)]
pub enum FileStatus {
    Unchanged,
    Modified,
    New,
}

/// Some entry of `files` has path `p`.
pub open spec fn has_path(files: Seq<(PathView, Seq<u8>)>, p: PathView) -> bool {
    exists|i: int| 0 <= i < files.len() && #[trigger] files[i].0 == p
}

/// A file with path `rel` and hash `h` is unchanged when the checkpoint
/// holds exactly that entry, modified when it holds the path with another
/// hash, and new otherwise.
pub open spec fn spec_file_status(
    files: Seq<(PathView, Seq<u8>)>,
    rel: PathView,
    h: Seq<u8>,
) -> FileStatus {
    if files.contains((rel, h)) {
        FileStatus::Unchanged
    } else if has_path(files, rel) {
        FileStatus::Modified
    } else {
        FileStatus::New
    }
}

/// What the delta records of one file of the project folder: nothing for an
/// untracked or unchanged file; else its status and entry.
pub open spec fn workspace_entry(
    r: RepoView,
    root: PathView,
    ws: WorkspaceView,
    f: (PathView, Seq<u8>),
) -> Option<(FileStatus, DeltaEntryView)> {
    if !spec_is_trackable(root, f.0) {
        None
    } else {
        let rel = spec_strip_prefix(f.0, ws.project)->0;
        let h = sha256(f.1);
        let st = spec_file_status(current_files(r), rel, h);
        if st == FileStatus::Unchanged {
            None
        } else {
            Some(
                (
                    st,
                    (
                        rel,
                        h,
                        if r.blobs.contains_key(h) {
                            None
                        } else {
                            Some(f.1)
                        },
                    ),
                ),
            )
        }
    }
}

/// The entries with status `st` among `files`, in order.
pub open spec fn delta_bucket(
    r: RepoView,
    root: PathView,
    ws: WorkspaceView,
    files: Seq<(PathView, Seq<u8>)>,
    st: FileStatus,
) -> Seq<DeltaEntryView>
    decreases files.len(),
{
    if files.len() == 0 {
        Seq::empty()
    } else {
        let prev = delta_bucket(r, root, ws, files.drop_last(), st);
        match workspace_entry(r, root, ws, files.last()) {
            Some(e) => if e.0 == st {
                prev.push(e.1)
            } else {
                prev
            },
            None => prev,
        }
    }
}

/// Path `p`, relative to the project folder, exists there.
pub open spec fn present(ws: WorkspaceView, p: PathView) -> bool {
    ||| ws.existing.contains(p)
    ||| exists|i: int|
        0 <= i < ws.files.len() && spec_strip_prefix(#[trigger] ws.files[i].0, ws.project) == Some(
            p,
        )
}

/// The paths of `files` that no longer exist, in order.
pub open spec fn deleted_paths(files: Seq<(PathView, Seq<u8>)>, ws: WorkspaceView) -> Seq<PathView>
    decreases files.len(),
{
    if files.len() == 0 {
        Seq::empty()
    } else {
        let prev = deleted_paths(files.drop_last(), ws);
        if present(ws, files.last().0) {
            prev
        } else {
            prev.push(files.last().0)
        }
    }
}

/// The changes of the project folder against the checkpoint it is on.
pub open spec fn spec_delta(r: RepoView, root: PathView, ws: WorkspaceView) -> DeltaView {
    DeltaView {
        new_files: delta_bucket(r, root, ws, ws.files, FileStatus::New),
        changed_files: delta_bucket(r, root, ws, ws.files, FileStatus::Modified),
        deleted_files: deleted_paths(current_files(r), ws),
    }
}

/// Every tracked file lies in the project folder.
pub open spec fn workspace_inside(root: PathView, ws: WorkspaceView) -> bool {
    forall|i: int|
        0 <= i < ws.files.len() && spec_is_trackable(root, #[trigger] ws.files[i].0)
            ==> spec_starts_with(ws.files[i].0, ws.project)
}

impl Repo {
    /// How a file with relative path `relative` and hash `hash` compares
    /// with the checkpoint the project is on.
    pub fn file_status(&self, relative: &FsPath, hash: &FileHash) -> (r: FileStatus)
        requires
            current_in_range(self@),
        ensures
            r == spec_file_status(current_files(self@), relative@, hash@),
    {
        let ghost cur = current_files(self@);
        let empty: Vec<(FsPath, FileHash)> = Vec::new();
        let files = match self.current_checkpoint {
            Some(c) => &self.commits[c].files,
            None => &empty,
        };
        assert(files_view(files@) == cur);
        let mut found_path = false;
        let mut i: usize = 0;
        while i < files.len()
            invariant
                i <= files@.len(),
                files_view(files@) == cur,
                cur == current_files(self@),
                forall|j: int| 0 <= j < i ==> cur[j] != (relative@, hash@),
                found_path == exists|j: int| 0 <= j < i && #[trigger] cur[j].0 == relative@,
            decreases files@.len() - i,
        {
            let same_path = files[i].0.same(relative);
            if same_path && hash_eq(&files[i].1, hash) {
                assert(cur[i as int] == (files@[i as int].0@, files@[i as int].1@));
                assert(cur[i as int] == (relative@, hash@));
                assert(cur.contains((relative@, hash@)));
                return FileStatus::Unchanged;
            }
            if same_path {
                assert(cur[i as int].0 == relative@);
                found_path = true;
            }
            i = i + 1;
        }
        assert(!cur.contains((relative@, hash@)));
        if found_path {
            FileStatus::Modified
        } else {
            FileStatus::New
        }
    }

    /// Compares the project folder with the checkpoint the project is on.
    pub fn get_workspace_delta(&self, root: &ProjectRoot, workspace: &Workspace) -> (d: WorkspaceDelta)
        requires
            current_in_range(self@),
            workspace_inside(root@, workspace@),
        ensures
            d@ == spec_delta(self@, root@, workspace@),
    {
        let ghost ws = workspace@;
        let mut changed_files: Vec<(FsPath, FileHash, Option<FileData>)> = Vec::new();
        let mut new_files: Vec<(FsPath, FileHash, Option<FileData>)> = Vec::new();
        let mut i: usize = 0;
        while i < workspace.files.len()
            invariant
                i <= workspace.files@.len(),
                ws == workspace@,
                current_in_range(self@),
                workspace_inside(root@, ws),
                entries_view(changed_files@) == delta_bucket(
                    self@,
                    root@,
                    ws,
                    ws.files.take(i as int),
                    FileStatus::Modified,
                ),
                entries_view(new_files@) == delta_bucket(
                    self@,
                    root@,
                    ws,
                    ws.files.take(i as int),
                    FileStatus::New,
                ),
            decreases workspace.files@.len() - i,
        {
            let file = &workspace.files[i];
            let ghost fv = ws.files[i as int];
            proof {
                assert(fv == (file.path@, file.data@));
                assert(ws.files.take(i + 1).drop_last() =~= ws.files.take(i as int));
                assert(ws.files.take(i + 1).last() == fv);
            }
            if root.is_trackable(&file.path) {
                let relative = match file.path.strip_prefix(&workspace.project_path) {
                    Some(p) => p,
                    None => {
                        proof {
                            assert(spec_is_trackable(root@, ws.files[i as int].0));
                        }
                        file.path.clone()
                    },
                };
                let hash = sha256_digest(file.data.as_slice());
                let status = self.file_status(&relative, &hash);
                if status != FileStatus::Unchanged {
                    let data = if self.file_data.contains_key(&hash) {
                        None
                    } else {
                        Some(FileData(copy_bytes(file.data.as_slice())))
                    };
                    let ghost e = (relative@, hash@, data_view(data));
                    proof {
                        assert(workspace_entry(self@, root@, ws, fv) == Some((status, e)));
                    }
                    if status == FileStatus::Modified {
                        proof {
                            assert(entries_view(changed_files@.push((relative, hash, data)))
                                =~= entries_view(changed_files@).push(e));
                        }
                        changed_files.push((relative, hash, data));
                    } else {
                        proof {
                            assert(entries_view(new_files@.push((relative, hash, data)))
                                =~= entries_view(new_files@).push(e));
                        }
                        new_files.push((relative, hash, data));
                    }
                }
            }
            i = i + 1;
        }
        assert(ws.files.take(workspace.files@.len() as int) =~= ws.files);
        let deleted_files = self.deleted_files(workspace);
        WorkspaceDelta { changed_files, deleted_files, new_files }
    }

    /// The paths of the checkpoint the project is on that no longer exist.
    fn deleted_files(&self, workspace: &Workspace) -> (r: Vec<FsPath>)
        requires
            current_in_range(self@),
        ensures
            paths_view(r@) == deleted_paths(current_files(self@), workspace@),
    {
        let ghost ws = workspace@;
        let ghost cur = current_files(self@);
        // the relative path of every listed file
        let mut rels: Vec<Option<FsPath>> = Vec::new();
        let mut i: usize = 0;
        while i < workspace.files.len()
            invariant
                i <= workspace.files@.len(),
                ws == workspace@,
                rels@.len() == i,
                forall|j: int|
                    0 <= j < i ==> match #[trigger] rels@[j] {
                        Some(p) => spec_strip_prefix(ws.files[j].0, ws.project) == Some(p@),
                        None => spec_strip_prefix(ws.files[j].0, ws.project) is None,
                    },
            decreases workspace.files@.len() - i,
        {
            rels.push(workspace.files[i].path.strip_prefix(&workspace.project_path));
            i = i + 1;
        }
        let empty: Vec<(FsPath, FileHash)> = Vec::new();
        let files = match self.current_checkpoint {
            Some(c) => &self.commits[c].files,
            None => &empty,
        };
        assert(files_view(files@) == cur);
        let mut deleted: Vec<FsPath> = Vec::new();
        let mut k: usize = 0;
        while k < files.len()
            invariant
                k <= files@.len(),
                files_view(files@) == cur,
                ws == workspace@,
                rels@.len() == ws.files.len(),
                forall|j: int|
                    0 <= j < rels@.len() ==> match #[trigger] rels@[j] {
                        Some(p) => spec_strip_prefix(ws.files[j].0, ws.project) == Some(p@),
                        None => spec_strip_prefix(ws.files[j].0, ws.project) is None,
                    },
                paths_view(deleted@) == deleted_paths(cur.take(k as int), ws),
            decreases files@.len() - k,
        {
            let path = &files[k].0;
            let mut found = false;
            let mut q: usize = 0;
            while q < workspace.existing.len() && !found
                invariant
                    q <= workspace.existing@.len(),
                    ws == workspace@,
                    found ==> ws.existing.contains(path@),
                    !found ==> forall|j: int| 0 <= j < q ==> ws.existing[j] != path@,
                decreases workspace.existing@.len() - q,
            {
                if workspace.existing[q].same(path) {
                    assert(ws.existing[q as int] == path@);
                    found = true;
                }
                q = q + 1;
            }
            let mut q: usize = 0;
            while q < rels.len() && !found
                invariant
                    q <= rels@.len(),
                    ws == workspace@,
                    rels@.len() == ws.files.len(),
                    forall|j: int|
                        0 <= j < rels@.len() ==> match #[trigger] rels@[j] {
                            Some(p) => spec_strip_prefix(ws.files[j].0, ws.project) == Some(p@),
                            None => spec_strip_prefix(ws.files[j].0, ws.project) is None,
                        },
                    found ==> present(ws, path@),
                    !found ==> !ws.existing.contains(path@),
                    !found ==> forall|j: int|
                        0 <= j < q ==> spec_strip_prefix(#[trigger] ws.files[j].0, ws.project)
                            != Some(path@),
                decreases rels@.len() - q,
            {
                match &rels[q] {
                    Some(p) => {
                        if p.same(path) {
                            assert(spec_strip_prefix(ws.files[q as int].0, ws.project) == Some(
                                path@,
                            ));
                            found = true;
                        }
                    },
                    None => {},
                }
                q = q + 1;
            }
            proof {
                assert(cur.take(k + 1).drop_last() =~= cur.take(k as int));
                assert(cur.take(k + 1).last() == cur[k as int]);
                assert(cur[k as int].0 == path@);
                assert(found == present(ws, path@));
            }
            if !found {
                let p = path.clone();
                proof {
                    assert(paths_view(deleted@.push(p)) =~= paths_view(deleted@).push(p@));
                }
                deleted.push(p);
            }
            k = k + 1;
        }
        assert(cur.take(files@.len() as int) =~= cur);
        deleted
    }
}

/// The first index at or after `from` of an entry with path `p`, or the
/// length of `files`.
pub open spec fn path_index(files: Seq<(PathView, Seq<u8>)>, p: PathView, from: int) -> int
    decreases files.len() - from,
{
    if from >= files.len() {
        files.len() as int
    } else if files[from].0 == p {
        from
    } else {
        path_index(files, p, from + 1)
    }
}

pub proof fn lemma_path_index(files: Seq<(PathView, Seq<u8>)>, p: PathView, from: int, i: int)
    requires
        0 <= from <= i <= files.len(),
        forall|j: int| from <= j < i ==> files[j].0 != p,
        i == files.len() || files[i].0 == p,
    ensures
        path_index(files, p, from) == i,
    decreases i - from,
{
    if from < i {
        lemma_path_index(files, p, from + 1, i);
    }
}

pub proof fn lemma_path_index_range(files: Seq<(PathView, Seq<u8>)>, p: PathView, from: int)
    requires
        0 <= from <= files.len(),
    ensures
        from <= path_index(files, p, from) <= files.len(),
        forall|j: int| from <= j < path_index(files, p, from) ==> files[j].0 != p,
        path_index(files, p, from) < files.len() ==> files[path_index(files, p, from)].0 == p,
    decreases files.len() - from,
{
    if from < files.len() && files[from].0 != p {
        lemma_path_index_range(files, p, from + 1);
    }
}

/// The position of the first entry of `files` with path `p`.
pub fn find_path(files: &Vec<(FsPath, FileHash)>, p: &FsPath) -> (r: Option<usize>)
    ensures
        r matches Some(i) ==> i < files@.len() && i == path_index(files_view(files@), p@, 0),
        r is None ==> path_index(files_view(files@), p@, 0) == files@.len(),
{
    let ghost fv = files_view(files@);
    let mut i: usize = 0;
    while i < files.len()
        invariant
            i <= files@.len(),
            fv == files_view(files@),
            forall|j: int| 0 <= j < i ==> fv[j].0 != p@,
        decreases files@.len() - i,
    {
        if files[i].0.same(p) {
            proof {
                lemma_path_index(fv, p@, 0, i as int);
            }
            return Some(i);
        }
        i = i + 1;
    }
    proof {
        lemma_path_index(fv, p@, 0, files@.len() as int);
    }
    None
}

/// The text of data of the given type (nothing for binary data).
pub open spec fn decode_text(b: Seq<u8>, t: FileType) -> Seq<char> {
    match t {
        FileType::Utf8Like => utf8_lossy(b),
        FileType::Utf16 { little_endian } => utf16_lossy(utf16_units(b.skip(2), little_endian)),
        FileType::Binary => Seq::empty(),
    }
}

/// The numbers of added and deleted lines from `old` to `new`: none when
/// either side is binary; else those of the line diff of the two decoded
/// texts, with `\r\n` read as `\n`.
pub open spec fn spec_line_changes(old: Seq<u8>, new: Seq<u8>) -> (nat, nat) {
    let ot = spec_classify(old);
    let nt = spec_classify(new);
    if ot == FileType::Binary || nt == FileType::Binary {
        (0, 0)
    } else {
        let tags = line_diff(
            spec_crlf_to_lf(decode_text(old, ot)),
            spec_crlf_to_lf(decode_text(new, nt)),
        );
        (count_tag(tags, LineTag::Insert), count_tag(tags, LineTag::Delete))
    }
}

/// The stored content of `file` in the checkpoint the project is on; empty
/// when the checkpoint lacks the file or its content.
pub open spec fn old_bytes(r: RepoView, file: PathView) -> Seq<u8> {
    let cur = current_files(r);
    let i = path_index(cur, file, 0);
    if i < cur.len() && r.blobs.contains_key(cur[i].1) {
        r.blobs[cur[i].1]
    } else {
        Seq::empty()
    }
}

/// The text of data of type `t`, with `\r\n` read as `\n`.
fn normalized_text(bytes: &[u8], t: FileType) -> (r: String)
    requires
        t != FileType::Binary,
        t == spec_classify(bytes@),
    ensures
        r@ == spec_crlf_to_lf(decode_text(bytes@, t)),
        bytes@.len() == 0 ==> r@.len() == 0,
{
    let decoded = match t {
        FileType::Utf16 { little_endian } => decode_utf16(bytes, little_endian),
        _ => string_from_utf8_lossy(bytes),
    };
    proof {
        if bytes@.len() == 0 {
            assert(decoded@ == decode_utf8(bytes@));
        }
    }
    let chars = chars_of(decoded.as_str());
    let normalized = crlf_to_lf(chars.as_slice());
    string_of(normalized.as_slice())
}

/// The text that the line statistics read from data `b`.
pub open spec fn stats_text(b: Seq<u8>) -> Seq<char> {
    spec_crlf_to_lf(decode_text(b, spec_classify(b)))
}

/// The numbers of added and deleted lines from `old` to `new`.  The same
/// text on both sides counts nothing; from nothing only additions count, to
/// nothing only deletions.
pub fn line_changes(old: &[u8], new: &[u8]) -> (r: (usize, usize))
    ensures
        r.0 == spec_line_changes(old@, new@).0,
        r.1 == spec_line_changes(old@, new@).1,
        stats_text(old@) == stats_text(new@) ==> r == (0usize, 0usize),
        old@.len() == 0 ==> r.1 == 0,
        new@.len() == 0 ==> r.0 == 0,
        r.0 <= diff_line_count(stats_text(new@)),
        r.1 <= diff_line_count(stats_text(old@)),
        old@.len() == 0 && spec_classify(new@) != FileType::Binary ==> r.0 == diff_line_count(
            stats_text(new@),
        ),
        new@.len() == 0 && spec_classify(old@) != FileType::Binary ==> r.1 == diff_line_count(
            stats_text(old@),
        ),
        spec_classify(old@) != FileType::Binary && spec_classify(new@) != FileType::Binary ==> r.0
            - r.1 == diff_line_count(stats_text(new@)) - diff_line_count(stats_text(old@)),
{
    let old_type = classify_file(old);
    let new_type = classify_file(new);
    if old_type == FileType::Binary || new_type == FileType::Binary {
        return (0, 0);
    }
    let old_text = normalized_text(old, old_type);
    let new_text = normalized_text(new, new_type);
    let tags = diff_lines(old_text.as_str(), new_text.as_str());
    proof {
        if old_text@ == new_text@ {
            lemma_count_tag_absent(tags@, LineTag::Insert);
            lemma_count_tag_absent(tags@, LineTag::Delete);
        }
        if old@.len() == 0 {
            lemma_count_tag_absent(tags@, LineTag::Delete);
        }
        if new@.len() == 0 {
            lemma_count_tag_absent(tags@, LineTag::Insert);
        }
    }
    count_changes(tags.as_slice())
}

impl Repo {
    /// The numbers of lines added to and deleted from `file` (relative to
    /// the project folder), whose contents are now `new_bytes` (empty when
    /// it is gone), against the checkpoint the project is on.
    pub fn get_additions_deletions(&self, file: &FsPath, new_bytes: &[u8]) -> (r: (usize, usize))
        requires
            current_in_range(self@),
        ensures
            r.0 == spec_line_changes(old_bytes(self@, file@), new_bytes@).0,
            r.1 == spec_line_changes(old_bytes(self@, file@), new_bytes@).1,
            stats_text(old_bytes(self@, file@)) == stats_text(new_bytes@) ==> r == (0usize, 0usize),
            old_bytes(self@, file@).len() == 0 ==> r.1 == 0,
            new_bytes@.len() == 0 ==> r.0 == 0,
            r.0 <= diff_line_count(stats_text(new_bytes@)),
            r.1 <= diff_line_count(stats_text(old_bytes(self@, file@))),
            old_bytes(self@, file@).len() == 0 && spec_classify(new_bytes@) != FileType::Binary
                ==> r.0 == diff_line_count(stats_text(new_bytes@)),
            new_bytes@.len() == 0 && spec_classify(old_bytes(self@, file@)) != FileType::Binary
                ==> r.1 == diff_line_count(stats_text(old_bytes(self@, file@))),
            spec_classify(old_bytes(self@, file@)) != FileType::Binary && spec_classify(new_bytes@)
                != FileType::Binary ==> r.0 - r.1 == diff_line_count(stats_text(new_bytes@))
                - diff_line_count(stats_text(old_bytes(self@, file@))),
    {
        let fallback = FileData(Vec::new());
        let ghost cur = current_files(self@);
        let empty: Vec<(FsPath, FileHash)> = Vec::new();
        let files = match self.current_checkpoint {
            Some(c) => &self.commits[c].files,
            None => &empty,
        };
        assert(files_view(files@) == cur);
        let old = match find_path(files, file) {
            Some(i) => {
                assert(cur[i as int].1 == files@[i as int].1@);
                match self.file_data.get(&files[i].1) {
                    Some(d) => d,
                    None => &fallback,
                }
            },
            None => &fallback,
        };
        assert(old@ == old_bytes(self@, file@));
        line_changes(old.0.as_slice(), new_bytes)
    }
}

/// The entries of `files` whose path is not among `deleted`, in order.
pub open spec fn retained(files: Seq<(PathView, Seq<u8>)>, deleted: Seq<PathView>) -> Seq<
    (PathView, Seq<u8>),
>
    decreases files.len(),
{
    if files.len() == 0 {
        Seq::empty()
    } else {
        let prev = retained(files.drop_last(), deleted);
        if deleted.contains(files.last().0) {
            prev
        } else {
            prev.push(files.last())
        }
    }
}

/// `files` with the hash of its first entry with path `p` set to `h`.
pub open spec fn set_hash(files: Seq<(PathView, Seq<u8>)>, p: PathView, h: Seq<u8>) -> Seq<
    (PathView, Seq<u8>),
> {
    let i = path_index(files, p, 0);
    if i < files.len() {
        files.update(i, (files[i].0, h))
    } else {
        files
    }
}

/// `files` with each changed entry's hash set, in order.
pub open spec fn apply_changes(files: Seq<(PathView, Seq<u8>)>, changed: Seq<DeltaEntryView>) -> Seq<
    (PathView, Seq<u8>),
>
    decreases changed.len(),
{
    if changed.len() == 0 {
        files
    } else {
        let e = changed.last();
        set_hash(apply_changes(files, changed.drop_last()), e.0, e.1)
    }
}

pub open spec fn new_entries(new: Seq<DeltaEntryView>) -> Seq<(PathView, Seq<u8>)> {
    new.map_values(|e: DeltaEntryView| (e.0, e.1))
}

/// `m` with the contents that `entries` carry stored under their hashes.
pub open spec fn store_blobs(m: Map<Seq<u8>, Seq<u8>>, entries: Seq<DeltaEntryView>) -> Map<
    Seq<u8>,
    Seq<u8>,
>
    decreases entries.len(),
{
    if entries.len() == 0 {
        m
    } else {
        let prev = store_blobs(m, entries.drop_last());
        match entries.last().2 {
            Some(d) => prev.insert(entries.last().1, d),
            None => prev,
        }
    }
}

/// The files of a new checkpoint: those of the current one without the
/// deleted files, with the modified files' new hashes, and then the new
/// files.
pub open spec fn snapshot_files(r: RepoView, d: DeltaView) -> Seq<(PathView, Seq<u8>)> {
    apply_changes(retained(current_files(r), d.deleted_files), d.changed_files) + new_entries(
        d.new_files,
    )
}

/// The stored contents after a snapshot.
pub open spec fn snapshot_blobs(r: RepoView, d: DeltaView) -> Map<Seq<u8>, Seq<u8>> {
    store_blobs(store_blobs(r.blobs, d.changed_files), d.new_files)
}

/// Every modified file of the delta is a file of the current checkpoint
/// that is not among the deleted ones.
pub open spec fn snapshot_ready(r: RepoView, d: DeltaView) -> bool {
    forall|i: int|
        0 <= i < d.changed_files.len() ==> has_path(
            retained(current_files(r), d.deleted_files),
            #[trigger] d.changed_files[i].0,
        )
}

pub proof fn lemma_set_hash_paths(files: Seq<(PathView, Seq<u8>)>, p: PathView, h: Seq<u8>)
    ensures
        set_hash(files, p, h).len() == files.len(),
        forall|j: int| 0 <= j < files.len() ==> #[trigger] set_hash(files, p, h)[j].0 == files[j].0,
{
    lemma_path_index_range(files, p, 0);
}

pub proof fn lemma_apply_changes_paths(files: Seq<(PathView, Seq<u8>)>, changed: Seq<DeltaEntryView>)
    ensures
        apply_changes(files, changed).len() == files.len(),
        forall|j: int|
            0 <= j < files.len() ==> #[trigger] apply_changes(files, changed)[j].0 == files[j].0,
    decreases changed.len(),
{
    if changed.len() > 0 {
        lemma_apply_changes_paths(files, changed.drop_last());
        let e = changed.last();
        lemma_set_hash_paths(apply_changes(files, changed.drop_last()), e.0, e.1);
    }
}

impl Repo {
    /// Stores the contents that `delta` carries and returns the files of the
    /// checkpoint it makes.
    pub fn snapshot_project(&mut self, delta: WorkspaceDelta) -> (r: Result<
        Vec<(FsPath, FileHash)>,
        Reason,
    >)
        requires
            current_in_range(old(self)@),
            snapshot_ready(old(self)@, delta@),
        ensures
            r matches Ok(files) && files_view(files@) == snapshot_files(old(self)@, delta@),
            final(self)@.blobs == snapshot_blobs(old(self)@, delta@),
            final(self).commits == old(self).commits,
            final(self).current_checkpoint == old(self).current_checkpoint,
    {
        let ghost d = delta@;
        let ghost cur = current_files(self@);
        let ghost kept = retained(cur, d.deleted_files);
        let empty: Vec<(FsPath, FileHash)> = Vec::new();
        let previous = match self.current_checkpoint {
            Some(c) => &self.commits[c].files,
            None => &empty,
        };
        assert(files_view(previous@) == cur);
        let mut files: Vec<(FsPath, FileHash)> = Vec::new();
        let mut i: usize = 0;
        while i < previous.len()
            invariant
                i <= previous@.len(),
                files_view(previous@) == cur,
                d == delta@,
                files_view(files@) == retained(cur.take(i as int), d.deleted_files),
            decreases previous@.len() - i,
        {
            proof {
                assert(cur.take(i + 1).drop_last() =~= cur.take(i as int));
                assert(cur.take(i + 1).last() == cur[i as int]);
            }
            let mut gone = false;
            let mut q: usize = 0;
            while q < delta.deleted_files.len() && !gone
                invariant
                    q <= delta.deleted_files@.len(),
                    i < previous@.len(),
                    d == delta@,
                    gone ==> d.deleted_files.contains(previous@[i as int].0@),
                    !gone ==> forall|j: int| 0 <= j < q ==> d.deleted_files[j] != previous@[i as int].0@,
                decreases delta.deleted_files@.len() - q,
            {
                if delta.deleted_files[q].same(&previous[i].0) {
                    assert(d.deleted_files[q as int] == previous@[i as int].0@);
                    gone = true;
                }
                q = q + 1;
            }
            assert(cur[i as int].0 == previous@[i as int].0@);
            if !gone {
                let p = previous[i].0.clone();
                let h = previous[i].1;
                proof {
                    assert(files_view(files@.push((p, h))) =~= files_view(files@).push(cur[i as int]));
                }
                files.push((p, h));
            }
            i = i + 1;
        }
        assert(cur.take(previous@.len() as int) =~= cur);
        assert(files_view(files@) == kept);
        let ghost blobs0 = self@.blobs;
        let mut k: usize = 0;
        while k < delta.changed_files.len()
            invariant
                k <= delta.changed_files@.len(),
                d == delta@,
                kept == retained(current_files(old(self)@), d.deleted_files),
                snapshot_ready(old(self)@, d),
                files_view(files@) == apply_changes(kept, d.changed_files.take(k as int)),
                self@.blobs == store_blobs(blobs0, d.changed_files.take(k as int)),
                self.commits == old(self).commits,
                self.current_checkpoint == old(self).current_checkpoint,
            decreases delta.changed_files@.len() - k,
        {
            let ghost before = files_view(files@);
            let ghost e = d.changed_files[k as int];
            proof {
                assert(d.changed_files.take(k + 1).drop_last() =~= d.changed_files.take(k as int));
                assert(d.changed_files.take(k + 1).last() == e);
                lemma_apply_changes_paths(kept, d.changed_files.take(k as int));
            }
            let entry = &delta.changed_files[k];
            assert(e == (entry.0@, entry.1@, data_view(entry.2)));
            match &entry.2 {
                Some(data) => {
                    self.file_data.insert(entry.1, data.clone());
                },
                None => {},
            }
            match find_path(&files, &entry.0) {
                Some(j) => {
                    let p = files[j].0.clone();
                    files.set(j, (p, entry.1));
                    proof {
                        assert(files_view(files@) =~= set_hash(before, e.0, e.1));
                    }
                },
                None => {
                    proof {
                        assert(has_path(kept, e.0));
                        let w = choose|w: int| 0 <= w < kept.len() && #[trigger] kept[w].0 == e.0;
                        assert(before[w].0 == e.0);
                        lemma_path_index_range(before, e.0, 0);
                        assert(false);
                    }
                },
            }
            k = k + 1;
        }
        assert(d.changed_files.take(delta.changed_files@.len() as int) =~= d.changed_files);
        let ghost blobs1 = self@.blobs;
        let ghost applied = files_view(files@);
        let mut k: usize = 0;
        while k < delta.new_files.len()
            invariant
                k <= delta.new_files@.len(),
                d == delta@,
                files_view(files@) == applied + new_entries(d.new_files.take(k as int)),
                self@.blobs == store_blobs(blobs1, d.new_files.take(k as int)),
                self.commits == old(self).commits,
                self.current_checkpoint == old(self).current_checkpoint,
            decreases delta.new_files@.len() - k,
        {
            let ghost e = d.new_files[k as int];
            proof {
                assert(d.new_files.take(k + 1).drop_last() =~= d.new_files.take(k as int));
                assert(d.new_files.take(k + 1).last() == e);
            }
            let entry = &delta.new_files[k];
            assert(e == (entry.0@, entry.1@, data_view(entry.2)));
            match &entry.2 {
                Some(data) => {
                    self.file_data.insert(entry.1, data.clone());
                },
                None => {},
            }
            let p = entry.0.clone();
            proof {
                assert(new_entries(d.new_files.take(k + 1)) =~= new_entries(
                    d.new_files.take(k as int),
                ).push((e.0, e.1)));
                assert(files_view(files@.push((p, entry.1))) =~= files_view(files@).push(
                    (e.0, e.1),
                ));
                assert(files_view(files@.push((p, entry.1))) =~= applied + new_entries(
                    d.new_files.take(k + 1),
                ));
            }
            files.push((p, entry.1));
            k = k + 1;
        }
        assert(d.new_files.take(delta.new_files@.len() as int) =~= d.new_files);
        Ok(files)
    }
}

/// The relative path of listed file `i`, when it lies in the project folder.
pub open spec fn relative_of(ws: WorkspaceView, i: int) -> Option<PathView> {
    spec_strip_prefix(ws.files[i].0, ws.project)
}

/// The first listed file at or after `from` whose relative path is `p`, or
/// the number of listed files.
pub open spec fn file_index(ws: WorkspaceView, p: PathView, from: int) -> int
    decreases ws.files.len() - from,
{
    if from >= ws.files.len() {
        ws.files.len() as int
    } else if relative_of(ws, from) == Some(p) {
        from
    } else {
        file_index(ws, p, from + 1)
    }
}

pub proof fn lemma_file_index_range(ws: WorkspaceView, p: PathView, from: int)
    requires
        0 <= from <= ws.files.len(),
    ensures
        from <= file_index(ws, p, from) <= ws.files.len(),
        forall|j: int| from <= j < file_index(ws, p, from) ==> relative_of(ws, j) != Some(p),
        file_index(ws, p, from) < ws.files.len() ==> relative_of(ws, file_index(ws, p, from))
            == Some(p),
    decreases ws.files.len() - from,
{
    if from < ws.files.len() && relative_of(ws, from) != Some(p) {
        lemma_file_index_range(ws, p, from + 1);
    }
}

/// The contents of the project folder's file at relative path `p`; empty
/// when there is none.
pub open spec fn new_bytes_of(ws: WorkspaceView, p: PathView) -> Seq<u8> {
    let i = file_index(ws, p, 0);
    if i < ws.files.len() {
        ws.files[i].1
    } else {
        Seq::empty()
    }
}

/// The line statistics of the file at relative path `p`.
pub open spec fn path_changes(r: RepoView, ws: WorkspaceView, p: PathView) -> (nat, nat) {
    spec_line_changes(old_bytes(r, p), new_bytes_of(ws, p))
}

pub open spec fn added_lines(r: RepoView, ws: WorkspaceView, entries: Seq<DeltaEntryView>) -> nat
    decreases entries.len(),
{
    if entries.len() == 0 {
        0
    } else {
        added_lines(r, ws, entries.drop_last()) + path_changes(r, ws, entries.last().0).0
    }
}

pub open spec fn deleted_lines(r: RepoView, ws: WorkspaceView, entries: Seq<DeltaEntryView>) -> nat
    decreases entries.len(),
{
    if entries.len() == 0 {
        0
    } else {
        deleted_lines(r, ws, entries.drop_last()) + path_changes(r, ws, entries.last().0).1
    }
}

pub open spec fn removed_lines(r: RepoView, ws: WorkspaceView, paths: Seq<PathView>) -> nat
    decreases paths.len(),
{
    if paths.len() == 0 {
        0
    } else {
        removed_lines(r, ws, paths.drop_last()) + path_changes(r, ws, paths.last()).1
    }
}

/// The lines that a checkpoint of the project folder adds: those added to
/// modified and to new files.
pub open spec fn commit_additions(r: RepoView, root: PathView, ws: WorkspaceView) -> nat {
    let d = spec_delta(r, root, ws);
    added_lines(r, ws, d.changed_files) + added_lines(r, ws, d.new_files)
}

/// The lines that a checkpoint of the project folder deletes: those
/// deleted from modified files and the lines of deleted files.
pub open spec fn commit_deletions(r: RepoView, root: PathView, ws: WorkspaceView) -> nat {
    let d = spec_delta(r, root, ws);
    deleted_lines(r, ws, d.changed_files) + removed_lines(r, ws, d.deleted_files)
}

/// The name a checkpoint gets: the one given, or `Checkpoint #n` for the
/// `n`-th checkpoint when none is given.
pub open spec fn checkpoint_name(name: Seq<char>, count: nat) -> Seq<char> {
    if name.len() == 0 {
        "Checkpoint #"@ + decimal_digits(count + 1)
    } else {
        name
    }
}

pub open spec fn old_checkpoint_message() -> Seq<char> {
    "Attempted to create commit when on old checkpoint."@
}

proof fn lemma_added_prefix(r: RepoView, ws: WorkspaceView, e: Seq<DeltaEntryView>, k: int)
    requires
        0 <= k <= e.len(),
    ensures
        added_lines(r, ws, e.take(k)) <= added_lines(r, ws, e),
        deleted_lines(r, ws, e.take(k)) <= deleted_lines(r, ws, e),
    decreases e.len() - k,
{
    if k == e.len() {
        assert(e.take(k) =~= e);
    } else {
        lemma_added_prefix(r, ws, e, k + 1);
        assert(e.take(k + 1).drop_last() =~= e.take(k));
    }
}

proof fn lemma_removed_prefix(r: RepoView, ws: WorkspaceView, e: Seq<PathView>, k: int)
    requires
        0 <= k <= e.len(),
    ensures
        removed_lines(r, ws, e.take(k)) <= removed_lines(r, ws, e),
    decreases e.len() - k,
{
    if k == e.len() {
        assert(e.take(k) =~= e);
    } else {
        lemma_removed_prefix(r, ws, e, k + 1);
        assert(e.take(k + 1).drop_last() =~= e.take(k));
    }
}

/// Every entry of a bucket comes from a listed file.
pub proof fn lemma_bucket_origin(
    r: RepoView,
    root: PathView,
    ws: WorkspaceView,
    files: Seq<(PathView, Seq<u8>)>,
    st: FileStatus,
    k: int,
)
    requires
        0 <= k < delta_bucket(r, root, ws, files, st).len(),
    ensures
        exists|i: int|
            0 <= i < files.len() && workspace_entry(r, root, ws, #[trigger] files[i]) == Some(
                (st, delta_bucket(r, root, ws, files, st)[k]),
            ),
    decreases files.len(),
{
    let prev = delta_bucket(r, root, ws, files.drop_last(), st);
    if k < prev.len() {
        lemma_bucket_origin(r, root, ws, files.drop_last(), st, k);
        let i = choose|i: int|
            0 <= i < files.drop_last().len() && workspace_entry(
                r,
                root,
                ws,
                #[trigger] files.drop_last()[i],
            ) == Some((st, prev[k]));
        assert(files[i] == files.drop_last()[i]);
    } else {
        assert(files[files.len() - 1] == files.last());
    }
}

/// No deleted path is present.
pub proof fn lemma_deleted_absent(files: Seq<(PathView, Seq<u8>)>, ws: WorkspaceView, k: int)
    requires
        0 <= k < deleted_paths(files, ws).len(),
    ensures
        !present(ws, deleted_paths(files, ws)[k]),
        has_path(files, deleted_paths(files, ws)[k]),
    decreases files.len(),
{
    let prev = deleted_paths(files.drop_last(), ws);
    if k < prev.len() {
        lemma_deleted_absent(files.drop_last(), ws, k);
        let j = choose|j: int| 0 <= j < files.drop_last().len() && #[trigger] files.drop_last()[j].0 == prev[k];
        assert(files[j].0 == prev[k]);
    } else {
        assert(files[files.len() - 1].0 == files.last().0);
    }
}

/// An entry whose path is not deleted stays.
pub proof fn lemma_retained_keeps(files: Seq<(PathView, Seq<u8>)>, deleted: Seq<PathView>, j: int)
    requires
        0 <= j < files.len(),
        !deleted.contains(files[j].0),
    ensures
        retained(files, deleted).contains(files[j]),
    decreases files.len(),
{
    if j < files.len() - 1 {
        lemma_retained_keeps(files.drop_last(), deleted, j);
        assert(files.drop_last()[j] == files[j]);
        let prev = retained(files.drop_last(), deleted);
        let w = choose|w: int| 0 <= w < prev.len() && prev[w] == files[j];
        if !deleted.contains(files.last().0) {
            assert(retained(files, deleted)[w] == prev[w]);
        }
    } else {
        let prev = retained(files.drop_last(), deleted);
        assert(retained(files, deleted)[prev.len() as int] == files[j]);
    }
}

/// The delta of a project folder can be snapshotted.
pub proof fn lemma_delta_ready(r: RepoView, root: PathView, ws: WorkspaceView)
    requires
        workspace_inside(root, ws),
    ensures
        snapshot_ready(r, spec_delta(r, root, ws)),
{
    let d = spec_delta(r, root, ws);
    let cur = current_files(r);
    assert forall|k: int| 0 <= k < d.changed_files.len() implies has_path(
        retained(cur, d.deleted_files),
        #[trigger] d.changed_files[k].0,
    ) by {
        lemma_bucket_origin(r, root, ws, ws.files, FileStatus::Modified, k);
        let i = choose|i: int|
            0 <= i < ws.files.len() && workspace_entry(r, root, ws, #[trigger] ws.files[i])
                == Some((FileStatus::Modified, d.changed_files[k]));
        let rel = d.changed_files[k].0;
        assert(spec_is_trackable(root, ws.files[i].0));
        assert(relative_of(ws, i) == Some(rel));
        assert(present(ws, rel));
        assert(has_path(cur, rel));
        let j = choose|j: int| 0 <= j < cur.len() && #[trigger] cur[j].0 == rel;
        if d.deleted_files.contains(rel) {
            let q = choose|q: int| 0 <= q < d.deleted_files.len() && d.deleted_files[q] == rel;
            lemma_deleted_absent(cur, ws, q);
        }
        lemma_retained_keeps(cur, d.deleted_files, j);
        let kept = retained(cur, d.deleted_files);
        let w = choose|w: int| 0 <= w < kept.len() && kept[w] == cur[j];
        assert(kept[w].0 == rel);
    }
}

/// The relative path of every listed file.
fn relative_paths(workspace: &Workspace) -> (rels: Vec<Option<FsPath>>)
    ensures
        rels@.len() == workspace@.files.len(),
        forall|j: int|
            0 <= j < rels@.len() ==> match #[trigger] rels@[j] {
                Some(p) => relative_of(workspace@, j) == Some(p@),
                None => relative_of(workspace@, j) is None,
            },
{
    let ghost ws = workspace@;
    let mut rels: Vec<Option<FsPath>> = Vec::new();
    let mut i: usize = 0;
    while i < workspace.files.len()
        invariant
            i <= workspace.files@.len(),
            ws == workspace@,
            rels@.len() == i,
            forall|j: int|
                0 <= j < i ==> match #[trigger] rels@[j] {
                    Some(p) => relative_of(ws, j) == Some(p@),
                    None => relative_of(ws, j) is None,
                },
        decreases workspace.files@.len() - i,
    {
        rels.push(workspace.files[i].path.strip_prefix(&workspace.project_path));
        i = i + 1;
    }
    rels
}

/// The contents of the listed file at relative path `p` (empty when none).
fn bytes_at<'a>(workspace: &'a Workspace, rels: &Vec<Option<FsPath>>, p: &FsPath) -> (r: &'a [u8])
    requires
        rels@.len() == workspace@.files.len(),
        forall|j: int|
            0 <= j < rels@.len() ==> match #[trigger] rels@[j] {
                Some(q) => relative_of(workspace@, j) == Some(q@),
                None => relative_of(workspace@, j) is None,
            },
    ensures
        r@ == new_bytes_of(workspace@, p@),
{
    let ghost ws = workspace@;
    let mut i: usize = 0;
    while i < rels.len()
        invariant
            i <= rels@.len(),
            ws == workspace@,
            rels@.len() == ws.files.len(),
            forall|j: int|
                0 <= j < rels@.len() ==> match #[trigger] rels@[j] {
                    Some(q) => relative_of(ws, j) == Some(q@),
                    None => relative_of(ws, j) is None,
                },
            forall|j: int| 0 <= j < i ==> relative_of(ws, j) != Some(p@),
        decreases rels@.len() - i,
    {
        let hit = match &rels[i] {
            Some(q) => q.same(p),
            None => false,
        };
        if hit {
            proof {
                lemma_file_index_range(ws, p@, 0);
                assert(relative_of(ws, i as int) == Some(p@));
                if file_index(ws, p@, 0) < i {
                    assert(relative_of(ws, file_index(ws, p@, 0)) == Some(p@));
                }
                assert(file_index(ws, p@, 0) == i);
                assert(ws.files[i as int].1 == workspace.files@[i as int].data@);
            }
            return workspace.files[i].data.as_slice();
        }
        i = i + 1;
    }
    proof {
        lemma_file_index_range(ws, p@, 0);
        if file_index(ws, p@, 0) < ws.files.len() {
            assert(relative_of(ws, file_index(ws, p@, 0)) == Some(p@));
        }
    }
    let empty: &[u8] = &[];
    assert(empty@ =~= Seq::<u8>::empty());
    empty
}

impl Repo {
    /// The checkpoint name for `name`, with `count` checkpoints made so far.
    fn checkpoint_name(name: String, count: usize) -> (r: String)
        requires
            count < usize::MAX,
        ensures
            r@ == checkpoint_name(name@, count as nat),
    {
        if name.as_str().is_empty() {
            let mut s = String::from_str("Checkpoint #");
            push_decimal(&mut s, count + 1);
            s
        } else {
            name
        }
    }

    /// Makes a checkpoint of the project folder, as `scan` found it, on top
    /// of the latest checkpoint.  It is refused when the project is on an
    /// older checkpoint, and is a no-op when nothing changed.  The caller
    /// saves the repository afterwards, and undoes the checkpoint with
    /// `rollback_commit` when that fails.
    pub fn create_commit(
        &mut self,
        root: &ProjectRoot,
        name: String,
        desc: String,
        scan: Result<Workspace, Reason>,
    ) -> (r: Result<CommitResult, Reason>)
        requires
            old(self)@.commits.len() < usize::MAX,
            scan matches Ok(ws) ==> workspace_inside(root@, ws@),
            scan matches Ok(ws) ==> commit_additions(old(self)@, root@, ws@) <= usize::MAX,
            scan matches Ok(ws) ==> commit_deletions(old(self)@, root@, ws@) <= usize::MAX,
        ensures
            repo_wf(old(self)@) ==> repo_wf(final(self)@),
            content_addressed(old(self)@.blobs) ==> content_addressed(final(self)@.blobs),
            (scan matches Ok(ws) && r is Ok && distinct_files(ws@)) ==> delta_is_noop(
                spec_delta(final(self)@, root@, scan->Ok_0@),
            ),
            !spec_is_on_latest(old(self)@) ==> (r matches Err(Reason::Other(m)) && m@
                == old_checkpoint_message() && *final(self) == *old(self)),
            spec_is_on_latest(old(self)@) ==> match scan {
                Err(e) => r == Err::<CommitResult, Reason>(e) && *final(self) == *old(self),
                Ok(ws) => {
                    let d = spec_delta(old(self)@, root@, ws@);
                    if delta_is_noop(d) {
                        r == Ok::<CommitResult, Reason>(CommitResult::NoOp) && *final(self)
                            == *old(self)
                    } else {
                        let n = old(self)@.commits.len();
                        &&& r == Ok::<CommitResult, Reason>(CommitResult::Success)
                        &&& final(self)@.commits.len() == n + 1
                        &&& final(self)@.commits.take(n as int) == old(self)@.commits
                        &&& final(self)@.commits[n as int].message == checkpoint_name(
                            name@,
                            n,
                        )
                        &&& final(self)@.commits[n as int].description == desc@
                        &&& final(self)@.commits[n as int].files == snapshot_files(
                            old(self)@,
                            d,
                        )
                        &&& final(self)@.commits[n as int].additions == commit_additions(
                            old(self)@,
                            root@,
                            ws@,
                        )
                        &&& final(self)@.commits[n as int].deletions == commit_deletions(
                            old(self)@,
                            root@,
                            ws@,
                        )
                        &&& final(self)@.current == Some(n as usize)
                        &&& spec_is_on_latest(final(self)@)
                        &&& final(self)@.blobs == snapshot_blobs(old(self)@, d)
                    }
                },
            },
    {
        let len = self.commits.len();
        let on_latest = match self.current_checkpoint {
            Some(c) => c < len && c + 1 == len,
            None => len == 0,
        };
        if !on_latest {
            return Err(Reason::Other(String::from_str("Attempted to create commit when on old checkpoint.")));
        }
        let name = Self::checkpoint_name(name, len);
        let workspace = match scan {
            Err(e) => return Err(e),
            Ok(ws) => ws,
        };
        let ghost ws = workspace@;
        let delta = self.get_workspace_delta(root, &workspace);
        if delta.is_noop() {
            assert(delta_is_noop(delta@));
            return Ok(CommitResult::NoOp);
        }
        let ghost d = delta@;
        let rels = relative_paths(&workspace);
        let mut additions: usize = 0;
        let mut deletions: usize = 0;
        let mut k: usize = 0;
        while k < delta.changed_files.len()
            invariant
                k <= delta.changed_files@.len(),
                d == delta@,
                ws == workspace@,
                d == spec_delta(self@, root@, ws),
                current_in_range(self@),
                rels@.len() == ws.files.len(),
                forall|j: int|
                    0 <= j < rels@.len() ==> match #[trigger] rels@[j] {
                        Some(q) => relative_of(ws, j) == Some(q@),
                        None => relative_of(ws, j) is None,
                    },
                commit_additions(self@, root@, ws) <= usize::MAX,
                commit_deletions(self@, root@, ws) <= usize::MAX,
                additions == added_lines(self@, ws, d.changed_files.take(k as int)),
                deletions == deleted_lines(self@, ws, d.changed_files.take(k as int)),
            decreases delta.changed_files@.len() - k,
        {
            let path = &delta.changed_files[k].0;
            let (add, del) = self.get_additions_deletions(path, bytes_at(&workspace, &rels, path));
            proof {
                assert(d.changed_files[k as int].0 == path@);
                assert(d.changed_files.take(k + 1).drop_last() =~= d.changed_files.take(k as int));
                lemma_added_prefix(self@, ws, d.changed_files, k + 1);
            }
            additions = additions + add;
            deletions = deletions + del;
            k = k + 1;
        }
        assert(d.changed_files.take(d.changed_files.len() as int) =~= d.changed_files);
        let mut k: usize = 0;
        while k < delta.new_files.len()
            invariant
                k <= delta.new_files@.len(),
                d == delta@,
                ws == workspace@,
                d == spec_delta(self@, root@, ws),
                current_in_range(self@),
                rels@.len() == ws.files.len(),
                forall|j: int|
                    0 <= j < rels@.len() ==> match #[trigger] rels@[j] {
                        Some(q) => relative_of(ws, j) == Some(q@),
                        None => relative_of(ws, j) is None,
                    },
                commit_additions(self@, root@, ws) <= usize::MAX,
                additions == added_lines(self@, ws, d.changed_files) + added_lines(
                    self@,
                    ws,
                    d.new_files.take(k as int),
                ),
            decreases delta.new_files@.len() - k,
        {
            let path = &delta.new_files[k].0;
            let (add, _) = self.get_additions_deletions(path, bytes_at(&workspace, &rels, path));
            proof {
                assert(d.new_files[k as int].0 == path@);
                assert(d.new_files.take(k + 1).drop_last() =~= d.new_files.take(k as int));
                lemma_added_prefix(self@, ws, d.new_files, k + 1);
            }
            additions = additions + add;
            k = k + 1;
        }
        assert(d.new_files.take(d.new_files.len() as int) =~= d.new_files);
        let mut k: usize = 0;
        while k < delta.deleted_files.len()
            invariant
                k <= delta.deleted_files@.len(),
                d == delta@,
                ws == workspace@,
                d == spec_delta(self@, root@, ws),
                current_in_range(self@),
                rels@.len() == ws.files.len(),
                forall|j: int|
                    0 <= j < rels@.len() ==> match #[trigger] rels@[j] {
                        Some(q) => relative_of(ws, j) == Some(q@),
                        None => relative_of(ws, j) is None,
                    },
                commit_deletions(self@, root@, ws) <= usize::MAX,
                deletions == deleted_lines(self@, ws, d.changed_files) + removed_lines(
                    self@,
                    ws,
                    d.deleted_files.take(k as int),
                ),
            decreases delta.deleted_files@.len() - k,
        {
            let path = &delta.deleted_files[k];
            let (_, del) = self.get_additions_deletions(path, bytes_at(&workspace, &rels, path));
            proof {
                assert(d.deleted_files[k as int] == path@);
                assert(d.deleted_files.take(k + 1).drop_last() =~= d.deleted_files.take(k as int));
                lemma_removed_prefix(self@, ws, d.deleted_files, k + 1);
            }
            deletions = deletions + del;
            k = k + 1;
        }
        assert(d.deleted_files.take(d.deleted_files.len() as int) =~= d.deleted_files);
        proof {
            lemma_delta_ready(self@, root@, ws);
        }
        let ghost before = *self;
        let commit_files = match self.snapshot_project(delta) {
            Ok(files) => files,
            Err(e) => return Err(e),
        };
        let commit = Commit::new(name, desc, commit_files, additions, deletions);
        self.commits.push(commit);
        self.current_checkpoint = Some(self.commits.len() - 1);
        proof {
            assert(commits_view(self.commits@) =~= commits_view(before.commits@).push(commit@));
            lemma_commit_keeps_repo_consistent(before@, self@, root@, ws, commit@);
            if distinct_files(ws) {
                lemma_commit_leaves_clean_workspace(before@, self@, root@, ws);
            }
        }
        Ok(CommitResult::Success)
    }

    /// Undoes the checkpoint just made when it could not be saved: the last
    /// commit goes and the checkpoint pointer is set back.  Stored contents
    /// stay.
    pub fn rollback_commit(&mut self, previous: Option<usize>)
        requires
            old(self)@.commits.len() > 0,
        ensures
            final(self)@.commits == old(self)@.commits.drop_last(),
            final(self)@.current == previous,
            final(self)@.blobs == old(self)@.blobs,
    {
        let ghost before = self.commits@;
        self.commits.pop();
        self.current_checkpoint = previous;
        assert(commits_view(self.commits@) =~= commits_view(before).drop_last());
    }

    /// What making a checkpoint (`made`) comes to once the caller has tried
    /// to save the repository (`saved`; only a new checkpoint is saved): a
    /// checkpoint that could not be saved is taken back, the pointer going
    /// back to `previous`, and the save's error is the result; otherwise the
    /// result of making it stands and nothing changes.
    pub fn settle_commit(
        &mut self,
        previous: Option<usize>,
        made: Result<CommitResult, Reason>,
        saved: Result<(), Reason>,
    ) -> (r: Result<CommitResult, Reason>)
        requires
            made matches Ok(CommitResult::Success) ==> old(self)@.commits.len() > 0,
        ensures
            (made matches Ok(CommitResult::Success) && saved is Err) ==> {
                &&& r == Err::<CommitResult, Reason>(saved->Err_0)
                &&& final(self)@.commits == old(self)@.commits.drop_last()
                &&& final(self)@.current == previous
                &&& final(self)@.blobs == old(self)@.blobs
            },
            !(made matches Ok(CommitResult::Success) && saved is Err) ==> r == made && *final(self)
                == *old(self),
    {
        match made {
            Ok(CommitResult::Success) => match saved {
                Err(e) => {
                    self.rollback_commit(previous);
                    Err(e)
                },
                Ok(()) => Ok(CommitResult::Success),
            },
            other => other,
        }
    }
}

pub open spec fn missing_checkpoint_message() -> Seq<char> {
    "Attempting to restore to a checkpoint that does not exist."@
}

/// What restoring commit `c` writes: each of its files, relative to the
/// project folder, with its stored contents.
pub open spec fn restore_files(r: RepoView, c: int) -> Seq<(PathView, Seq<u8>)> {
    r.commits[c].files.map_values(|e: (PathView, Seq<u8>)| (e.0, r.blobs[e.1]))
}

pub open spec fn plan_view(v: Seq<(FsPath, FileData)>) -> Seq<(PathView, Seq<u8>)> {
    v.map_values(|e: (FsPath, FileData)| (e.0@, e.1@))
}

impl Repo {
    /// The files that restoring checkpoint `commit` writes into the project
    /// folder (after clearing its tracked entries); an error when there is
    /// no such checkpoint.
    pub fn restore_plan(&self, commit: usize) -> (r: Result<Vec<(FsPath, FileData)>, Reason>)
        requires
            repo_wf(self@),
        ensures
            commit >= self@.commits.len() ==> (r matches Err(Reason::Other(m)) && m@
                == missing_checkpoint_message()),
            commit < self@.commits.len() ==> (r matches Ok(plan) && plan_view(plan@)
                == restore_files(self@, commit as int)),
    {
        if self.commits.len() <= commit {
            return Err(Reason::Other(String::from_str("Attempting to restore to a checkpoint that does not exist.")));
        }
        let ghost target = restore_files(self@, commit as int);
        let files = &self.commits[commit].files;
        assert(files_view(files@) == self@.commits[commit as int].files);
        let mut plan: Vec<(FsPath, FileData)> = Vec::new();
        let mut i: usize = 0;
        while i < files.len()
            invariant
                i <= files@.len(),
                commit < self@.commits.len(),
                files == &self.commits@[commit as int].files,
                files_view(files@) == self@.commits[commit as int].files,
                target == restore_files(self@, commit as int),
                repo_wf(self@),
                plan_view(plan@) == target.take(i as int),
            decreases files@.len() - i,
        {
            let ghost e = self@.commits[commit as int].files[i as int];
            assert(e == (files@[i as int].0@, files@[i as int].1@));
            assert(self@.blobs.contains_key(e.1));
            let data = match self.file_data.get(&files[i].1) {
                Some(d) => d.clone(),
                None => FileData(Vec::new()),
            };
            let path = files[i].0.clone();
            proof {
                assert(data@ == self@.blobs[e.1]);
                assert(target[i as int] == (e.0, self@.blobs[e.1]));
                assert(plan_view(plan@.push((path, data))) =~= plan_view(plan@).push(
                    (path@, data@),
                ));
                assert(plan_view(plan@.push((path, data))) =~= target.take(i + 1));
            }
            plan.push((path, data));
            i = i + 1;
        }
        assert(target.take(files@.len() as int) =~= target);
        Ok(plan)
    }

    /// Records that the project folder now holds checkpoint `commit`; an
    /// error, changing nothing, when there is no such checkpoint.
    pub fn restore_checkpoint(&mut self, commit: usize) -> (r: Result<(), Reason>)
        ensures
            commit >= old(self)@.commits.len() ==> (r matches Err(Reason::Other(m)) && m@
                == missing_checkpoint_message() && *final(self) == *old(self)),
            commit < old(self)@.commits.len() ==> (r is Ok && final(self).commits
                == old(self).commits && final(self).file_data == old(self).file_data
                && final(self).current_checkpoint == Some(commit)),
    {
        if self.commits.len() <= commit {
            return Err(Reason::Other(String::from_str("Attempting to restore to a checkpoint that does not exist.")));
        }
        self.current_checkpoint = Some(commit);
        Ok(())
    }

    /// The line statistics of checkpoint `commit_index` against the one
    /// before it: its added lines and the whole seconds between the two;
    /// `None` for the first checkpoint or when no time passed.
    pub fn additions_per_minute(&self, commit_index: usize) -> (r: Option<(usize, u128)>)
        requires
            commit_index < self@.commits.len(),
        ensures
            commit_index == 0 ==> r is None,
            commit_index > 0 ==> {
                let cur = self@.commits[commit_index as int];
                let prev = self@.commits[commit_index - 1];
                let secs = (total_nanos(cur.timestamp) - total_nanos(prev.timestamp))
                    / 1_000_000_000;
                &&& secs <= 0 ==> r is None
                &&& secs > 0 ==> r == Some((cur.additions, secs as u128))
            },
    {
        if commit_index == 0 {
            return None;
        }
        let cur = &self.commits[commit_index];
        let prev = &self.commits[commit_index - 1];
        let a: i128 = cur.timestamp.secs as i128 * 1_000_000_000 + cur.timestamp.nanos as i128;
        let b: i128 = prev.timestamp.secs as i128 * 1_000_000_000 + prev.timestamp.nanos as i128;
        let diff: i128 = a - b;
        let secs: i128 = if diff >= 0 {
            diff / 1_000_000_000
        } else {
            -((-diff + 999_999_999) / 1_000_000_000)
        };
        proof {
            assert(a == total_nanos(self@.commits[commit_index as int].timestamp));
            assert(b == total_nanos(self@.commits[commit_index - 1].timestamp));
            if diff < 0 {
                assert(-((-diff + 999_999_999) / 1_000_000_000) == diff / 1_000_000_000)
                    by (nonlinear_arith)
                    requires
                        diff < 0,
                ;
            }
        }
        if secs <= 0 {
            return None;
        }
        Some((cur.additions, secs as u128))
    }
}

impl ProjectRoot {
    /// Whether restoring removes the top-level entry `entry` of the project
    /// folder (whose canonical path is `canonical`): every tracked entry but
    /// the data folder (canonically `data_folder`).
    pub fn removed_by_restore(&self, entry: &FsPath, canonical: &FsPath, data_folder: &FsPath) -> (r:
        bool)
        ensures
            r == (canonical@ != data_folder@ && spec_is_trackable(self@, entry@)),
    {
        if canonical.same(data_folder) {
            return false;
        }
        self.is_trackable(entry)
    }
}

} // verus!
