//! The layout of a project folder: the project root, its data folder with
//! the project file (the sentinel), the saved state, its temporary copy and
//! the restore log, and the folder of files that are never tracked.
use vstd::prelude::*;
use crate::err::Init;
use crate::path::{
    FsPath, PathView, spec_child, spec_extension, spec_file_name, spec_parent, spec_starts_with,
};
use crate::text::{
    chars_of, decimal_digits, is_ascii_digit, lemma_decimal_round_trip, lemma_trim_end_take,
    lemma_trim_start_skip, parse_usize, push_decimal, spec_is_whitespace, spec_parse_usize,
    spec_trim, trim,
};

verus! {

/// The folder whose files are checkpointed.
#[derive(Debug)]
pub struct ProjectRoot(FsPath);

/// The folder inside the project root that holds the saved state.
pub struct DataFolder(FsPath);

/// The `project.checkpoint` file that marks a folder as a project.
pub struct SentinelFile(FsPath);

impl View for ProjectRoot {
    type V = PathView;

    closed spec fn view(&self) -> PathView {
        self.0@
    }
}

impl View for DataFolder {
    type V = PathView;

    closed spec fn view(&self) -> PathView {
        self.0@
    }
}

impl View for SentinelFile {
    type V = PathView;

    closed spec fn view(&self) -> PathView {
        self.0@
    }
}

pub open spec fn spec_data_folder(root: PathView) -> PathView {
    spec_child(root, "checkpoint_data"@)
}

pub open spec fn spec_untracked(root: PathView) -> PathView {
    spec_child(root, "untracked_files"@)
}

/// A path is tracked unless it lies in the data folder or the untracked
/// folder, or its own name starts with a dot.
pub open spec fn spec_is_trackable(root: PathView, path: PathView) -> bool {
    &&& !spec_starts_with(path, spec_data_folder(root))
    &&& !spec_starts_with(path, spec_untracked(root))
    &&& !(spec_file_name(path) matches Some(name) && name.len() > 0 && name[0] == '.')
}

impl Clone for ProjectRoot {
    fn clone(&self) -> (r: Self)
        ensures
            r@ == self@,
    {
        ProjectRoot(self.0.clone())
    }
}

impl ProjectRoot {
    pub fn get(&self) -> (r: FsPath)
        ensures
            r@ == self@,
    {
        self.0.clone()
    }

    /// The project rooted at `path`, which the caller has found to be a
    /// directory.
    pub fn new(path: FsPath) -> (r: Self)
        ensures
            r@ == path@,
    {
        ProjectRoot(path)
    }

    pub fn data_folder(&self) -> (r: DataFolder)
        ensures
            r@ == spec_data_folder(self@),
    {
        DataFolder(self.0.child("checkpoint_data"))
    }

    pub fn untracked(&self) -> (r: FsPath)
        ensures
            r@ == spec_untracked(self@),
    {
        self.0.child("untracked_files")
    }

    /// Whether checkpoints track the file at `path`.
    pub fn is_trackable(&self, path: &FsPath) -> (r: bool)
        ensures
            r == spec_is_trackable(self@, path@),
    {
        // Skip internal tracking database files/folders
        if path.starts_with(&self.data_folder().get()) || path.starts_with(&self.untracked()) {
            return false;
        }
        match path.file_name() {
            Some(name) => {
                let chars = chars_of(name.as_str());
                if chars.len() > 0 && chars[0] == '.' {
                    return false;
                }
            },
            None => {},
        }
        true
    }
}

impl DataFolder {
    pub fn get(&self) -> (r: FsPath)
        ensures
            r@ == self@,
    {
        self.0.clone()
    }

    pub fn sentinel(&self) -> (r: SentinelFile)
        ensures
            r@ == spec_child(self@, "project.checkpoint"@),
    {
        SentinelFile(self.0.child("project.checkpoint"))
    }

    /// The folder that holds this one.
    pub fn project_root(&self) -> (r: ProjectRoot)
        requires
            spec_parent(self@) is Some,
        ensures
            Some(r@) == spec_parent(self@),
    {
        match self.0.parent() {
            Some(p) => ProjectRoot(p),
            None => ProjectRoot(self.0.clone()),
        }
    }

    pub fn data_json(&self) -> (r: FsPath)
        ensures
            r@ == spec_child(self@, "data.json"@),
    {
        self.0.child("data.json")
    }

    pub fn data_tmp(&self) -> (r: FsPath)
        ensures
            r@ == spec_child(self@, "data.tmp"@),
    {
        self.0.child("data.tmp")
    }

    /// The log that a restore keeps while it rewrites the project files.
    pub fn wal(&self) -> (r: FsPath)
        ensures
            r@ == spec_child(self@, "restore.wal"@),
    {
        self.0.child("restore.wal")
    }
}

/// The sentinel is a file with the `checkpoint` extension.
pub open spec fn is_sentinel_path(p: PathView) -> bool {
    spec_file_name(p) matches Some(name) && spec_extension(name) == Some("checkpoint"@)
}

impl SentinelFile {
    #[verifier::type_invariant]
    spec fn has_name(self) -> bool {
        self.0@.parts.len() > 0
    }

    pub fn get(&self) -> (r: FsPath)
        ensures
            r@ == self@,
    {
        self.0.clone()
    }

    /// The project file at `path`, whose extension is `checkpoint`.
    pub fn new(path: FsPath) -> (r: Self)
        requires
            is_sentinel_path(path@),
        ensures
            r@ == path@,
    {
        SentinelFile(path)
    }

    /// The folder that holds the project file.
    pub fn data_folder(&self) -> (r: DataFolder)
        ensures
            Some(r@) == spec_parent(self@),
    {
        proof {
            use_type_invariant(self);
        }
        match self.0.parent() {
            Some(p) => DataFolder(p),
            None => DataFolder(self.0.clone()),
        }
    }

    /// The folder that holds the data folder.
    pub fn project_root(&self) -> (r: ProjectRoot)
        requires
            self@.parts.len() >= 2,
        ensures
            spec_parent(self@) matches Some(d) && Some(r@) == spec_parent(d),
    {
        self.data_folder().project_root()
    }
}

/// The files that make a folder a project, written in this order: the data
/// folder and the untracked folder, then the project file (empty) and a
/// note in each folder.
#[derive(Debug)]
pub struct InitPlan {
    pub directories: Vec<FsPath>,
    pub files: Vec<(FsPath, String)>,
}

pub open spec fn data_readme_text() -> Seq<char> {
    "This folder is used by CheckpointPro to create and load checkpoints.\nModifying these files will probably prevent CheckpointPro from working correctly."@
}

pub open spec fn untracked_readme_text() -> Seq<char> {
    "CheckpointPro will ignore this folder when creating and restoring checkpoints.\nYou may want to store very large files like high-resolution images, video, or datasets here so they can live in your project folder without slowing down your checkpoints."@
}

/// What creating a project at `root` does, given whether its project file
/// already exists: refuse, or lay out the folders and files.
pub fn init_project(root: &ProjectRoot, sentinel_exists: bool) -> (r: Result<InitPlan, Init>)
    ensures
        sentinel_exists <==> r matches Err(Init::ProjectAlreadyExists),
        r is Err ==> sentinel_exists,
        r matches Ok(plan) ==> {
            &&& plan.directories@.len() == 2
            &&& plan.directories@[0]@ == spec_data_folder(root@)
            &&& plan.directories@[1]@ == spec_untracked(root@)
            &&& plan.files@.len() == 3
            &&& plan.files@[0].0@ == spec_child(spec_data_folder(root@), "project.checkpoint"@)
            &&& plan.files@[0].1@ == Seq::<char>::empty()
            &&& plan.files@[1].0@ == spec_child(spec_data_folder(root@), "readme.txt"@)
            &&& plan.files@[1].1@ == data_readme_text()
            &&& plan.files@[2].0@ == spec_child(spec_untracked(root@), "readme.txt"@)
            &&& plan.files@[2].1@ == untracked_readme_text()
        },
{
    if sentinel_exists {
        return Err(Init::ProjectAlreadyExists);
    }
    let data_folder = root.data_folder();
    let sentinel = data_folder.sentinel().get();
    let readme = data_folder.get().child("readme.txt");
    let untracked = root.untracked();
    let untracked_readme = untracked.child("readme.txt");
    let mut directories: Vec<FsPath> = Vec::new();
    directories.push(data_folder.get());
    directories.push(untracked);
    let mut files: Vec<(FsPath, String)> = Vec::new();
    files.push((sentinel, String::new()));
    files.push(
        (
            readme,
            String::from_str(
                "This folder is used by CheckpointPro to create and load checkpoints.\nModifying these files will probably prevent CheckpointPro from working correctly.",
            ),
        ),
    );
    files.push(
        (
            untracked_readme,
            String::from_str(
                "CheckpointPro will ignore this folder when creating and restoring checkpoints.\nYou may want to store very large files like high-resolution images, video, or datasets here so they can live in your project folder without slowing down your checkpoints.",
            ),
        ),
    );
    Ok(InitPlan { directories, files })
}

/// What the restore log holds while a restore to checkpoint `commit` runs.
pub fn restore_log_text(commit: usize) -> (r: String)
    ensures
        r@ == decimal_digits(commit as nat),
{
    let mut s = String::new();
    push_decimal(&mut s, commit);
    assert(s@ =~= decimal_digits(commit as nat));
    s
}

/// The checkpoint of a restore that did not finish, read from the restore
/// log's contents (`None` when there is no log): its trimmed text as a
/// number, or `None` when it is not one.
pub fn get_failed_restore_id(log: Option<String>) -> (r: Option<usize>)
    ensures
        r == match log {
            None => None,
            Some(text) => spec_parse_usize(spec_trim(text@)),
        },
{
    match log {
        None => None,
        Some(text) => {
            let chars = chars_of(text.as_str());
            let trimmed = trim(chars.as_slice());
            parse_usize(trimmed.as_slice())
        },
    }
}

/// What a restore writes to its log is read back as the same checkpoint.
pub proof fn lemma_restore_log_round_trip(commit: usize)
    ensures
        spec_parse_usize(spec_trim(decimal_digits(commit as nat))) == Some(commit),
{
    let d = decimal_digits(commit as nat);
    lemma_decimal_round_trip(commit as nat);
    assert forall|j: int| 0 <= j < d.len() implies !spec_is_whitespace(d[j]) by {
        assert(is_ascii_digit(d[j]));
    }
    lemma_trim_start_skip(d, 0);
    assert(d.skip(0) =~= d);
    lemma_trim_end_take(d, d.len() as int);
    assert(d.take(d.len() as int) =~= d);
}

/// The data folder of a project root lies in that root, and its project
/// file lies in the data folder.
pub proof fn lemma_layout_round_trip(root: PathView)
    ensures
        spec_parent(spec_data_folder(root)) == Some(root),
        spec_parent(spec_child(spec_data_folder(root), "project.checkpoint"@)) == Some(
            spec_data_folder(root),
        ),
{
    assert(spec_data_folder(root).parts.drop_last() =~= root.parts);
    assert(spec_child(spec_data_folder(root), "project.checkpoint"@).parts.drop_last()
        =~= spec_data_folder(root).parts);
}

/// Nothing inside the data folder or the untracked folder is tracked.
pub proof fn lemma_internal_folders_untracked(root: PathView, path: PathView)
    requires
        spec_starts_with(path, spec_data_folder(root)) || spec_starts_with(
            path,
            spec_untracked(root),
        ),
    ensures
        !spec_is_trackable(root, path),
{
}

/// A file or folder whose own name starts with a dot is never tracked,
/// however deep below the project root it lies (a name of two dots, which
/// names the parent, is no name).
pub proof fn lemma_dot_names_untracked(root: PathView, path: PathView)
    requires
        path.parts.len() > 0,
        path.parts.last().len() > 0,
        path.parts.last()[0] == '.',
        path.parts.last() != seq!['.', '.'],
    ensures
        !spec_is_trackable(root, path),
{
}

} // verus!
