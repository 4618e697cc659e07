//! The state of the screens that are not bound to the widget toolkit: the
//! recovery screen shown after an interrupted restore, and the checkpoint
//! history with its dialogs and the text of its diff window.
use vstd::prelude::*;
use crate::data_structures::{
    CommitResult, FileData, Repo, RepoView, Workspace, WorkspaceDelta, current_files,
    current_in_range, delta_is_noop, files_view, find_path, lemma_path_index, lemma_path_index_range, path_index, spec_delta,
    workspace_inside,
};
use crate::err::{Reason, spec_reason_message};
use crate::diff::LineTag;
use crate::file_system::ProjectRoot;
use crate::path::{FsPath, PathView};
use crate::text::{chars_of, string_of};
use crate::utilities::{string_from_utf8_lossy, utf8_lossy};

verus! {

/// The screen that appears when, on opening a project, its restore log is
/// still there: the restore of checkpoint `commit` did not finish.
pub struct RecoverView {
    pub commit: usize,
    pub project_root: ProjectRoot,
    pub generic_warning: Option<String>,
}

impl RecoverView {
    pub fn new(commit: usize, project_root: ProjectRoot) -> (r: Self)
        ensures
            r.commit == commit,
            r.project_root@ == project_root@,
            r.generic_warning is None,
    {
        RecoverView { commit, project_root, generic_warning: None }
    }

    /// What restoring checkpoint `commit` again (the "Try again" button)
    /// did: its error is shown, or the history screen opens.
    pub fn restore_finished(&mut self, result: Result<(), Reason>) -> (r: Option<HistoryView>)
        ensures
            match result {
                Ok(()) => (r matches Some(h) && is_fresh_history(h, old(self).project_root@))
                    && *final(self) == *old(self),
                Err(e) => r is None && shows(final(self).generic_warning, spec_reason_message(&e))
                    && *final(self) == (RecoverView {
                    generic_warning: final(self).generic_warning,
                    ..*old(self)
                }),
            },
    {
        match result {
            Ok(()) => Some(HistoryView::new(self.project_root.clone())),
            Err(e) => {
                self.generic_warning = Some(e.describe());
                None
            },
        }
    }
}

/// The checkpoint history screen.
pub struct HistoryView {
    pub project_path: ProjectRoot,
    pub restore_dialog: bool,
    pub new_checkpoint_dialog: bool,
    pub diff_view: bool,
    pub selected_diff_file: Option<FsPath>,
    pub recalculate_diff: bool,
    pub cached_diff_lines: Vec<(LineTag, String)>,
    pub show_project_report: bool,
    pub workspace_delta: Option<WorkspaceDelta>,
    pub checkpoint_name_input: String,
    pub checkpoint_description_input: String,
    pub generic_warning: Option<String>,
}

/// A history screen as it opens on project root `root`: no dialog, no
/// selection, no cached diff, empty inputs and no warning; the diff is
/// computed on first display.
pub open spec fn is_fresh_history(v: HistoryView, root: PathView) -> bool {
    &&& v.project_path@ == root
    &&& !v.restore_dialog
    &&& !v.new_checkpoint_dialog
    &&& !v.diff_view
    &&& v.selected_diff_file is None
    &&& v.recalculate_diff
    &&& v.cached_diff_lines@.len() == 0
    &&& !v.show_project_report
    &&& v.workspace_delta is None
    &&& v.checkpoint_name_input@.len() == 0
    &&& v.checkpoint_description_input@.len() == 0
    &&& v.generic_warning is None
}

/// `w` is a warning that reads `m`.
pub open spec fn shows(w: Option<String>, m: Seq<char>) -> bool {
    w matches Some(s) && s@ == m
}

pub open spec fn no_changes_message() -> Seq<char> {
    "You cannot make a checkpoint when there are no changes!"@
}

pub open spec fn empty_checkpoint_message() -> Seq<char> {
    "You must have changes to make a checkpoint!"@
}

impl HistoryView {
    pub fn new(root: ProjectRoot) -> (r: Self)
        ensures
            is_fresh_history(r, root@),
    {
        HistoryView {
            project_path: root,
            restore_dialog: false,
            new_checkpoint_dialog: false,
            diff_view: false,
            selected_diff_file: None,
            recalculate_diff: true,
            cached_diff_lines: Vec::new(),
            show_project_report: false,
            workspace_delta: None,
            checkpoint_name_input: String::new(),
            checkpoint_description_input: String::new(),
            generic_warning: None,
        }
    }

    pub fn show_restore_dialog(&mut self)
        ensures
            *final(self) == (HistoryView { restore_dialog: true, ..*old(self) }),
    {
        self.restore_dialog = true;
    }

    pub fn hide_restore_dialog(&mut self)
        ensures
            *final(self) == (HistoryView { restore_dialog: false, ..*old(self) }),
    {
        self.restore_dialog = false;
    }

    pub fn show_new_checkpoint_dialog(&mut self)
        ensures
            *final(self) == (HistoryView { new_checkpoint_dialog: true, ..*old(self) }),
    {
        self.new_checkpoint_dialog = true;
    }

    pub fn hide_new_checkpoint_dialog(&mut self)
        ensures
            *final(self) == (HistoryView { new_checkpoint_dialog: false, ..*old(self) }),
    {
        self.new_checkpoint_dialog = false;
    }

    /// Shows the error of `result`, if any; nothing else changes.
    pub fn warn_on_error(&mut self, result: Result<(), Reason>)
        ensures
            match result {
                Ok(()) => *final(self) == *old(self),
                Err(e) => shows(final(self).generic_warning, spec_reason_message(&e)) && *final(self) == (HistoryView { generic_warning: final(self).generic_warning, ..*old(self) }),
            },
    {
        match result {
            Ok(()) => {},
            Err(e) => {
                self.generic_warning = Some(e.describe());
            },
        }
    }

    /// The "Create checkpoint" button, given what a scan of the project
    /// folder found: its error is shown; a folder without changes gets a
    /// warning; otherwise the dialog that names the checkpoint opens.
    pub fn create_checkpoint_clicked(&mut self, repo: &Repo, scan: Result<Workspace, Reason>)
        requires
            current_in_range(repo@),
            scan matches Ok(ws) ==> workspace_inside(old(self).project_path@, ws@),
        ensures
            match scan {
                Err(e) => shows(final(self).generic_warning, spec_reason_message(&e)) && *final(self) == (HistoryView { generic_warning: final(self).generic_warning, ..*old(self) }),
                Ok(ws) => if delta_is_noop(spec_delta(repo@, old(self).project_path@, ws@)) {
                    shows(final(self).generic_warning, no_changes_message()) && *final(self) == (
                    HistoryView { generic_warning: final(self).generic_warning, ..*old(self) })
                } else {
                    *final(self) == (HistoryView { new_checkpoint_dialog: true, ..*old(self) })
                },
            },
    {
        match scan {
            Err(e) => {
                self.generic_warning = Some(e.describe());
            },
            Ok(ws) => {
                let delta = repo.get_workspace_delta(&self.project_path, &ws);
                if delta.is_noop() {
                    self.generic_warning = Some(
                        String::from_str("You cannot make a checkpoint when there are no changes!"),
                    );
                } else {
                    self.new_checkpoint_dialog = true;
                }
            },
        }
    }

    /// The "Restore checkpoint" button, given what a scan of the project
    /// folder found: its error is shown; unsaved changes open the warning
    /// dialog; a folder without changes is restored at once (the result is
    /// `true`, and the caller restores the selected checkpoint).
    pub fn restore_clicked(&mut self, repo: &Repo, scan: Result<Workspace, Reason>) -> (restore_now:
        bool)
        requires
            current_in_range(repo@),
            scan matches Ok(ws) ==> workspace_inside(old(self).project_path@, ws@),
        ensures
            match scan {
                Err(e) => !restore_now && shows(final(self).generic_warning, spec_reason_message(&e))
                    && *final(self) == (HistoryView {
                    generic_warning: final(self).generic_warning,
                    ..*old(self)
                }),
                Ok(ws) => if delta_is_noop(spec_delta(repo@, old(self).project_path@, ws@)) {
                    restore_now && *final(self) == *old(self)
                } else {
                    !restore_now && *final(self) == (HistoryView {
                        restore_dialog: true,
                        ..*old(self)
                    })
                },
            },
    {
        match scan {
            Err(e) => {
                self.generic_warning = Some(e.describe());
                false
            },
            Ok(ws) => {
                let delta = repo.get_workspace_delta(&self.project_path, &ws);
                if !delta.is_noop() {
                    self.restore_dialog = true;
                    false
                } else {
                    true
                }
            },
        }
    }

    /// What the "Create" button of the naming dialog did, with `count`
    /// checkpoints now and `selected` the selected one: an error is shown and
    /// the dialog stays; otherwise the inputs are cleared and the dialog
    /// closes, and a new checkpoint is selected, while no change shows a
    /// warning.  The result is the selection.
    pub fn commit_finished(
        &mut self,
        result: Result<CommitResult, Reason>,
        count: usize,
        selected: Option<usize>,
    ) -> (r: Option<usize>)
        requires
            result matches Ok(CommitResult::Success) ==> count > 0,
        ensures
            match result {
                Err(e) => r == selected && shows(
                    final(self).generic_warning,
                    spec_reason_message(&e),
                ) && *final(self) == (HistoryView {
                    generic_warning: final(self).generic_warning,
                    ..*old(self)
                }),
                Ok(c) => {
                    &&& final(self).checkpoint_name_input@.len() == 0
                    &&& final(self).checkpoint_description_input@.len() == 0
                    &&& c == CommitResult::NoOp ==> r == selected && shows(
                        final(self).generic_warning,
                        empty_checkpoint_message(),
                    ) && *final(self) == (HistoryView {
                        checkpoint_name_input: final(self).checkpoint_name_input,
                        checkpoint_description_input: final(self).checkpoint_description_input,
                        new_checkpoint_dialog: false,
                        generic_warning: final(self).generic_warning,
                        ..*old(self)
                    })
                    &&& c == CommitResult::Success ==> r == Some((count - 1) as usize) && *final(self) == (HistoryView {
                        checkpoint_name_input: final(self).checkpoint_name_input,
                        checkpoint_description_input: final(self).checkpoint_description_input,
                        new_checkpoint_dialog: false,
                        ..*old(self)
                    })
                },
            },
    {
        match result {
            Err(e) => {
                self.generic_warning = Some(e.describe());
                selected
            },
            Ok(c) => {
                self.checkpoint_name_input = String::new();
                self.checkpoint_description_input = String::new();
                self.new_checkpoint_dialog = false;
                match c {
                    CommitResult::NoOp => {
                        self.generic_warning = Some(
                            String::from_str("You must have changes to make a checkpoint!"),
                        );
                        selected
                    },
                    CommitResult::Success => Some(count - 1),
                }
            },
        }
    }

    /// The "Cancel" button of the naming dialog: the name is cleared (the
    /// description is kept) and the dialog closes.
    pub fn commit_cancelled(&mut self)
        ensures
            final(self).checkpoint_name_input@.len() == 0,
            *final(self) == (HistoryView {
                checkpoint_name_input: final(self).checkpoint_name_input,
                new_checkpoint_dialog: false,
                ..*old(self)
            }),
    {
        self.checkpoint_name_input = String::new();
        self.new_checkpoint_dialog = false;
    }

    /// The "View unsaved work" button, given what a scan of the project
    /// folder found: the diff is to be recomputed, and the window of changes
    /// opens on the delta, or the scan's error is shown.
    pub fn view_unsaved_work(&mut self, repo: &Repo, scan: Result<Workspace, Reason>)
        requires
            current_in_range(repo@),
            scan matches Ok(ws) ==> workspace_inside(old(self).project_path@, ws@),
        ensures
            match scan {
                Err(e) => shows(final(self).generic_warning, spec_reason_message(&e)) && *final(self) == (HistoryView {
                    recalculate_diff: true,
                    generic_warning: final(self).generic_warning,
                    ..*old(self)
                }),
                Ok(ws) => (final(self).workspace_delta matches Some(d) && d@ == spec_delta(
                    repo@,
                    old(self).project_path@,
                    ws@,
                )) && *final(self) == (HistoryView {
                    recalculate_diff: true,
                    diff_view: true,
                    workspace_delta: final(self).workspace_delta,
                    ..*old(self)
                }),
            },
    {
        self.recalculate_diff = true;
        match scan {
            Err(e) => {
                self.generic_warning = Some(e.describe());
            },
            Ok(ws) => {
                let delta = repo.get_workspace_delta(&self.project_path, &ws);
                self.workspace_delta = Some(delta);
                self.diff_view = true;
            },
        }
    }

    /// A file picked in the window of changes; its diff is to be computed.
    pub fn select_diff_file(&mut self, file: FsPath)
        ensures
            *final(self) == (HistoryView {
                selected_diff_file: Some(file),
                recalculate_diff: true,
                ..*old(self)
            }),
    {
        self.selected_diff_file = Some(file);
        self.recalculate_diff = true;
    }

    /// The "Close" button of the window of changes.
    pub fn close_diff(&mut self)
        ensures
            *final(self) == (HistoryView {
                diff_view: false,
                workspace_delta: None,
                ..*old(self)
            }),
    {
        self.diff_view = false;
        self.workspace_delta = None;
    }

    /// Recomputes the diff lines of the selected file, whose text is now
    /// `new_text`, when they are to be recomputed; else nothing changes.
    pub fn refresh_diff(&mut self, repo: &Repo, new_text: &str)
        requires
            current_in_range(repo@),
        ensures
            old(self).recalculate_diff && old(self).selected_diff_file is Some ==> lines_view(
                final(self).cached_diff_lines@,
            ) == diff_window_lines(
                diff_hunks(checkpoint_text(repo@, old(self).selected_diff_file->0@), new_text@),
            ) && *final(self) == (HistoryView {
                cached_diff_lines: final(self).cached_diff_lines,
                recalculate_diff: false,
                ..*old(self)
            }),
            !(old(self).recalculate_diff && old(self).selected_diff_file is Some) ==> *final(self)
                == *old(self),
    {
        if !self.recalculate_diff {
            return;
        }
        let lines = match &self.selected_diff_file {
            Some(file) => file_diff_window(repo, file, new_text),
            None => return,
        };
        self.recalculate_diff = false;
        self.cached_diff_lines = lines;
    }
}

/// The label of checkpoint `id` in the history list: its name, marked with
/// a dot when the project is on it.
pub open spec fn spec_commit_label(r: RepoView, id: int) -> Seq<char> {
    if r.current == Some(id as usize) {
        "\u{25CF} "@ + r.commits[id].message
    } else {
        r.commits[id].message
    }
}

pub fn commit_label(repo: &Repo, id: usize) -> (r: String)
    requires
        id < repo@.commits.len(),
    ensures
        r@ == spec_commit_label(repo@, id as int),
        repo@.current == Some(id) ==> r@ == "\u{25CF} "@ + repo@.commits[id as int].message,
        repo@.current != Some(id) ==> r@ == repo@.commits[id as int].message,
{
    let is_current = match repo.current_checkpoint {
        Some(c) => c == id,
        None => false,
    };
    if is_current {
        let mut s = String::from_str("\u{25CF} ");
        s.append(repo.commits[id].message.as_str());
        s
    } else {
        repo.commits[id].message.clone()
    }
}

/// The groups of changes that `similar` shows for the line diff of `old`
/// and `new`, with five lines of context around each change.
pub uninterp spec fn diff_hunks(old: Seq<char>, new: Seq<char>) -> Seq<Seq<(LineTag, Seq<char>)>>;

/// `similar::TextDiff::from_lines(old, new).grouped_ops(5)`, each change of
/// each group taken by its tag and its line.  The contract names the result.
#[verifier::external_body]
fn grouped_changes(old: &str, new: &str) -> (r: Vec<Vec<(LineTag, String)>>)
    ensures
        r@.map_values(|g: Vec<(LineTag, String)>| g@.map_values(|c: (LineTag, String)| (c.0, c.1@)))
            == diff_hunks(old@, new@),
{
    let diff = similar::TextDiff::from_lines(old, new);
    let mut groups = Vec::new();
    for group in diff.grouped_ops(5) {
        let mut changes = Vec::new();
        for change in group.iter().flat_map(|op| diff.iter_changes(op)) {
            let tag = match change.tag() {
                similar::ChangeTag::Equal => LineTag::Equal,
                similar::ChangeTag::Insert => LineTag::Insert,
                similar::ChangeTag::Delete => LineTag::Delete,
            };
            changes.push((tag, change.value().to_string()));
        }
        groups.push(changes);
    }
    groups
}

/// `s` without trailing `\n` characters.
pub open spec fn trim_newlines_end(s: Seq<char>) -> Seq<char>
    decreases s.len(),
{
    if s.len() > 0 && s.last() == '\n' {
        trim_newlines_end(s.drop_last())
    } else {
        s
    }
}

pub open spec fn tag_prefix(t: LineTag) -> Seq<char> {
    match t {
        LineTag::Insert => "+ "@,
        LineTag::Delete => "- "@,
        LineTag::Equal => "  "@,
    }
}

pub open spec fn hunk_break() -> Seq<char> {
    "--- HUNK BREAK ---"@
}

/// The lines of the diff window for `hunks`: each change with its prefix and
/// without its line ending, and a break after each group.
pub open spec fn diff_window_lines(hunks: Seq<Seq<(LineTag, Seq<char>)>>) -> Seq<(LineTag, Seq<char>)>
    decreases hunks.len(),
{
    if hunks.len() == 0 {
        Seq::empty()
    } else {
        diff_window_lines(hunks.drop_last()) + hunks.last().map_values(
            |c: (LineTag, Seq<char>)| (c.0, trim_newlines_end(tag_prefix(c.0) + c.1)),
        ).push((LineTag::Equal, hunk_break()))
    }
}

pub open spec fn lines_view(v: Seq<(LineTag, String)>) -> Seq<(LineTag, Seq<char>)> {
    v.map_values(|c: (LineTag, String)| (c.0, c.1@))
}

proof fn lemma_trim_newlines_end(s: Seq<char>, k: int)
    requires
        0 <= k <= s.len(),
        forall|j: int| k <= j < s.len() ==> s[j] == '\n',
        k == 0 || s[k - 1] != '\n',
    ensures
        trim_newlines_end(s) == s.take(k),
    decreases s.len() - k,
{
    if k == s.len() {
        assert(s.take(k) =~= s);
    } else {
        lemma_trim_newlines_end(s.drop_last(), k);
        assert(s.drop_last().take(k) =~= s.take(k));
    }
}

/// The text of one line of the diff window.
fn window_line(tag: LineTag, text: &String) -> (r: String)
    ensures
        r@ == trim_newlines_end(tag_prefix(tag) + text@),
{
    let prefix = match tag {
        LineTag::Insert => "+ ",
        LineTag::Delete => "- ",
        LineTag::Equal => "  ",
    };
    let mut full = String::from_str(prefix);
    full.append(text.as_str());
    let chars = chars_of(full.as_str());
    let mut k: usize = chars.len();
    while k > 0 && chars[k - 1] == '\n'
        invariant
            k <= chars@.len(),
            forall|j: int| k <= j < chars@.len() ==> chars@[j] == '\n',
        decreases k,
    {
        k = k - 1;
    }
    proof {
        lemma_trim_newlines_end(chars@, k as int);
    }
    let mut kept: Vec<char> = Vec::new();
    let mut i: usize = 0;
    while i < k
        invariant
            i <= k <= chars@.len(),
            kept@ == chars@.take(i as int),
        decreases k - i,
    {
        kept.push(chars[i]);
        i = i + 1;
    }
    string_of(kept.as_slice())
}

/// The lines of the diff window between `old` and `new`.
pub fn diff_window(old: &str, new: &str) -> (r: Vec<(LineTag, String)>)
    ensures
        lines_view(r@) == diff_window_lines(diff_hunks(old@, new@)),
{
    let groups = grouped_changes(old, new);
    let ghost hunks = diff_hunks(old@, new@);
    let mut out: Vec<(LineTag, String)> = Vec::new();
    let mut g: usize = 0;
    while g < groups.len()
        invariant
            g <= groups@.len(),
            groups@.map_values(|x: Vec<(LineTag, String)>| x@.map_values(|c: (LineTag, String)| (c.0, c.1@)))
                == hunks,
            lines_view(out@) == diff_window_lines(hunks.take(g as int)),
        decreases groups@.len() - g,
    {
        let group = &groups[g];
        let ghost h = hunks[g as int];
        assert(h == group@.map_values(|c: (LineTag, String)| (c.0, c.1@)));
        let ghost base = lines_view(out@);
        let mut k: usize = 0;
        while k < group.len()
            invariant
                k <= group@.len(),
                h == group@.map_values(|c: (LineTag, String)| (c.0, c.1@)),
                lines_view(out@) == base + h.take(k as int).map_values(
                    |c: (LineTag, Seq<char>)| (c.0, trim_newlines_end(tag_prefix(c.0) + c.1)),
                ),
            decreases group@.len() - k,
        {
            let line = window_line(group[k].0, &group[k].1);
            proof {
                assert(h[k as int] == (group@[k as int].0, group@[k as int].1@));
                assert(lines_view(out@.push((group[k as int].0, line))) =~= lines_view(out@).push(
                    (group@[k as int].0, line@),
                ));
                assert(h.take(k + 1).map_values(
                    |c: (LineTag, Seq<char>)| (c.0, trim_newlines_end(tag_prefix(c.0) + c.1)),
                ) =~= h.take(k as int).map_values(
                    |c: (LineTag, Seq<char>)| (c.0, trim_newlines_end(tag_prefix(c.0) + c.1)),
                ).push((h[k as int].0, trim_newlines_end(tag_prefix(h[k as int].0) + h[k as int].1))));
            }
            out.push((group[k].0, line));
            k = k + 1;
        }
        let brk = String::from_str("--- HUNK BREAK ---");
        proof {
            assert(h.take(group@.len() as int) =~= h);
            assert(hunks.take(g + 1).drop_last() =~= hunks.take(g as int));
            assert(hunks.take(g + 1).last() == h);
            assert(lines_view(out@.push((LineTag::Equal, brk))) =~= lines_view(out@).push(
                (LineTag::Equal, brk@),
            ));
        }
        out.push((LineTag::Equal, brk));
        g = g + 1;
    }
    assert(hunks.take(groups@.len() as int) =~= hunks);
    out
}

/// The text the diff window shows for `file` as it was at the checkpoint
/// the project is on: its stored contents decoded as UTF-8 with
/// replacement, or nothing.
pub open spec fn checkpoint_text(r: RepoView, file: PathView) -> Seq<char> {
    let cur = current_files(r);
    let i = path_index(cur, file, 0);
    if i < cur.len() && r.blobs.contains_key(cur[i].1) {
        utf8_lossy(r.blobs[cur[i].1])
    } else {
        Seq::empty()
    }
}

/// The lines of the diff window for `file`, whose current text is
/// `new_text`, against the checkpoint the project is on.
pub fn file_diff_window(repo: &Repo, file: &FsPath, new_text: &str) -> (r: Vec<(LineTag, String)>)
    requires
        current_in_range(repo@),
    ensures
        lines_view(r@) == diff_window_lines(diff_hunks(checkpoint_text(repo@, file@), new_text@)),
{
    let ghost cur = current_files(repo@);
    let empty: Vec<(FsPath, [u8; 32])> = Vec::new();
    let files = match repo.current_checkpoint {
        Some(c) => &repo.commits[c].files,
        None => &empty,
    };
    assert(files_view(files@) == cur);
    let old_text = match find_path(files, file) {
        Some(i) => {
            assert(cur[i as int].1 == files@[i as int].1@);
            match repo.file_data.get(&files[i].1) {
                Some(d) => string_from_utf8_lossy(d.0.as_slice()),
                None => String::new(),
            }
        },
        None => String::new(),
    };
    assert(old_text@ == checkpoint_text(repo@, file@));
    diff_window(old_text.as_str(), new_text)
}

/// The checkpoint the project is on marks its label, and no other label is
/// marked: its label is the marker and its name, every other label is just
/// the checkpoint's name.
pub proof fn lemma_commit_label_marks_current(r: RepoView, id: int)
    requires
        0 <= id < r.commits.len(),
    ensures
        r.current == Some(id as usize) ==> spec_commit_label(r, id) == "\u{25CF} "@
            + r.commits[id].message,
        r.current != Some(id as usize) ==> spec_commit_label(r, id) == r.commits[id].message,
{
}

/// The old side of the diff window is the file as the checkpoint the
/// project is on stores it: the content of the first entry for the file in
/// that checkpoint, decoded; nothing when that checkpoint has no entry for
/// it, or there is no checkpoint.
pub proof fn lemma_checkpoint_text_is_current_content(r: RepoView, file: PathView)
    requires
        r.current matches Some(c) ==> c < r.commits.len(),
    ensures
        r.current is None ==> checkpoint_text(r, file) == Seq::<char>::empty(),
        r.current matches Some(c) ==> {
            let files = r.commits[c as int].files;
            &&& (forall|j: int| 0 <= j < files.len() ==> files[j].0 != file)
                ==> checkpoint_text(r, file) == Seq::<char>::empty()
            &&& forall|i: int|
                0 <= i < files.len() && files[i].0 == file && (forall|j: int|
                    0 <= j < i ==> files[j].0 != file) && r.blobs.contains_key(#[trigger] files[i].1)
                    ==> checkpoint_text(r, file) == utf8_lossy(r.blobs[files[i].1])
        },
{
    match r.current {
        None => {},
        Some(c) => {
            let files = r.commits[c as int].files;
            assert(current_files(r) == files);
            lemma_path_index_range(files, file, 0);
            assert forall|i: int|
                0 <= i < files.len() && files[i].0 == file && (forall|j: int|
                    0 <= j < i ==> files[j].0 != file) && r.blobs.contains_key(#[trigger] files[i].1)
                    implies checkpoint_text(r, file) == utf8_lossy(r.blobs[files[i].1]) by {
                lemma_path_index(files, file, 0, i);
            }
            if forall|j: int| 0 <= j < files.len() ==> files[j].0 != file {
                lemma_path_index(files, file, 0, files.len() as int);
            }
        },
    }
}

} // verus!
