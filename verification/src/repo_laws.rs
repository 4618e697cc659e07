//! What checkpointing promises as a whole: a checkpoint leaves the project
//! folder clean, a restored folder is clean, and a repository stays
//! consistent and content-addressed.
use vstd::prelude::*;
use crate::data_structures::{
    CommitView, DeltaEntryView, FileStatus, RepoView, WorkspaceView, apply_changes, contents_present,
    current_files, current_in_range, delta_bucket, delta_is_noop, deleted_paths, has_path,
    lemma_bucket_origin, lemma_deleted_absent, lemma_path_index_range, lemma_retained_keeps,
    new_entries, path_index, present, relative_of, repo_wf, restore_files, retained, set_hash,
    sha256, snapshot_blobs, snapshot_files, spec_delta, spec_file_status, store_blobs,
    workspace_entry, workspace_inside,
};
use crate::file_system::spec_is_trackable;
use crate::path::{PathView, spec_join, spec_strip_prefix};

verus! {

/// Every stored content is keyed by its own SHA-256 hash.
pub open spec fn content_addressed(m: Map<Seq<u8>, Seq<u8>>) -> bool {
    forall|k: Seq<u8>| #[trigger] m.contains_key(k) ==> sha256(m[k]) == k
}

/// No file is listed twice.
pub open spec fn distinct_files(ws: WorkspaceView) -> bool {
    forall|i: int, j: int|
        0 <= i < ws.files.len() && 0 <= j < ws.files.len() && i != j ==> ws.files[i].0
            != ws.files[j].0
}

/// Two paths with the same remainder after the same prefix are the same.
pub proof fn lemma_strip_injective(a: PathView, b: PathView, p: PathView, x: PathView)
    requires
        spec_strip_prefix(a, p) == Some(x),
        spec_strip_prefix(b, p) == Some(x),
    ensures
        a == b,
{
    let n = p.parts.len() as int;
    assert(a.parts.len() == n + x.parts.len());
    assert forall|k: int| 0 <= k < a.parts.len() implies a.parts[k] == b.parts[k] by {
        if k < n {
            assert(a.parts.subrange(0, n)[k] == p.parts[k]);
            assert(b.parts.subrange(0, n)[k] == p.parts[k]);
        } else {
            assert(a.parts.skip(n)[k - n] == x.parts[k - n]);
            assert(b.parts.skip(n)[k - n] == x.parts[k - n]);
        }
    }
    assert(a.parts =~= b.parts);
}

/// A file's entry lies in the bucket of its status.
pub proof fn lemma_bucket_contains(
    r: RepoView,
    root: PathView,
    ws: WorkspaceView,
    files: Seq<(PathView, Seq<u8>)>,
    st: FileStatus,
    i: int,
    e: DeltaEntryView,
)
    requires
        0 <= i < files.len(),
        workspace_entry(r, root, ws, files[i]) == Some((st, e)),
    ensures
        delta_bucket(r, root, ws, files, st).contains(e),
    decreases files.len(),
{
    let prev = delta_bucket(r, root, ws, files.drop_last(), st);
    if i < files.len() - 1 {
        assert(files.drop_last()[i] == files[i]);
        lemma_bucket_contains(r, root, ws, files.drop_last(), st, i, e);
        let w = choose|w: int| 0 <= w < prev.len() && prev[w] == e;
        let b = delta_bucket(r, root, ws, files, st);
        assert(b[w] == prev[w]);
    } else {
        assert(files.last() == files[i]);
        assert(delta_bucket(r, root, ws, files, st)[prev.len() as int] == e);
    }
}

/// A bucket is empty when no file has an entry.
pub proof fn lemma_bucket_empty(
    r: RepoView,
    root: PathView,
    ws: WorkspaceView,
    files: Seq<(PathView, Seq<u8>)>,
    st: FileStatus,
)
    requires
        forall|i: int| 0 <= i < files.len() ==> workspace_entry(r, root, ws, #[trigger] files[i]) is None,
    ensures
        delta_bucket(r, root, ws, files, st).len() == 0,
    decreases files.len(),
{
    if files.len() > 0 {
        assert forall|i: int| 0 <= i < files.drop_last().len() implies workspace_entry(
            r,
            root,
            ws,
            #[trigger] files.drop_last()[i],
        ) is None by {
            assert(files.drop_last()[i] == files[i]);
        }
        lemma_bucket_empty(r, root, ws, files.drop_last(), st);
        assert(files.last() == files[files.len() - 1]);
    }
}

/// A path that is gone is among the deleted ones.
pub proof fn lemma_absent_deleted(files: Seq<(PathView, Seq<u8>)>, ws: WorkspaceView, j: int)
    requires
        0 <= j < files.len(),
        !present(ws, files[j].0),
    ensures
        deleted_paths(files, ws).contains(files[j].0),
    decreases files.len(),
{
    let prev = deleted_paths(files.drop_last(), ws);
    if j < files.len() - 1 {
        assert(files.drop_last()[j] == files[j]);
        lemma_absent_deleted(files.drop_last(), ws, j);
        let w = choose|w: int| 0 <= w < prev.len() && prev[w] == files[j].0;
        assert(deleted_paths(files, ws)[w] == prev[w]);
    } else {
        assert(deleted_paths(files, ws)[prev.len() as int] == files[j].0);
    }
}

/// No deleted paths when every path is present.
pub proof fn lemma_none_deleted(files: Seq<(PathView, Seq<u8>)>, ws: WorkspaceView)
    requires
        forall|j: int| 0 <= j < files.len() ==> present(ws, #[trigger] files[j].0),
    ensures
        deleted_paths(files, ws).len() == 0,
    decreases files.len(),
{
    if files.len() > 0 {
        assert forall|j: int| 0 <= j < files.drop_last().len() implies present(
            ws,
            #[trigger] files.drop_last()[j].0,
        ) by {
            assert(files.drop_last()[j] == files[j]);
        }
        lemma_none_deleted(files.drop_last(), ws);
        assert(files.last() == files[files.len() - 1]);
    }
}

/// Each retained entry is an entry whose path is not deleted.
pub proof fn lemma_retained_origin(files: Seq<(PathView, Seq<u8>)>, deleted: Seq<PathView>, w: int)
    requires
        0 <= w < retained(files, deleted).len(),
    ensures
        exists|j: int|
            0 <= j < files.len() && #[trigger] files[j] == retained(files, deleted)[w]
                && !deleted.contains(files[j].0),
    decreases files.len(),
{
    let prev = retained(files.drop_last(), deleted);
    if w < prev.len() {
        lemma_retained_origin(files.drop_last(), deleted, w);
        let j = choose|j: int|
            0 <= j < files.drop_last().len() && #[trigger] files.drop_last()[j] == prev[w]
                && !deleted.contains(files.drop_last()[j].0);
        assert(files[j] == files.drop_last()[j]);
    } else {
        assert(files[files.len() - 1] == files.last());
    }
}

/// Tracked files in `files` have pairwise different relative paths.
pub open spec fn distinct_relatives(root: PathView, ws: WorkspaceView, files: Seq<(PathView, Seq<u8>)>) -> bool {
    forall|i: int, j: int|
        0 <= i < files.len() && 0 <= j < files.len() && i != j && spec_is_trackable(
            root,
            #[trigger] files[i].0,
        ) && spec_is_trackable(root, #[trigger] files[j].0) ==> spec_strip_prefix(
            files[i].0,
            ws.project,
        ) != spec_strip_prefix(files[j].0, ws.project)
}

/// The entries of a bucket have pairwise different paths.
pub proof fn lemma_bucket_paths_distinct(
    r: RepoView,
    root: PathView,
    ws: WorkspaceView,
    files: Seq<(PathView, Seq<u8>)>,
    st: FileStatus,
)
    requires
        distinct_relatives(root, ws, files),
        forall|i: int|
            0 <= i < files.len() && spec_is_trackable(root, #[trigger] files[i].0)
                ==> spec_strip_prefix(files[i].0, ws.project) is Some,
    ensures
        forall|u: int, t: int|
            0 <= u < delta_bucket(r, root, ws, files, st).len() && 0 <= t < delta_bucket(
                r,
                root,
                ws,
                files,
                st,
            ).len() && u != t ==> #[trigger] delta_bucket(r, root, ws, files, st)[u].0
                != #[trigger] delta_bucket(r, root, ws, files, st)[t].0,
    decreases files.len(),
{
    if files.len() > 0 {
        let fl = files.drop_last();
        assert forall|i: int, j: int|
            0 <= i < fl.len() && 0 <= j < fl.len() && i != j && spec_is_trackable(
                root,
                #[trigger] fl[i].0,
            ) && spec_is_trackable(root, #[trigger] fl[j].0) implies spec_strip_prefix(
            fl[i].0,
            ws.project,
        ) != spec_strip_prefix(fl[j].0, ws.project) by {
            assert(fl[i] == files[i] && fl[j] == files[j]);
        }
        assert forall|i: int|
            0 <= i < fl.len() && spec_is_trackable(root, #[trigger] fl[i].0) implies spec_strip_prefix(
            fl[i].0,
            ws.project,
        ) is Some by {
            assert(fl[i] == files[i]);
        }
        lemma_bucket_paths_distinct(r, root, ws, fl, st);
        let prev = delta_bucket(r, root, ws, fl, st);
        let b = delta_bucket(r, root, ws, files, st);
        let n = files.len() - 1;
        assert(files.last() == files[n]);
        assert forall|u: int, t: int| 0 <= u < b.len() && 0 <= t < b.len() && u != t implies #[trigger] b[u].0
            != #[trigger] b[t].0 by {
            if u < prev.len() && t < prev.len() {
                assert(b[u] == prev[u] && b[t] == prev[t]);
            } else {
                let (x, y) = if u < prev.len() {
                    (u, t)
                } else {
                    (t, u)
                };
                // y is the entry of the last file, x that of an earlier one
                assert(y == prev.len());
                lemma_bucket_origin(r, root, ws, fl, st, x);
                let j = choose|j: int|
                    0 <= j < fl.len() && workspace_entry(r, root, ws, #[trigger] fl[j]) == Some(
                        (st, prev[x]),
                    );
                assert(fl[j] == files[j]);
                assert(b[x] == prev[x]);
                assert(spec_is_trackable(root, files[j].0));
                assert(spec_is_trackable(root, files[n].0));
                assert(spec_strip_prefix(files[j].0, ws.project) != spec_strip_prefix(
                    files[n].0,
                    ws.project,
                ));
            }
        }
    }
}

/// Entries whose path no change names are kept.
pub proof fn lemma_apply_keeps(files: Seq<(PathView, Seq<u8>)>, changed: Seq<DeltaEntryView>, w: int)
    requires
        0 <= w < files.len(),
        forall|t: int| 0 <= t < changed.len() ==> #[trigger] changed[t].0 != files[w].0,
    ensures
        apply_changes(files, changed).len() == files.len(),
        apply_changes(files, changed)[w] == files[w],
    decreases changed.len(),
{
    if changed.len() > 0 {
        assert forall|t: int| 0 <= t < changed.drop_last().len() implies #[trigger] changed.drop_last()[t].0
            != files[w].0 by {
            assert(changed.drop_last()[t] == changed[t]);
        }
        lemma_apply_keeps(files, changed.drop_last(), w);
        let prev = apply_changes(files, changed.drop_last());
        let e = changed.last();
        assert(e == changed[changed.len() - 1]);
        lemma_path_index_range(prev, e.0, 0);
    }
}

/// The paths of `files` are also those after the changes.
pub proof fn lemma_apply_paths(files: Seq<(PathView, Seq<u8>)>, changed: Seq<DeltaEntryView>)
    ensures
        apply_changes(files, changed).len() == files.len(),
        forall|j: int|
            0 <= j < files.len() ==> #[trigger] apply_changes(files, changed)[j].0 == files[j].0,
    decreases changed.len(),
{
    if changed.len() > 0 {
        lemma_apply_paths(files, changed.drop_last());
        let prev = apply_changes(files, changed.drop_last());
        lemma_path_index_range(prev, changed.last().0, 0);
    }
}

/// A change whose path no other change names leaves its entry in the
/// result.
pub proof fn lemma_apply_sets(files: Seq<(PathView, Seq<u8>)>, changed: Seq<DeltaEntryView>, t: int)
    requires
        0 <= t < changed.len(),
        has_path(files, changed[t].0),
        forall|u: int| 0 <= u < changed.len() && u != t ==> #[trigger] changed[u].0 != changed[t].0,
    ensures
        apply_changes(files, changed).contains((changed[t].0, changed[t].1)),
    decreases changed.len(),
{
    let p = changed[t].0;
    let prev = apply_changes(files, changed.drop_last());
    lemma_apply_paths(files, changed.drop_last());
    let e = changed.last();
    assert(e == changed[changed.len() - 1]);
    if t == changed.len() - 1 {
        let j = choose|j: int| 0 <= j < files.len() && #[trigger] files[j].0 == p;
        assert(prev[j].0 == p);
        lemma_path_index_range(prev, p, 0);
        let i0 = path_index(prev, p, 0);
        assert(i0 < prev.len());
        assert(set_hash(prev, p, e.1)[i0] == (p, e.1));
    } else {
        assert forall|u: int| 0 <= u < changed.drop_last().len() && u != t implies #[trigger] changed.drop_last()[u].0
            != changed.drop_last()[t].0 by {
            assert(changed.drop_last()[u] == changed[u]);
        }
        assert(changed.drop_last()[t] == changed[t]);
        lemma_apply_sets(files, changed.drop_last(), t);
        let w = choose|w: int| 0 <= w < prev.len() && prev[w] == (p, changed[t].1);
        assert(e.0 != p);
        lemma_path_index_range(prev, e.0, 0);
        assert(set_hash(prev, e.0, e.1)[w] == prev[w]);
    }
}

/// The entry of a listed file, and where it comes from.
proof fn lemma_entry_facts(r: RepoView, root: PathView, ws: WorkspaceView, i: int)
    requires
        0 <= i < ws.files.len(),
        workspace_inside(root, ws),
        spec_is_trackable(root, ws.files[i].0),
    ensures
        relative_of(ws, i) is Some,
        workspace_entry(r, root, ws, ws.files[i]) is None <==> spec_file_status(
            current_files(r),
            relative_of(ws, i)->0,
            sha256(ws.files[i].1),
        ) == FileStatus::Unchanged,
{
}

/// A folder state is clean against a checkpoint holding every tracked file
/// with its hash and only paths that exist.
pub proof fn lemma_clean_when_recorded(r: RepoView, root: PathView, ws: WorkspaceView)
    requires
        forall|i: int|
            0 <= i < ws.files.len() && spec_is_trackable(root, #[trigger] ws.files[i].0) ==> (
            relative_of(ws, i) is Some && current_files(r).contains(
                (relative_of(ws, i)->0, sha256(ws.files[i].1)),
            )),
        forall|k: int|
            0 <= k < current_files(r).len() ==> present(ws, #[trigger] current_files(r)[k].0),
    ensures
        delta_is_noop(spec_delta(r, root, ws)),
{
    assert forall|i: int| 0 <= i < ws.files.len() implies workspace_entry(
        r,
        root,
        ws,
        #[trigger] ws.files[i],
    ) is None by {
        if spec_is_trackable(root, ws.files[i].0) {
            assert(current_files(r).contains((relative_of(ws, i)->0, sha256(ws.files[i].1))));
        }
    }
    lemma_bucket_empty(r, root, ws, ws.files, FileStatus::New);
    lemma_bucket_empty(r, root, ws, ws.files, FileStatus::Modified);
    lemma_none_deleted(current_files(r), ws);
}

/// After a checkpoint of a project folder, the folder shows no changes
/// against that checkpoint.
pub proof fn lemma_commit_leaves_clean_workspace(
    r: RepoView,
    after: RepoView,
    root: PathView,
    ws: WorkspaceView,
)
    requires
        current_in_range(r),
        workspace_inside(root, ws),
        distinct_files(ws),
        current_files(after) == snapshot_files(r, spec_delta(r, root, ws)),
    ensures
        delta_is_noop(spec_delta(after, root, ws)),
{
    let d = spec_delta(r, root, ws);
    let cur = current_files(r);
    let kept = retained(cur, d.deleted_files);
    let applied = apply_changes(kept, d.changed_files);
    let f = snapshot_files(r, d);
    assert(f == applied + new_entries(d.new_files));
    assert forall|i: int, j: int|
        0 <= i < ws.files.len() && 0 <= j < ws.files.len() && i != j && spec_is_trackable(
            root,
            #[trigger] ws.files[i].0,
        ) && spec_is_trackable(root, #[trigger] ws.files[j].0) implies spec_strip_prefix(
        ws.files[i].0,
        ws.project,
    ) != spec_strip_prefix(ws.files[j].0, ws.project) by {
        if spec_strip_prefix(ws.files[i].0, ws.project) == spec_strip_prefix(
            ws.files[j].0,
            ws.project,
        ) {
            lemma_strip_injective(
                ws.files[i].0,
                ws.files[j].0,
                ws.project,
                spec_strip_prefix(ws.files[i].0, ws.project)->0,
            );
        }
    }
    lemma_apply_paths(kept, d.changed_files);
    // every tracked file is recorded with its hash
    assert forall|i: int|
        0 <= i < ws.files.len() && spec_is_trackable(root, #[trigger] ws.files[i].0) implies (
        relative_of(ws, i) is Some && f.contains((relative_of(ws, i)->0, sha256(ws.files[i].1)))) by {
        let rel = relative_of(ws, i)->0;
        let h = sha256(ws.files[i].1);
        lemma_entry_facts(r, root, ws, i);
        let st = spec_file_status(cur, rel, h);
        // no other tracked file has this relative path
        assert forall|i2: int|
            0 <= i2 < ws.files.len() && i2 != i && spec_is_trackable(root, ws.files[i2].0)
                implies relative_of(ws, i2) != Some(rel) by {
            if relative_of(ws, i2) == Some(rel) {
                lemma_strip_injective(ws.files[i2].0, ws.files[i].0, ws.project, rel);
            }
        }
        // so no change other than this file's names its path
        assert forall|t: int| 0 <= t < d.changed_files.len() && #[trigger] d.changed_files[t].0 == rel
            implies d.changed_files[t] == (rel, h, if r.blobs.contains_key(h) {
            None
        } else {
            Some(ws.files[i].1)
        }) && st == FileStatus::Modified by {
            lemma_bucket_origin(r, root, ws, ws.files, FileStatus::Modified, t);
            let i2 = choose|i2: int|
                0 <= i2 < ws.files.len() && workspace_entry(r, root, ws, #[trigger] ws.files[i2])
                    == Some((FileStatus::Modified, d.changed_files[t]));
            assert(spec_is_trackable(root, ws.files[i2].0));
            assert(relative_of(ws, i2) == Some(rel));
        }
        if st == FileStatus::Unchanged {
            let j = choose|j: int| 0 <= j < cur.len() && cur[j] == (rel, h);
            assert(present(ws, rel));
            if d.deleted_files.contains(rel) {
                let q = choose|q: int| 0 <= q < d.deleted_files.len() && d.deleted_files[q] == rel;
                lemma_deleted_absent(cur, ws, q);
            }
            lemma_retained_keeps(cur, d.deleted_files, j);
            let w = choose|w: int| 0 <= w < kept.len() && kept[w] == cur[j];
            assert forall|t: int| 0 <= t < d.changed_files.len() implies #[trigger] d.changed_files[t].0
                != kept[w].0 by {}
            lemma_apply_keeps(kept, d.changed_files, w);
            assert(f[w] == applied[w]);
        } else if st == FileStatus::Modified {
            let e = (rel, h, if r.blobs.contains_key(h) {
                None
            } else {
                Some(ws.files[i].1)
            });
            assert(workspace_entry(r, root, ws, ws.files[i]) == Some((FileStatus::Modified, e)));
            lemma_bucket_contains(r, root, ws, ws.files, FileStatus::Modified, i, e);
            let t = choose|t: int| 0 <= t < d.changed_files.len() && d.changed_files[t] == e;
            lemma_bucket_paths_distinct(r, root, ws, ws.files, FileStatus::Modified);
            assert forall|u: int| 0 <= u < d.changed_files.len() && u != t implies #[trigger] d.changed_files[u].0
                != d.changed_files[t].0 by {}
            crate::data_structures::lemma_delta_ready(r, root, ws);
            assert(has_path(kept, rel));
            lemma_apply_sets(kept, d.changed_files, t);
            let w = choose|w: int| 0 <= w < applied.len() && applied[w] == (rel, h);
            assert(f[w] == applied[w]);
        } else {
            let e = (rel, h, if r.blobs.contains_key(h) {
                None
            } else {
                Some(ws.files[i].1)
            });
            assert(workspace_entry(r, root, ws, ws.files[i]) == Some((FileStatus::New, e)));
            lemma_bucket_contains(r, root, ws, ws.files, FileStatus::New, i, e);
            let t = choose|t: int| 0 <= t < d.new_files.len() && d.new_files[t] == e;
            assert(new_entries(d.new_files)[t] == (rel, h));
            assert(f[applied.len() + t] == (rel, h));
        }
    }
    // every recorded path exists
    assert forall|k: int| 0 <= k < f.len() implies present(ws, #[trigger] f[k].0) by {
        if k < applied.len() {
            assert(f[k] == applied[k]);
            lemma_retained_origin(cur, d.deleted_files, k);
            let j = choose|j: int|
                0 <= j < cur.len() && #[trigger] cur[j] == kept[k] && !d.deleted_files.contains(
                    cur[j].0,
                );
            if !present(ws, cur[j].0) {
                lemma_absent_deleted(cur, ws, j);
            }
        } else {
            let t = k - applied.len();
            assert(f[k] == new_entries(d.new_files)[t]);
            lemma_bucket_origin(r, root, ws, ws.files, FileStatus::New, t);
            let i = choose|i: int|
                0 <= i < ws.files.len() && workspace_entry(r, root, ws, #[trigger] ws.files[i])
                    == Some((FileStatus::New, d.new_files[t]));
            assert(spec_is_trackable(root, ws.files[i].0));
            assert(relative_of(ws, i) == Some(f[k].0));
        }
    }
    lemma_clean_when_recorded(after, root, ws);
}

/// The files a restore of checkpoint `c` writes, placed in the project
/// folder at `project`.
pub open spec fn restored_files(r: RepoView, c: int, project: PathView) -> Seq<(PathView, Seq<u8>)> {
    restore_files(r, c).map_values(|e: (PathView, Seq<u8>)| (spec_join(project, e.0), e.1))
}

/// The path `p`, relative, placed in the folder at `project` and taken
/// back out of it.
proof fn lemma_join_strip(project: PathView, p: PathView)
    requires
        p.root.len() == 0,
    ensures
        spec_strip_prefix(spec_join(project, p), project) == Some(p),
{
    let joined = spec_join(project, p);
    assert(joined.parts.subrange(0, project.parts.len() as int) =~= project.parts);
    assert(joined.parts.skip(project.parts.len() as int) =~= p.parts);
    assert(p.root =~= Seq::<char>::empty());
}

/// After restoring a checkpoint whose paths are relative, into a
/// repository whose contents are keyed by their hashes, the project folder
/// shows no changes against it: the folder's tracked files are files the
/// restore wrote, and every file it wrote is there, whatever untracked
/// files the folder also holds.
pub proof fn lemma_restore_leaves_clean_workspace(r: RepoView, c: usize, root: PathView, ws: WorkspaceView)
    requires
        repo_wf(r),
        content_addressed(r.blobs),
        r.current == Some(c),
        c < r.commits.len(),
        forall|k: int|
            0 <= k < r.commits[c as int].files.len() ==> (#[trigger] r.commits[c as int].files[k]).0.root.len() == 0,
        forall|i: int|
            0 <= i < ws.files.len() && spec_is_trackable(root, #[trigger] ws.files[i].0)
                ==> restored_files(r, c as int, ws.project).contains(ws.files[i]),
        forall|k: int|
            0 <= k < r.commits[c as int].files.len() ==> ws.files.contains(
                #[trigger] restored_files(r, c as int, ws.project)[k],
            ),
    ensures
        delta_is_noop(spec_delta(r, root, ws)),
{
    let cur = current_files(r);
    let out = restored_files(r, c as int, ws.project);
    assert(cur == r.commits[c as int].files);
    assert forall|k: int| 0 <= k < cur.len() implies #[trigger] out[k] == (
        spec_join(ws.project, cur[k].0),
        r.blobs[cur[k].1],
    ) && r.blobs.contains_key(cur[k].1) && sha256(r.blobs[cur[k].1]) == cur[k].1 by {
        assert(r.commits[c as int].files[k] == cur[k]);
    }
    assert forall|i: int|
        0 <= i < ws.files.len() && spec_is_trackable(root, #[trigger] ws.files[i].0) implies (
        relative_of(ws, i) is Some && cur.contains((relative_of(ws, i)->0, sha256(ws.files[i].1)))) by {
        let k = choose|k: int| 0 <= k < out.len() && out[k] == ws.files[i];
        assert(out[k] == (spec_join(ws.project, cur[k].0), r.blobs[cur[k].1]));
        assert(r.commits[c as int].files[k] == cur[k]);
        lemma_join_strip(ws.project, cur[k].0);
        assert(cur[k] == (relative_of(ws, i)->0, sha256(ws.files[i].1)));
    }
    assert forall|k: int| 0 <= k < cur.len() implies present(ws, #[trigger] cur[k].0) by {
        assert(r.commits[c as int].files[k] == cur[k]);
        assert(ws.files.contains(out[k]));
        let i = choose|i: int| 0 <= i < ws.files.len() && ws.files[i] == out[k];
        lemma_join_strip(ws.project, cur[k].0);
        assert(spec_strip_prefix(ws.files[i].0, ws.project) == Some(cur[k].0));
    }
    lemma_clean_when_recorded(r, root, ws);
}

/// Stored contents stay when more are stored.
pub proof fn lemma_store_blobs_grows(m: Map<Seq<u8>, Seq<u8>>, entries: Seq<DeltaEntryView>, k: Seq<u8>)
    requires
        m.contains_key(k),
    ensures
        store_blobs(m, entries).contains_key(k),
    decreases entries.len(),
{
    if entries.len() > 0 {
        lemma_store_blobs_grows(m, entries.drop_last(), k);
    }
}

/// The hash of every entry of a bucket is stored after its contents are.
pub proof fn lemma_store_blobs_covers(
    r: RepoView,
    root: PathView,
    ws: WorkspaceView,
    m: Map<Seq<u8>, Seq<u8>>,
    st: FileStatus,
    t: int,
)
    requires
        forall|k: Seq<u8>| r.blobs.contains_key(k) ==> m.contains_key(k),
        0 <= t < delta_bucket(r, root, ws, ws.files, st).len(),
    ensures
        store_blobs(m, delta_bucket(r, root, ws, ws.files, st)).contains_key(
            delta_bucket(r, root, ws, ws.files, st)[t].1,
        ),
{
    let b = delta_bucket(r, root, ws, ws.files, st);
    lemma_bucket_origin(r, root, ws, ws.files, st, t);
    let i = choose|i: int|
        0 <= i < ws.files.len() && workspace_entry(r, root, ws, #[trigger] ws.files[i]) == Some(
            (st, b[t]),
        );
    if b[t].2 is None {
        assert(r.blobs.contains_key(b[t].1));
    }
    lemma_store_blobs_take(m, b, t);
}

proof fn lemma_store_blobs_take(m: Map<Seq<u8>, Seq<u8>>, b: Seq<DeltaEntryView>, t: int)
    requires
        0 <= t < b.len(),
        b[t].2 is None ==> m.contains_key(b[t].1),
    ensures
        store_blobs(m, b).contains_key(b[t].1),
    decreases b.len(),
{
    if t < b.len() - 1 {
        assert(b.drop_last()[t] == b[t]);
        lemma_store_blobs_take(m, b.drop_last(), t);
    } else {
        assert(b.last() == b[t]);
        if b[t].2 is None {
            lemma_store_blobs_grows(m, b.drop_last(), b[t].1);
        }
    }
}

/// Storing contents keyed by their hashes keeps the store content-addressed.
pub proof fn lemma_store_blobs_addressed(m: Map<Seq<u8>, Seq<u8>>, entries: Seq<DeltaEntryView>)
    requires
        content_addressed(m),
        forall|t: int|
            0 <= t < entries.len() && (#[trigger] entries[t]).2 is Some ==> sha256(
                entries[t].2->0,
            ) == entries[t].1,
    ensures
        content_addressed(store_blobs(m, entries)),
    decreases entries.len(),
{
    if entries.len() > 0 {
        assert forall|t: int|
            0 <= t < entries.drop_last().len() && (#[trigger] entries.drop_last()[t]).2 is Some
                implies sha256(entries.drop_last()[t].2->0) == entries.drop_last()[t].1 by {
            assert(entries.drop_last()[t] == entries[t]);
        }
        lemma_store_blobs_addressed(m, entries.drop_last());
        assert(entries.last() == entries[entries.len() - 1]);
    }
}

/// The contents a bucket carries are keyed by their hashes.
pub proof fn lemma_bucket_hashes(r: RepoView, root: PathView, ws: WorkspaceView, st: FileStatus)
    ensures
        forall|t: int|
            0 <= t < delta_bucket(r, root, ws, ws.files, st).len() && (#[trigger] delta_bucket(
                r,
                root,
                ws,
                ws.files,
                st,
            )[t]).2 is Some ==> sha256(delta_bucket(r, root, ws, ws.files, st)[t].2->0)
                == delta_bucket(r, root, ws, ws.files, st)[t].1,
{
    let b = delta_bucket(r, root, ws, ws.files, st);
    assert forall|t: int| 0 <= t < b.len() && (#[trigger] b[t]).2 is Some implies sha256(b[t].2->0)
        == b[t].1 by {
        lemma_bucket_origin(r, root, ws, ws.files, st, t);
    }
}

/// Every hash after the changes is one from before or one of a change.
proof fn lemma_apply_hashes(files: Seq<(PathView, Seq<u8>)>, changed: Seq<DeltaEntryView>, w: int)
    requires
        0 <= w < files.len(),
    ensures
        apply_changes(files, changed).len() == files.len(),
        apply_changes(files, changed)[w].1 == files[w].1 || exists|t: int|
            0 <= t < changed.len() && #[trigger] changed[t].1 == apply_changes(files, changed)[w].1,
    decreases changed.len(),
{
    lemma_apply_paths(files, changed);
    if changed.len() > 0 {
        lemma_apply_hashes(files, changed.drop_last(), w);
        let prev = apply_changes(files, changed.drop_last());
        let e = changed.last();
        lemma_path_index_range(prev, e.0, 0);
        let now = apply_changes(files, changed)[w];
        if now.1 != files[w].1 && now.1 != e.1 {
            assert(now == prev[w]);
            let t = choose|t: int|
                0 <= t < changed.drop_last().len() && #[trigger] changed.drop_last()[t].1 == prev[w].1;
            assert(changed[t] == changed.drop_last()[t]);
        }
        if now.1 == e.1 {
            assert(changed[changed.len() - 1] == e);
        }
    }
}

/// A checkpoint keeps a consistent repository consistent and a
/// content-addressed store content-addressed.
pub proof fn lemma_commit_keeps_repo_consistent(
    r: RepoView,
    after: RepoView,
    root: PathView,
    ws: WorkspaceView,
    c: CommitView,
)
    requires
        current_in_range(r),
        workspace_inside(root, ws),
        after.commits == r.commits.push(c),
        c.files == snapshot_files(r, spec_delta(r, root, ws)),
        after.current matches Some(n) && n == r.commits.len(),
        after.blobs == snapshot_blobs(r, spec_delta(r, root, ws)),
    ensures
        repo_wf(r) ==> repo_wf(after),
        content_addressed(r.blobs) ==> content_addressed(after.blobs),
{
    let d = spec_delta(r, root, ws);
    let m1 = store_blobs(r.blobs, d.changed_files);
    if content_addressed(r.blobs) {
        lemma_bucket_hashes(r, root, ws, FileStatus::Modified);
        lemma_bucket_hashes(r, root, ws, FileStatus::New);
        lemma_store_blobs_addressed(r.blobs, d.changed_files);
        lemma_store_blobs_addressed(m1, d.new_files);
    }
    if repo_wf(r) {
        assert forall|k: Seq<u8>| r.blobs.contains_key(k) implies after.blobs.contains_key(k) by {
            lemma_store_blobs_grows(r.blobs, d.changed_files, k);
            lemma_store_blobs_grows(m1, d.new_files, k);
        }
        let cur = current_files(r);
        let kept = retained(cur, d.deleted_files);
        let applied = apply_changes(kept, d.changed_files);
        lemma_apply_paths(kept, d.changed_files);
        assert forall|i: int, j: int|
            0 <= i < after.commits.len() && 0 <= j < after.commits[i].files.len()
                implies after.blobs.contains_key(#[trigger] after.commits[i].files[j].1) by {
            if i < r.commits.len() {
                assert(after.commits[i] == r.commits[i]);
                assert(r.blobs.contains_key(r.commits[i].files[j].1));
            } else {
                let f = c.files;
                assert(after.commits[i] == c);
                if j < applied.len() {
                    lemma_apply_hashes(kept, d.changed_files, j);
                    assert(f[j] == applied[j]);
                    if applied[j].1 == kept[j].1 {
                        lemma_retained_origin(cur, d.deleted_files, j);
                        let q = choose|q: int|
                            0 <= q < cur.len() && #[trigger] cur[q] == kept[j] && !d.deleted_files.contains(
                                cur[q].0,
                            );
                        let cc = r.current->0;
                        assert(cur[q] == r.commits[cc as int].files[q]);
                        assert(r.blobs.contains_key(cur[q].1));
                    } else {
                        let t = choose|t: int|
                            0 <= t < d.changed_files.len() && #[trigger] d.changed_files[t].1
                                == applied[j].1;
                        lemma_store_blobs_covers(r, root, ws, r.blobs, FileStatus::Modified, t);
                        lemma_store_blobs_grows(m1, d.new_files, d.changed_files[t].1);
                    }
                } else {
                    let t = j - applied.len();
                    assert(f[j] == new_entries(d.new_files)[t]);
                    assert forall|k: Seq<u8>| r.blobs.contains_key(k) implies m1.contains_key(k) by {
                        lemma_store_blobs_grows(r.blobs, d.changed_files, k);
                    }
                    lemma_store_blobs_covers(r, root, ws, m1, FileStatus::New, t);
                }
            }
        }
    }
}

/// Taking back a checkpoint that could not be saved (`rollback_commit` with
/// the pointer from before) leaves the checkpoints and the pointer as they
/// were before it; the contents it stored stay, so a consistent repository
/// stays consistent.
pub proof fn lemma_rollback_undoes_commit(
    before: RepoView,
    committed: RepoView,
    rolled: RepoView,
    root: PathView,
    ws: WorkspaceView,
)
    requires
        committed.commits.len() == before.commits.len() + 1,
        committed.commits.take(before.commits.len() as int) == before.commits,
        committed.blobs == snapshot_blobs(before, spec_delta(before, root, ws)),
        rolled.commits == committed.commits.drop_last(),
        rolled.current == before.current,
        rolled.blobs == committed.blobs,
    ensures
        rolled.commits == before.commits,
        rolled.current == before.current,
        before.blobs.dom().subset_of(rolled.blobs.dom()),
        repo_wf(before) ==> repo_wf(rolled),
{
    let d = spec_delta(before, root, ws);
    let m1 = store_blobs(before.blobs, d.changed_files);
    assert(rolled.commits =~= before.commits);
    assert forall|k: Seq<u8>| before.blobs.contains_key(k) implies rolled.blobs.contains_key(k) by {
        lemma_store_blobs_grows(before.blobs, d.changed_files, k);
        lemma_store_blobs_grows(m1, d.new_files, k);
    }
}

/// Among the contents stored in `blobs` and those of the tracked files of
/// `ws`, equal SHA-256 hashes mean equal contents.
pub open spec fn hashes_distinguish(
    blobs: Map<Seq<u8>, Seq<u8>>,
    root: PathView,
    ws: WorkspaceView,
) -> bool {
    &&& forall|k: Seq<u8>, i: int|
        #![trigger blobs[k], ws.files[i]]
        blobs.contains_key(k) && 0 <= i < ws.files.len() && spec_is_trackable(root, ws.files[i].0)
            && sha256(blobs[k]) == sha256(ws.files[i].1) ==> blobs[k] == ws.files[i].1
    &&& forall|i: int, j: int|
        #![trigger ws.files[i], ws.files[j]]
        0 <= i < ws.files.len() && 0 <= j < ws.files.len() && spec_is_trackable(
            root,
            ws.files[i].0,
        ) && spec_is_trackable(root, ws.files[j].0) && sha256(ws.files[i].1) == sha256(
            ws.files[j].1,
        ) ==> ws.files[i].1 == ws.files[j].1
}

/// What storing contents leaves under a hash: what was there, or the
/// contents of an entry with that hash.
proof fn lemma_store_blobs_value(m: Map<Seq<u8>, Seq<u8>>, entries: Seq<DeltaEntryView>, k: Seq<u8>)
    requires
        store_blobs(m, entries).contains_key(k),
    ensures
        (m.contains_key(k) && store_blobs(m, entries)[k] == m[k]) || exists|t: int|
            0 <= t < entries.len() && #[trigger] entries[t].1 == k && entries[t].2 == Some(
                store_blobs(m, entries)[k],
            ),
    decreases entries.len(),
{
    if entries.len() > 0 {
        let prev = store_blobs(m, entries.drop_last());
        let e = entries.last();
        assert(e == entries[entries.len() - 1]);
        if e.2 is Some && e.1 == k {
        } else {
            lemma_store_blobs_value(m, entries.drop_last(), k);
            if !(m.contains_key(k) && prev[k] == m[k]) {
                let t = choose|t: int|
                    0 <= t < entries.drop_last().len() && #[trigger] entries.drop_last()[t].1 == k
                        && entries.drop_last()[t].2 == Some(prev[k]);
                assert(entries[t] == entries.drop_last()[t]);
            }
        }
    }
}

/// What a checkpoint stores under a hash: what was stored before, or the
/// contents of a tracked file with that hash.
proof fn lemma_snapshot_blob_origin(r: RepoView, root: PathView, ws: WorkspaceView, k: Seq<u8>)
    requires
        snapshot_blobs(r, spec_delta(r, root, ws)).contains_key(k),
    ensures
        (r.blobs.contains_key(k) && snapshot_blobs(r, spec_delta(r, root, ws))[k] == r.blobs[k])
            || exists|i: int|
            0 <= i < ws.files.len() && spec_is_trackable(root, #[trigger] ws.files[i].0) && sha256(
                ws.files[i].1,
            ) == k && ws.files[i].1 == snapshot_blobs(r, spec_delta(r, root, ws))[k],
{
    let d = spec_delta(r, root, ws);
    let m1 = store_blobs(r.blobs, d.changed_files);
    let m2 = store_blobs(m1, d.new_files);
    lemma_store_blobs_value(m1, d.new_files, k);
    if m1.contains_key(k) && m2[k] == m1[k] {
        lemma_store_blobs_value(r.blobs, d.changed_files, k);
        if !(r.blobs.contains_key(k) && m1[k] == r.blobs[k]) {
            let t = choose|t: int|
                0 <= t < d.changed_files.len() && #[trigger] d.changed_files[t].1 == k
                    && d.changed_files[t].2 == Some(m1[k]);
            lemma_bucket_origin(r, root, ws, ws.files, FileStatus::Modified, t);
            let i = choose|i: int|
                0 <= i < ws.files.len() && workspace_entry(r, root, ws, #[trigger] ws.files[i])
                    == Some((FileStatus::Modified, d.changed_files[t]));
            assert(spec_is_trackable(root, ws.files[i].0));
        }
    } else {
        let t = choose|t: int|
            0 <= t < d.new_files.len() && #[trigger] d.new_files[t].1 == k && d.new_files[t].2
                == Some(m2[k]);
        lemma_bucket_origin(r, root, ws, ws.files, FileStatus::New, t);
        let i = choose|i: int|
            0 <= i < ws.files.len() && workspace_entry(r, root, ws, #[trigger] ws.files[i]) == Some(
                (FileStatus::New, d.new_files[t]),
            );
        assert(spec_is_trackable(root, ws.files[i].0));
    }
}

/// A checkpoint gives back what it recorded: restoring the checkpoint just
/// made writes every tracked file of the project folder at its relative
/// path with its exact contents (unless two different contents involved
/// share a SHA-256 hash), and writes no path that was not in the folder.
pub proof fn lemma_commit_then_restore_gives_back_files(
    r: RepoView,
    after: RepoView,
    root: PathView,
    ws: WorkspaceView,
    c: CommitView,
)
    requires
        repo_wf(r),
        content_addressed(r.blobs),
        workspace_inside(root, ws),
        distinct_files(ws),
        hashes_distinguish(r.blobs, root, ws),
        after.commits == r.commits.push(c),
        c.files == snapshot_files(r, spec_delta(r, root, ws)),
        after.current matches Some(m) && m == r.commits.len(),
        after.blobs == snapshot_blobs(r, spec_delta(r, root, ws)),
    ensures
        forall|i: int|
            0 <= i < ws.files.len() && spec_is_trackable(root, #[trigger] ws.files[i].0)
                ==> restore_files(after, r.commits.len() as int).contains(
                (relative_of(ws, i)->0, ws.files[i].1),
            ),
        forall|k: int|
            0 <= k < restore_files(after, r.commits.len() as int).len() ==> present(
                ws,
                #[trigger] restore_files(after, r.commits.len() as int)[k].0,
            ),
{
    let n = r.commits.len() as int;
    let d = spec_delta(r, root, ws);
    lemma_commit_keeps_repo_consistent(r, after, root, ws, c);
    assert(after.commits[n] == c);
    assert(current_files(after) == c.files);
    lemma_commit_leaves_clean_workspace(r, after, root, ws);
    let cur = current_files(after);
    let out = restore_files(after, n);
    assert forall|i: int|
        0 <= i < ws.files.len() && spec_is_trackable(root, #[trigger] ws.files[i].0) implies out.contains(
        (relative_of(ws, i)->0, ws.files[i].1),
    ) by {
        lemma_entry_facts(after, root, ws, i);
        match workspace_entry(after, root, ws, ws.files[i]) {
            Some(x) => {
                lemma_bucket_contains(after, root, ws, ws.files, x.0, i, x.1);
            },
            None => {},
        }
        let rel = relative_of(ws, i)->0;
        let h = sha256(ws.files[i].1);
        assert(cur.contains((rel, h)));
        let k0 = choose|k0: int| 0 <= k0 < cur.len() && cur[k0] == (rel, h);
        assert(after.blobs.contains_key(cur[k0].1));
        assert(out[k0] == (rel, after.blobs[h]));
        lemma_snapshot_blob_origin(r, root, ws, h);
        if r.blobs.contains_key(h) && after.blobs[h] == r.blobs[h] {
            assert(sha256(r.blobs[h]) == h);
            assert(r.blobs[h] == ws.files[i].1);
        } else {
            let j = choose|j: int|
                0 <= j < ws.files.len() && spec_is_trackable(root, #[trigger] ws.files[j].0)
                    && sha256(ws.files[j].1) == h && ws.files[j].1 == after.blobs[h];
            assert(ws.files[j].1 == ws.files[i].1);
        }
        assert(out[k0] == (rel, ws.files[i].1));
    }
    assert forall|k: int| 0 <= k < out.len() implies present(ws, #[trigger] out[k].0) by {
        assert(out[k].0 == cur[k].0);
        if !present(ws, cur[k].0) {
            lemma_absent_deleted(cur, ws, k);
            assert(spec_delta(after, root, ws).deleted_files.len() > 0);
        }
    }
}

} // verus!
