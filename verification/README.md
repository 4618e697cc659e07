# CheckpointPro

Save, track, and restore a project's progress: a checkpoint records every
tracked file of a project folder by its SHA-256 hash, and restoring one puts
the folder back as it was.

- `src/` is the verified library: paths, the repository and its workspace
  deltas, line statistics, licenses, and what each button of the three
  screens decides, each with its contract; `repo_laws.rs` and the
  `lemma_*` proof functions state what holds across operations.
- `app/` is the program around it: the file system, the saved state
  (`data.json`), the widgets, and the `sign-license` tool.
- `tests/` drive the library over a project folder held in memory.
