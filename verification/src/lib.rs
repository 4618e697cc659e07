//! CheckpointPro's core: project paths, the checkpoint repository and its
//! workspace deltas, text classification for line statistics, and license
//! parsing and checking.  File-system access and the user interface live in
//! the application crate, which hands this library plain values.
pub mod path;
pub mod text;
pub mod utilities;
pub mod diff;
pub mod err;
pub mod file_system;
pub mod data_structures;
pub mod repo_laws;
pub mod licensing;
pub mod views;
pub mod view_directory;
pub mod ui;
