//! Canonical edit lists between slices: the `Change` model, the fusing
//! helpers `insert` and `remove`, adapters from three alignment algorithms,
//! and `patch`, which replays a list of changes.

pub mod change;
pub mod fuse;
pub mod records;
pub mod adapters;
pub mod laws;

pub use adapters::{diff_changes, diff_diff, lcs_changes, lcs_diff, wu_changes, wu_diff};
pub use change::{Change, patch};
pub use fuse::{insert, remove};
pub use records::{DiffRecord, LcsRecord, WuRecord};
