//! Batch file-renaming library.
//!
//! Given a salt string and a list of filesystem targets, the library computes
//! the salted name of every regular file reachable from those targets: the
//! salt is appended to the base name, just before the final extension segment
//! when one is present.  The name transformation and the rename/traversal
//! decisions are verified; the caller performs the actual filesystem reads,
//! listings and renames and feeds their outcomes back in.

pub mod config;
pub mod engine;
pub mod file;
pub mod naming;

pub use crate::config::Config;
pub use crate::engine::Action;
pub use crate::engine::DirEntry;
pub use crate::engine::Engine;
pub use crate::engine::Event;
pub use crate::engine::FileKind;
pub use crate::file::Extension;
pub use crate::file::File;
pub use crate::naming::transform;
