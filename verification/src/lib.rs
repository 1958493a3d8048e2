//! A content-addressed, recursive build engine in the `redo` tradition.
//!
//! Targets are built by small scripts, the rules. A run of a rule is traced:
//! what it read and what it wrote is recorded, and its output is kept in a
//! store under the hash of its bytes. Before a rule runs again, the traces are
//! asked whether an earlier run can stand in for the new one.
//!
//! This library decides; it touches no file and runs no process. Whoever uses
//! it reads the files, hands their bytes in, and carries out what comes back.

pub mod artifacts;
pub mod build_id;
pub mod depgraph;
pub mod display;
pub mod engine;
pub mod error;
pub mod filestamp;
pub mod hash;
pub mod job;
pub mod local_path;
pub mod machine;
pub mod report;
pub mod ruleset;
pub mod text;
pub mod timestamp;
pub mod trace;
pub mod tracefile;

pub use crate::artifacts::Artifacts;
pub use crate::build_id::BuildId;
pub use crate::depgraph::{BuildTree, DepGraph, Observation};
pub use crate::engine::{
    is_source, project_base, redux_dir, try_restore, Workspace, ENV_VAR_BUILD_ID, ENV_VAR_FORCE,
    ENV_VAR_TRACEFILE,
};
pub use crate::error::ParseError;
pub use crate::filestamp::{FileStamp, Snapshot};
pub use crate::hash::ContentHash;
pub use crate::job::{EnvVar, JobSpec};
pub use crate::local_path::LocalPath;
pub use crate::machine::build;
pub use crate::ruleset::{Rule, RuleSet};
pub use crate::timestamp::Timestamp;
pub use crate::trace::{Trace, TraceFileLine};
pub use crate::tracefile::TraceFile;
