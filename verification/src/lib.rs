//! Core library for a git-backed issue tracker: the issue data model, the
//! identifier scheme, two persistence backends (a line-delimited flat file
//! and per-issue mergeable documents), the version-aware facade over them,
//! and the dependency-graph engine that derives ordering and readiness.

pub mod config;
pub mod crdt_store;
pub mod doc;
pub mod error;
pub mod graph;
pub mod id;
pub mod issue;
pub mod store;
pub mod strutil;
pub mod table;
pub mod timeutil;
pub mod unified;

pub use config::Config;
pub use config::DisplayConfig;
pub use config::GitConfig;
pub use config::StorageVersion;
pub use crdt_store::CrdtStore;
pub use error::Error;
pub use graph::IssueGraph;
pub use id::generate_child_id;
pub use id::generate_id;
pub use id::get_parent_id;
pub use id::is_child_id;
pub use id::parse_id;
pub use issue::Dependency;
pub use issue::DependencyType;
pub use issue::Issue;
pub use issue::IssueType;
pub use issue::Status;
pub use store::Store;
pub use unified::migrate_v1_to_v2;
pub use unified::rollback_v2_to_v1;
pub use unified::MigrationResult;
pub use unified::UnifiedStore;
