//! The engine of a mem store.

pub mod apply_commit;
pub mod archive;
pub mod archive_laws;
pub mod backend;
pub mod boot;
pub mod boot_laws;
pub mod check;
pub mod check_laws;
pub mod check_ops;
pub mod commit_laws;
pub mod conflict_laws;
pub mod conflicts;
pub mod drift;
pub mod drift_laws;
pub mod due;
pub mod due_laws;
pub mod engine;
pub mod entity;
pub mod error;
pub mod error_laws;
pub mod events;
pub mod export_html;
pub mod export_llms_txt;
pub mod file_watcher;
pub mod host;
pub mod html_laws;
pub mod json;
pub mod llms_laws;
pub mod markdown;
pub mod ops;
pub mod remote_laws;
pub mod round_trip;
pub mod schema;
pub mod sort;
pub mod text;
pub mod text_laws;
pub mod version;
pub mod watch_laws;
pub mod workspace;
