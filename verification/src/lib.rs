//! Links configuration files from a managed repository into a home directory.
//!
//! The crate holds the decisions of a dotfile linker: how a declared path is
//! resolved, how the state of a destination is classified, and which action
//! each command applies to it. Reading files and touching the filesystem is
//! left to the caller, who hands over what it observed as plain values.

pub mod config;
pub mod document;
pub mod entry;
pub mod error;
pub mod laws;
pub mod linkfile;
pub mod order;
pub mod path;
pub mod reconcile;
pub mod snapshot;

pub use config::{startup, Config};
pub use document::{parse_document, Value};
pub use entry::{Entry, EntryStatus, Node};
pub use error::LoadError;
pub use linkfile::{declared_entries, parse_linkfile, Linkfile, LinkfileSet};
pub use order::{compare, Order};
pub use path::PathResolver;
pub use reconcile::{
    command_check, command_clean, command_link, plan_clean, plan_link, run, visit, Action, Event,
    Operation, Report, Visit,
};
pub use snapshot::Snapshot;
