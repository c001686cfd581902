//! Lifecycle manager for kernel packet-processing and tracing programs:
//! program records, a priority-ordered dispatcher per hook, and a registry
//! with shared pinned maps.

pub mod errors;
pub mod direction;
pub mod program_type;
pub mod proceed_on;
pub mod hook;
pub mod swap;
pub mod program;
pub mod registry;
pub mod listing;
pub mod ids;
pub mod manager;
