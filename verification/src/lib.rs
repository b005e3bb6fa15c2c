//! FileCanopy: disk-space analysis logic (scanning model, line counting,
//! ranking, treemap preparation, duplicate fingerprints, UI state machine).
pub mod analysis;
pub mod cli;
pub mod config;
pub mod config_text;
pub mod dedup;
pub mod error;
pub mod history;
pub mod ordering;
pub mod paths;
pub mod platform;
pub mod reports;
pub mod scanner;
pub mod scheduler;
pub mod text;
pub mod ui;
pub mod visualization;

pub use error::Error;
