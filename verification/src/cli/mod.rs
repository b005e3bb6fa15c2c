//! Command-line interface: the parsed arguments and subcommand dispatch.
pub mod args;
pub mod commands;

pub use args::{Cli, Command, ExportFormat};
