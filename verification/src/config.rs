//! Persistent user configuration.
use vstd::prelude::*;

use crate::config_text::{config_text, lemma_parse_config_text, parse_config, read_config, write_config, ConfigValue};
use crate::error::Error;
use vstd::string::StringExecFns;
use crate::paths::views;

verus! {

/// Persistent user configuration. Stored as `filecanopy/config.toml` under
/// the platform's configuration directory.
#[derive(Debug, Clone)]
pub struct Config {
    pub default_roots: Vec<String>,
    pub snapshot_db: Option<String>,
    pub report_dir: Option<String>,
    pub ignore_globs: Vec<String>,
    pub follow_symlinks: bool,
    pub line_counting: LineCountingConfig,
}

/// Which files the line counter looks at.
#[derive(Debug, Clone)]
pub struct LineCountingConfig {
    /// File extensions to count lines for. Empty = no line counting.
    pub extensions: Vec<String>,
    /// Skip files larger than this many bytes when counting lines.
    pub max_size_bytes: Option<u64>,
}

/// The text of an optional string.
pub open spec fn opt_view(o: Option<String>) -> Option<Seq<char>> {
    match o {
        Some(s) => Some(s@),
        None => None,
    }
}

impl LineCountingConfig {
    /// The configuration that counts nothing.
    pub open spec fn is_default(&self) -> bool {
        self.extensions@.len() == 0 && self.max_size_bytes is None
    }
}

impl Default for LineCountingConfig {
    fn default() -> (r: Self)
        ensures
            r.is_default(),
    {
        LineCountingConfig { extensions: Vec::new(), max_size_bytes: None }
    }
}

impl Config {
    /// The fields of the configuration as plain values.
    pub open spec fn value(&self) -> ConfigValue {
        (
            views(self.default_roots@),
            opt_view(self.snapshot_db),
            opt_view(self.report_dir),
            views(self.ignore_globs@),
            self.follow_symlinks,
            views(self.line_counting.extensions@),
            self.line_counting.max_size_bytes,
        )
    }

    /// The configuration used when none has been saved.
    pub open spec fn is_default(&self) -> bool {
        &&& self.default_roots@.len() == 0
        &&& self.snapshot_db is None
        &&& self.report_dir is None
        &&& self.ignore_globs@.len() == 0
        &&& !self.follow_symlinks
        &&& self.line_counting.is_default()
    }

    /// Load the configuration from the text of the saved configuration file
    /// (`saved`), or the default configuration when there is none. Keys
    /// that the file does not set keep their default value; a file with a
    /// line that is not understood is refused.
    pub fn load(saved: Option<&str>) -> (r: Result<Self, Error>)
        ensures
            match saved {
                None => r matches Ok(c) && c.is_default(),
                Some(t) => match parse_config(t@) {
                    Some(v) => r matches Ok(c) && c.value() == v,
                    None => r matches Err(Error::Config(m)) && m@ == config_error_text(),
                },
            },
    {
        match saved {
            None => Ok(Self::default()),
            Some(t) => match read_config(t) {
                Some(c) => Ok(c),
                None => Err(Error::Config(String::from_str("the configuration file could not be read"))),
            },
        }
    }

    /// The text of the configuration file that stores this configuration.
    pub fn save(&self) -> (r: String)
        ensures
            r@ == config_text(self.value()),
    {
        write_config(self)
    }
}

/// The message of the error for a configuration file that cannot be read.
pub open spec fn config_error_text() -> Seq<char> {
    "the configuration file could not be read"@
}

/// What `save` writes, `load` reads back as the same configuration.
pub proof fn lemma_load_after_save(c: Config)
    ensures
        parse_config(config_text(c.value())) == Some(c.value()),
{
    lemma_parse_config_text(c.value());
}

impl Default for Config {
    fn default() -> (r: Self)
        ensures
            r.is_default(),
    {
        Config {
            default_roots: Vec::new(),
            snapshot_db: None,
            report_dir: None,
            ignore_globs: Vec::new(),
            follow_symlinks: false,
            line_counting: LineCountingConfig::default(),
        }
    }
}

} // verus!
