//! The configuration as it is given, and the options that a run works with.

use vstd::prelude::*;

pub mod defaults;

pub use defaults::{default_false, default_glob, default_root_selector};

verus! {

/// The configuration as it comes in from flags, the environment and
/// configuration files.
#[derive(Debug, Clone)]
pub struct SitefixInboundConfig {
    /// The location of the built static website.
    pub source: String,
    /// The glob that finds the pages below `source`.
    pub glob: String,
    /// The element that is taken as the root of a document.
    pub root_selector: String,
    /// Whether to log verbosely while the site is checked.
    pub verbose: bool,
}

/// How much a run logs.
#[derive(Clone, Copy, Debug, PartialEq, Eq, Structural)]
pub enum LogLevel {
    Standard,
    Verbose,
}

/// Why a configuration cannot be used.
#[derive(Clone, Copy, Debug, PartialEq, Eq, Structural)]
pub enum OptionsError {
    /// No source directory was given.
    MissingSource,
}

/// The options that a run works with.
#[derive(Debug)]
pub struct FixOptions {
    /// The directory that the run was started in.
    pub working_directory: String,
    /// The root directory of the built site.
    pub source: String,
    /// The element that is taken as the root of a document.
    pub root_selector: String,
    /// The glob that finds the pages below `source`.
    pub glob: String,
    /// The version of the program.
    pub version: &'static str,
    /// How much the run logs.
    pub log_level: LogLevel,
}

/// The log level that a configuration asks for.
pub open spec fn log_level_of(verbose: bool) -> LogLevel {
    if verbose {
        LogLevel::Verbose
    } else {
        LogLevel::Standard
    }
}

impl FixOptions {
    /// Whether these are the options that `config` asks for.
    pub open spec fn reflects(&self, config: SitefixInboundConfig) -> bool {
        &&& self.source@ == config.source@
        &&& self.root_selector@ == config.root_selector@
        &&& self.glob@ == config.glob@
        &&& self.log_level == log_level_of(config.verbose)
    }

    /// Turns a configuration into the options of a run that is started in
    /// `working_directory` by the program of version `version`.
    ///
    /// A configuration without a source directory is refused; every other
    /// one is taken over as it is.
    pub fn load(config: SitefixInboundConfig, working_directory: String, version: &'static str) -> (
        options: Result<Self, OptionsError>)
        ensures
            options is Err <==> config.source@.len() == 0,
            options matches Err(e) ==> e == OptionsError::MissingSource,
            options matches Ok(o) ==> o.reflects(config) && o.working_directory@
                == working_directory@ && o.version@ == version@,
    {
        if config.source.as_str().is_empty() {
            Err(OptionsError::MissingSource)
        } else {
            let log_level = if config.verbose {
                LogLevel::Verbose
            } else {
                LogLevel::Standard
            };
            Ok(
                FixOptions {
                    working_directory,
                    source: config.source,
                    root_selector: config.root_selector,
                    glob: config.glob,
                    version,
                    log_level,
                },
            )
        }
    }
}

} // verus!
