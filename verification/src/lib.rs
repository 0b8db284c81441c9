//! Link checking for built static sites: a streaming markup scan that tracks
//! the chain of open elements, classifies anchors against the set of pages of
//! the site, and reports links that are missing or dead.

use vstd::prelude::*;

pub mod fossick;
pub mod issues;
pub mod options;
pub mod report;

pub use issues::{IssueView, SitefixIssue};
pub use options::{FixOptions, SitefixInboundConfig};

verus! {

/// What every page of a run is checked against.
#[derive(Debug)]
pub struct Globals {
    /// The URL of every page of the site.
    pub urls: Vec<String>,
    /// The path of every file of the site.
    pub paths: Vec<String>,
}

impl Default for Globals {
    fn default() -> (globals: Self)
        ensures
            globals.urls@.len() == 0,
            globals.paths@.len() == 0,
    {
        Globals { urls: Vec::new(), paths: Vec::new() }
    }
}

/// One run over a site.
pub struct FixState {
    pub options: FixOptions,
}

impl FixState {
    /// A run with the given options.
    pub fn new(options: FixOptions) -> (state: Self)
        ensures
            state.options == options,
    {
        Self { options }
    }
}

} // verus!
