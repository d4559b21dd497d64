//! The options of the command line, and what they ask for.

use vstd::prelude::*;

verus! {

/// The options that the program was started with.
#[derive(Debug, PartialEq, Eq)]
pub struct CmdOptions {
    /// Whether help was asked for.
    pub help: bool,
    /// The nickname of the series to watch.
    pub series: Option<String>,
    /// The custom pattern to match episode files with.
    pub matcher: Option<String>,
    /// Whether to run without the catalog.
    pub offline: bool,
    /// The path to the series.
    pub path: Option<String>,
    /// Whether to play a single episode.
    pub single: bool,
    /// The user's access token.
    pub token: Option<String>,
    /// Whether to fetch the entry of a series for later use without the
    /// catalog.
    pub prefetch: bool,
    /// Whether to hand the changes that were made without the catalog to it.
    pub sync: bool,
}

/// What is known beforehand of a series that is to be added.
#[derive(Debug, PartialEq, Eq)]
pub struct SeriesParameters {
    pub id: Option<u32>,
    pub path: Option<String>,
    pub matcher: Option<String>,
}

/// What the program is to do.
#[derive(Clone, Copy, Debug, PartialEq, Eq, Structural)]
pub enum RunMode {
    /// To play one episode.
    PlayEpisode,
    /// To fetch the entry of a series.
    Prefetch,
    /// To hand changes to the catalog.
    Sync,
    /// To show its interface.
    Interface,
}

/// What the options `single`, `prefetch` and `sync` ask for: the first of
/// them that is set decides.
pub open spec fn mode_of(single: bool, prefetch: bool, sync: bool) -> RunMode {
    if single {
        RunMode::PlayEpisode
    } else if prefetch {
        RunMode::Prefetch
    } else if sync {
        RunMode::Sync
    } else {
        RunMode::Interface
    }
}

impl CmdOptions {
    /// What the program is to do.
    pub fn mode(&self) -> (r: RunMode)
        ensures
            r == mode_of(self.single, self.prefetch, self.sync),
    {
        if self.single {
            RunMode::PlayEpisode
        } else if self.prefetch {
            RunMode::Prefetch
        } else if self.sync {
            RunMode::Sync
        } else {
            RunMode::Interface
        }
    }
}

/// What the options say of the series that is to be added: its path and its
/// pattern.
pub fn series_params_from_args(args: &CmdOptions) -> (r: SeriesParameters)
    ensures
        r.id is None,
        r.path.deep_view() == args.path.deep_view(),
        r.matcher.deep_view() == args.matcher.deep_view(),
{
    let path = match &args.path {
        Some(path) => Some(path.clone()),
        None => None,
    };
    let matcher = match &args.matcher {
        Some(matcher) => Some(matcher.clone()),
        None => None,
    };
    SeriesParameters { id: None, path, matcher }
}

} // verus!
