//! The errors of episode detection.

use vstd::prelude::*;

verus! {

/// Why a matcher could not be made, a file name not be read, or a directory
/// not be scanned.
#[derive(Debug, PartialEq)]
pub enum EpisodeError {
    /// A custom pattern lacks the named group `group`.
    MissingCustomMatcherGroup { group: String },
    /// The regular expression engine refuses `pattern`, for the reason `source`.
    Regex { pattern: String, source: regex::Error },
    /// The matcher's pattern matches nowhere in the file name `name`.
    NoEpMatches { name: String },
    /// The pattern matched the file name `name` without its title group.
    NoEpisodeTitle { name: String },
    /// No episode number was found in a file of the series `name`.
    ExpectedEpNumber { name: String },
    /// A directory holds files of the series `found` beside those of
    /// `expecting`.
    MultipleTitles { expecting: String, found: String },
    /// A directory holds no episode.
    NoEpisodes,
}

/// An `EpisodeError` with its texts as sequences of characters. The reason
/// that the engine gave for refusing a pattern has no part in it.
pub ghost enum ErrorView {
    MissingCustomMatcherGroup { group: Seq<char> },
    Regex { pattern: Seq<char> },
    NoEpMatches { name: Seq<char> },
    NoEpisodeTitle { name: Seq<char> },
    ExpectedEpNumber { name: Seq<char> },
    MultipleTitles { expecting: Seq<char>, found: Seq<char> },
    NoEpisodes,
}

impl View for EpisodeError {
    type V = ErrorView;

    open spec fn view(&self) -> ErrorView {
        match *self {
            EpisodeError::MissingCustomMatcherGroup { group } => ErrorView::MissingCustomMatcherGroup {
                group: group@,
            },
            EpisodeError::Regex { pattern, source: _ } => ErrorView::Regex { pattern: pattern@ },
            EpisodeError::NoEpMatches { name } => ErrorView::NoEpMatches { name: name@ },
            EpisodeError::NoEpisodeTitle { name } => ErrorView::NoEpisodeTitle { name: name@ },
            EpisodeError::ExpectedEpNumber { name } => ErrorView::ExpectedEpNumber { name: name@ },
            EpisodeError::MultipleTitles { expecting, found } => ErrorView::MultipleTitles {
                expecting: expecting@,
                found: found@,
            },
            EpisodeError::NoEpisodes => ErrorView::NoEpisodes,
        }
    }
}

/// A result with both of its sides viewed.
pub open spec fn result_view<T: View, E: View>(r: Result<T, E>) -> Result<T::V, E::V> {
    match r {
        Ok(value) => Ok(value@),
        Err(error) => Err(error@),
    }
}

} // verus!
