//! One episode, as read from the name of its file.

use crate::err::{result_view, EpisodeError, ErrorView};
use crate::local::engine::capture_two;
use crate::local::matcher::{Captured, CapturedView, EpisodeMatcher, EPISODE_GROUP, TITLE_GROUP};
use crate::text::{parse_u32, parsed_u32, replace_all, replaced, trim, trimmed};
use vstd::prelude::*;
use vstd::string::StringExecFns;

verus! {

/// An episode of a series: the title and the number that the name of its
/// file gave, and that name.
#[derive(Debug, PartialEq, Eq)]
pub struct Episode {
    pub name: String,
    pub num: u32,
    pub filename: String,
}

/// An `Episode` with its texts as sequences of characters.
pub ghost struct EpisodeView {
    pub name: Seq<char>,
    pub num: u32,
    pub filename: Seq<char>,
}

impl View for Episode {
    type V = EpisodeView;

    open spec fn view(&self) -> EpisodeView {
        EpisodeView { name: self.name@, num: self.num, filename: self.filename@ }
    }
}

impl DeepView for Episode {
    type V = EpisodeView;

    open spec fn deep_view(&self) -> EpisodeView {
        self@
    }
}

/// The title that the captured text `raw` stands for: dots and underscores
/// read as spaces, a space and a dash as a colon, and no white space at
/// either end.
pub open spec fn normalized_title(raw: Seq<char>) -> Seq<char> {
    trimmed(
        replaced(
            replaced(replaced(raw, seq!['.'], seq![' ']), seq![' ', '-'], seq![':']),
            seq!['_'],
            seq![' '],
        ),
    )
}

/// The episode that the file name `filename` stands for, given what a
/// matcher found in it.
pub open spec fn episode_of_captures(filename: Seq<char>, found: Option<CapturedView>) -> Result<
    EpisodeView,
    ErrorView,
> {
    match found {
        None => Err(ErrorView::NoEpMatches { name: filename }),
        Some(groups) => match groups.title {
            None => Err(ErrorView::NoEpisodeTitle { name: filename }),
            Some(raw) => {
                let name = normalized_title(raw);
                match groups.episode {
                    Some(digits) if parsed_u32(digits) is Some => Ok(
                        EpisodeView { name, num: parsed_u32(digits)->0, filename },
                    ),
                    _ => Err(ErrorView::ExpectedEpNumber { name }),
                }
            },
        },
    }
}

/// The episode that `matcher` reads from the file name `filename`.
pub open spec fn episode_of(filename: Seq<char>, matcher: EpisodeMatcher) -> Result<
    EpisodeView,
    ErrorView,
> {
    if matcher.usable() {
        episode_of_captures(filename, matcher.captures(filename))
    } else {
        Err(ErrorView::Regex { pattern: matcher.pattern() })
    }
}

/// Brings the captured text of a title into its normal form.
pub fn normalize_title(raw: &str) -> (r: String)
    ensures
        r@ == normalized_title(raw@),
{
    proof {
        reveal_strlit(".");
        reveal_strlit(" ");
        reveal_strlit(" -");
        reveal_strlit(":");
        reveal_strlit("_");
        assert("."@ =~= seq!['.']);
        assert(" "@ =~= seq![' ']);
        assert(" -"@ =~= seq![' ', '-']);
        assert(":"@ =~= seq![':']);
        assert("_"@ =~= seq!['_']);
    }
    let spaced = replace_all(raw, ".", " ");
    let coloned = replace_all(spaced.as_str(), " -", ":");
    let plain = replace_all(coloned.as_str(), "_", " ");
    trim(plain.as_str())
}

impl Episode {
    /// The episode that the file name `filename` stands for, given what a
    /// matcher found in it.
    pub fn from_captures(filename: &str, found: Option<Captured>) -> (r: Result<
        Episode,
        EpisodeError,
    >)
        ensures
            result_view(r) == episode_of_captures(
                filename@,
                match found {
                    Some(groups) => Some(groups@),
                    None => None,
                },
            ),
    {
        let groups = match found {
            Some(groups) => groups,
            None => {
                return Err(EpisodeError::NoEpMatches { name: String::from_str(filename) });
            },
        };
        let name = match groups.title {
            Some(raw) => normalize_title(raw.as_str()),
            None => {
                return Err(EpisodeError::NoEpisodeTitle { name: String::from_str(filename) });
            },
        };
        let num = match groups.episode {
            Some(digits) => parse_u32(digits.as_str()),
            None => None,
        };
        match num {
            Some(num) => Ok(Episode { name, num, filename: String::from_str(filename) }),
            None => Err(EpisodeError::ExpectedEpNumber { name }),
        }
    }

    /// Reads the title and the episode number from the file name `filename`.
    pub fn parse(filename: &str, matcher: &EpisodeMatcher) -> (r: Result<Episode, EpisodeError>)
        ensures
            result_view(r) == episode_of(filename@, *matcher),
    {
        let re = match matcher.get() {
            Some(re) => re,
            None => {
                return Err(matcher.unusable());
            },
        };
        let found = match capture_two(re, filename, TITLE_GROUP, EPISODE_GROUP) {
            Some((title, episode)) => Some(Captured { title, episode }),
            None => None,
        };
        Episode::from_captures(filename, found)
    }
}

} // verus!
