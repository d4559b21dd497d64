//! Patterns that find a title and an episode number in a file name.

use crate::err::{EpisodeError, ErrorView};
use crate::local::engine::{compile, pattern_compiles, regex_captures};
use crate::text::{contains, occurs_in, replace_all, replaced};
use regex::Regex;
use vstd::prelude::*;
use vstd::string::StringExecFns;

verus! {

/// The pattern of the default matcher. It reads, among others:
///
/// * `[Group] Series Name - 01.mkv`
/// * `[Group]_Series_Name_-_01.mkv`
/// * `[Group].Series.Name.-.01.mkv`
/// * `[Group] Series Name - 01 [tag 1][tag 2].mkv`
/// * `[Group]_Series_Name_-_01_[tag1][tag2].mkv`
/// * `[Group].Series.Name.-.01.[tag1][tag2].mkv`
/// * `Series Name - 01.mkv`
/// * `Series_Name_-_01.mkv`
/// * `Series.Name.-.01.mkv`
pub const DEFAULT_PATTERN: &'static str =
    r"(?:\[.+?\](?:\s+|_+|\.+))?(?P<title>.+?)(?:\s*|_*|\.*)-(?:\s*|_*|\.*)(?P<episode>\d+).*?\..+?";

/// The name of the group that captures the title.
pub const TITLE_GROUP: &'static str = "title";

/// The name of the group that captures the episode number.
pub const EPISODE_GROUP: &'static str = "episode";

/// A pattern with a group for the title and one for the episode number.
pub struct EpisodeMatcher {
    custom: Option<String>,
    regex: Option<Regex>,
}

/// What a matcher found in one file name: the text of each of its two groups,
/// where the group took part in the match.
#[derive(Debug, PartialEq, Eq)]
pub struct Captured {
    pub title: Option<String>,
    pub episode: Option<String>,
}

/// A `Captured` with its texts as sequences of characters.
pub ghost struct CapturedView {
    pub title: Option<Seq<char>>,
    pub episode: Option<Seq<char>>,
}

impl View for Captured {
    type V = CapturedView;

    open spec fn view(&self) -> CapturedView {
        CapturedView { title: self.title.deep_view(), episode: self.episode.deep_view() }
    }
}

/// The texts of two groups as a `CapturedView`.
pub open spec fn captured_view(
    groups: Option<(Option<Seq<char>>, Option<Seq<char>>)>,
) -> Option<CapturedView> {
    match groups {
        Some((title, episode)) => Some(CapturedView { title, episode }),
        None => None,
    }
}

/// Whether `pattern` opens a group named `group`, written `(?P<group>`.
pub open spec fn has_group(pattern: Seq<char>, group: Seq<char>) -> bool {
    occurs_in(pattern, seq!['(', '?', 'P', '<'] + group + seq!['>'])
}

/// `pattern` with `{title}` and `{episode}` written out as named groups.
pub open spec fn expanded(pattern: Seq<char>) -> Seq<char> {
    replaced(
        replaced(pattern, "{title}"@, "(?P<title>.+)"@),
        "{episode}"@,
        "(?P<episode>\\d+)"@,
    )
}

/// What is wrong with `pattern` as a custom pattern, if anything is: the
/// first group that it lacks, or that the engine refuses it.
pub open spec fn pattern_fault(pattern: Seq<char>) -> Option<ErrorView> {
    if !has_group(pattern, TITLE_GROUP@) {
        Some(ErrorView::MissingCustomMatcherGroup { group: TITLE_GROUP@ })
    } else if !has_group(pattern, EPISODE_GROUP@) {
        Some(ErrorView::MissingCustomMatcherGroup { group: EPISODE_GROUP@ })
    } else if !pattern_compiles(pattern) {
        Some(ErrorView::Regex { pattern })
    } else {
        None
    }
}

impl EpisodeMatcher {
    /// The pattern of the default matcher.
    pub const DEFAULT_PATTERN: &'static str = DEFAULT_PATTERN;

    /// A custom matcher always holds its compiled expression.
    #[verifier::type_invariant]
    spec fn valid(self) -> bool {
        match self.custom {
            Some(_) => self.regex is Some,
            None => self.regex is Some <==> pattern_compiles(DEFAULT_PATTERN@),
        }
    }

    /// Whether this is the default matcher.
    pub closed spec fn is_default(self) -> bool {
        self.custom is None
    }

    /// The text of the matcher's pattern.
    pub closed spec fn pattern(self) -> Seq<char> {
        match self.custom {
            Some(pattern) => pattern@,
            None => DEFAULT_PATTERN@,
        }
    }

    /// The compiled expression that the matcher holds. A custom matcher
    /// always holds one, the default matcher where the engine accepted the
    /// default pattern.
    pub closed spec fn compiled(self) -> Option<Regex> {
        self.regex
    }

    /// Whether the matcher holds a compiled expression.
    pub open spec fn usable(self) -> bool {
        self.compiled() is Some
    }

    /// What the matcher finds in `text`: `None` where its pattern matches
    /// nowhere.
    pub open spec fn captures(self, text: Seq<char>) -> Option<CapturedView> {
        match self.compiled() {
            Some(re) => captured_view(regex_captures(re, text, TITLE_GROUP@, EPISODE_GROUP@)),
            None => None,
        }
    }

    /// The compiled expression, where the matcher holds one.
    pub fn get(&self) -> (r: Option<&Regex>)
        ensures
            match r {
                Some(re) => self.compiled() == Some(*re),
                None => self.compiled() is None,
            },
    {
        self.regex.as_ref()
    }

    /// The error of a matcher that holds no compiled expression.
    pub(crate) fn unusable(&self) -> (e: EpisodeError)
        requires
            !self.usable(),
        ensures
            e@ == (ErrorView::Regex { pattern: self.pattern() }),
    {
        proof {
            use_type_invariant(self);
        }
        match compile(DEFAULT_PATTERN) {
            Err(source) => EpisodeError::Regex {
                pattern: String::from_str(DEFAULT_PATTERN),
                source,
            },
            Ok(_) => vstd::pervasive::unreached(),
        }
    }

    /// The matcher's custom pattern; `None` for the default matcher.
    pub fn custom_pattern(&self) -> (r: Option<&String>)
        ensures
            r is None == self.is_default(),
            r matches Some(p) ==> p@ == self.pattern(),
    {
        self.custom.as_ref()
    }

    /// The default matcher.
    pub fn new() -> (m: EpisodeMatcher)
        ensures
            m.is_default(),
            m.pattern() == DEFAULT_PATTERN@,
            m.usable() == pattern_compiles(DEFAULT_PATTERN@),
    {
        let regex = match compile(DEFAULT_PATTERN) {
            Ok(re) => Some(re),
            Err(_) => None,
        };
        EpisodeMatcher { custom: None, regex }
    }

    /// A matcher with the pattern `pattern`, which must name the groups
    /// `title` and `episode`. A pattern that lacks one of them is refused
    /// before the engine sees it.
    pub fn from_pattern(pattern: &str) -> (r: Result<EpisodeMatcher, EpisodeError>)
        ensures
            match r {
                Ok(m) => {
                    &&& pattern_fault(pattern@) is None
                    &&& !m.is_default()
                    &&& m.usable()
                    &&& m.pattern() == pattern@
                },
                Err(e) => pattern_fault(pattern@) == Some(e@),
            },
    {
        proof {
            reveal_strlit("title");
            reveal_strlit("episode");
            reveal_strlit("(?P<title>");
            reveal_strlit("(?P<episode>");
            assert("(?P<title>"@ =~= seq!['(', '?', 'P', '<'] + TITLE_GROUP@ + seq!['>']);
            assert("(?P<episode>"@ =~= seq!['(', '?', 'P', '<'] + EPISODE_GROUP@ + seq!['>']);
        }
        if !contains(pattern, "(?P<title>") {
            return Err(
                EpisodeError::MissingCustomMatcherGroup { group: String::from_str(TITLE_GROUP) },
            );
        }
        if !contains(pattern, "(?P<episode>") {
            return Err(
                EpisodeError::MissingCustomMatcherGroup { group: String::from_str(EPISODE_GROUP) },
            );
        }
        match compile(pattern) {
            Ok(re) => Ok(
                EpisodeMatcher { custom: Some(String::from_str(pattern)), regex: Some(re) },
            ),
            Err(source) => Err(EpisodeError::Regex { pattern: String::from_str(pattern), source }),
        }
    }
}

/// The custom pattern `pattern` with its placeholders written out.
pub fn expand_placeholders(pattern: &str) -> (r: String)
    ensures
        r@ == expanded(pattern@),
{
    let with_title = replace_all(pattern, "{title}", "(?P<title>.+)");
    replace_all(with_title.as_str(), "{episode}", "(?P<episode>\\d+)")
}

/// A matcher for a custom pattern in which `{title}` and `{episode}` may
/// stand for the two groups.
pub fn episode_matcher_with_pattern(pattern: &str) -> (r: Result<EpisodeMatcher, EpisodeError>)
    ensures
        match r {
            Ok(m) => {
                &&& pattern_fault(expanded(pattern@)) is None
                &&& !m.is_default()
                &&& m.usable()
                &&& m.pattern() == expanded(pattern@)
            },
            Err(e) => pattern_fault(expanded(pattern@)) == Some(e@),
        },
{
    let full = expand_placeholders(pattern);
    EpisodeMatcher::from_pattern(full.as_str())
}

} // verus!
