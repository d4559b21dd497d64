//! What the remote catalog says of a series.

use chrono::NaiveDate;
use vstd::prelude::*;

verus! {

/// `chrono::NaiveDate`, a day of the calendar. The entries carry such days
/// about; nothing is known of what is in one.
#[verifier::external_type_specification]
#[verifier::external_body]
pub struct ExNaiveDate(chrono::NaiveDate);

/// The kind of a series, and with it the kind of a sequel and the category
/// of a group of local episodes.
#[derive(Clone, Copy, Debug, PartialEq, Eq, Structural)]
pub enum SeriesKind {
    Season,
    Movie,
    Special,
    OVA,
    ONA,
    Music,
}

/// A reference to the series that follows another.
#[derive(Clone, Copy, Debug, PartialEq, Eq, Structural)]
pub struct Sequel {
    pub kind: SeriesKind,
    pub id: u32,
}

/// The titles of a series.
#[derive(Debug, PartialEq, Eq)]
pub struct SeriesTitle {
    pub romaji: String,
    pub preferred: String,
}

/// The catalog's entry for one series.
#[derive(Debug, PartialEq, Eq)]
pub struct SeriesInfo {
    pub id: u32,
    pub title: SeriesTitle,
    pub episodes: u32,
    pub episode_length: u32,
    pub kind: SeriesKind,
    pub sequels: Vec<Sequel>,
}

/// A `SeriesInfo` with its texts as sequences of characters.
pub ghost struct SeriesInfoView {
    pub id: u32,
    pub romaji: Seq<char>,
    pub preferred: Seq<char>,
    pub episodes: u32,
    pub episode_length: u32,
    pub kind: SeriesKind,
    pub sequels: Seq<Sequel>,
}

impl View for SeriesInfo {
    type V = SeriesInfoView;

    open spec fn view(&self) -> SeriesInfoView {
        SeriesInfoView {
            id: self.id,
            romaji: self.title.romaji@,
            preferred: self.title.preferred@,
            episodes: self.episodes,
            episode_length: self.episode_length,
            kind: self.kind,
            sequels: self.sequels@,
        }
    }
}

impl DeepView for SeriesInfo {
    type V = SeriesInfoView;

    open spec fn deep_view(&self) -> SeriesInfoView {
        self@
    }
}

/// Where a user stands with a series.
#[derive(Clone, Copy, Debug, PartialEq, Eq, Structural)]
pub enum Status {
    Watching,
    Completed,
    OnHold,
    Dropped,
    PlanToWatch,
    Rewatching,
}

/// A user's entry for one series in the list that the catalog keeps.
#[derive(Clone, Copy, Debug, PartialEq, Eq)]
pub struct ListEntry {
    pub id: u32,
    pub watched_eps: u32,
    pub score: Option<u8>,
    pub status: Status,
    pub times_rewatched: u32,
    pub start_date: Option<NaiveDate>,
    pub end_date: Option<NaiveDate>,
}

/// The entry for the series `id` of a user who has not begun it.
pub open spec fn blank_entry(id: u32) -> ListEntry {
    ListEntry {
        id,
        watched_eps: 0,
        score: None,
        status: Status::PlanToWatch,
        times_rewatched: 0,
        start_date: None,
        end_date: None,
    }
}

impl ListEntry {
    /// The entry of a series that the user has not begun.
    pub fn new(id: u32) -> (r: ListEntry)
        ensures
            r == blank_entry(id),
    {
        ListEntry {
            id,
            watched_eps: 0,
            score: None,
            status: Status::PlanToWatch,
            times_rewatched: 0,
            start_date: None,
            end_date: None,
        }
    }
}

/// The first of `sequels` that is of the kind `kind`.
pub open spec fn first_of_kind(sequels: Seq<Sequel>, kind: SeriesKind) -> Option<Sequel>
    decreases sequels.len(),
{
    if sequels.len() == 0 {
        None
    } else if sequels[0].kind == kind {
        Some(sequels[0])
    } else {
        first_of_kind(sequels.drop_first(), kind)
    }
}

impl SeriesInfoView {
    /// The sequel of the kind `kind`.
    pub open spec fn sequel_by_kind(self, kind: SeriesKind) -> Option<Sequel> {
        first_of_kind(self.sequels, kind)
    }

    /// The sequel that is the next season.
    pub open spec fn direct_sequel(self) -> Option<Sequel> {
        self.sequel_by_kind(SeriesKind::Season)
    }
}

/// The first of `sequels` that is of the kind `kind`.
pub fn find_sequel(sequels: &Vec<Sequel>, kind: SeriesKind) -> (r: Option<Sequel>)
    ensures
        r == first_of_kind(sequels@, kind),
        r matches Some(sequel) ==> sequel.kind == kind,
{
    let n = sequels.len();
    let mut i: usize = 0;
    assert(sequels@.subrange(0, n as int) == sequels@);
    while i < n
        invariant
            n == sequels@.len(),
            i <= n,
            first_of_kind(sequels@, kind) == first_of_kind(
                sequels@.subrange(i as int, n as int),
                kind,
            ),
        decreases n - i,
    {
        let sequel = sequels[i];
        if sequel.kind == kind {
            return Some(sequel);
        }
        assert(sequels@.subrange(i as int, n as int).drop_first() == sequels@.subrange(
            i + 1,
            n as int,
        ));
        i += 1;
    }
    None
}

/// A sequel that is found by its kind is of that kind.
pub proof fn lemma_first_of_kind(sequels: Seq<Sequel>, kind: SeriesKind)
    ensures
        first_of_kind(sequels, kind) matches Some(sequel) ==> sequel.kind == kind,
    decreases sequels.len(),
{
    if sequels.len() > 0 && sequels[0].kind != kind {
        lemma_first_of_kind(sequels.drop_first(), kind);
    }
}

impl SeriesInfo {
    /// The sequel of the kind `kind`.
    pub fn sequel_by_kind(&self, kind: SeriesKind) -> (r: Option<Sequel>)
        ensures
            r == self@.sequel_by_kind(kind),
    {
        find_sequel(&self.sequels, kind)
    }

    /// The sequel that is the next season.
    pub fn direct_sequel(&self) -> (r: Option<Sequel>)
        ensures
            r == self@.direct_sequel(),
    {
        self.sequel_by_kind(SeriesKind::Season)
    }
}

} // verus!
