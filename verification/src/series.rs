//! A series that is being watched: the user's entry for it and the steps
//! that change the entry.

use crate::local::list::EpisodeList;
use crate::remote::{blank_entry, ListEntry, SeriesInfo, Status};
use crate::text::same_text;
use chrono::NaiveDate;
use vstd::prelude::*;

verus! {

/// A user's entry for a series, with a mark that tells whether it holds
/// changes that the catalog does not have yet.
#[derive(Clone, Copy, Debug, PartialEq, Eq)]
pub struct SeriesEntry {
    entry: ListEntry,
    needs_sync: bool,
}

/// The entry `entry` after the status was set to `status` on the day
/// `today`. A series that is begun gets its start date, one that is ended
/// its end date, unless it has one; watching a completed series again and
/// completing it again set the date anew where `reset_dates` asks for it.
pub open spec fn with_status(
    entry: ListEntry,
    status: Status,
    reset_dates: bool,
    today: NaiveDate,
) -> ListEntry {
    let begins = match status {
        Status::Watching => entry.start_date is None,
        Status::Rewatching => entry.start_date is None || (entry.status == Status::Completed
            && reset_dates),
        _ => false,
    };
    let ends = match status {
        Status::Completed => entry.end_date is None || (entry.status == Status::Rewatching
            && reset_dates),
        Status::Dropped => entry.end_date is None,
        _ => false,
    };
    ListEntry {
        status,
        start_date: if begins {
            Some(today)
        } else {
            entry.start_date
        },
        end_date: if ends {
            Some(today)
        } else {
            entry.end_date
        },
        ..entry
    }
}

impl SeriesEntry {
    /// The entry `entry`, as it came from the catalog.
    pub fn from_remote(entry: ListEntry) -> (r: SeriesEntry)
        ensures
            r@ == (SeriesEntryView { entry, needs_sync: false }),
    {
        SeriesEntry { entry, needs_sync: false }
    }

    /// The entry of the series `id`, of which the catalog has none.
    pub fn from_id(id: u32) -> (r: SeriesEntry)
        ensures
            r@ == (SeriesEntryView { entry: blank_entry(id), needs_sync: false }),
    {
        SeriesEntry::from_remote(ListEntry::new(id))
    }

    /// The entry as the catalog keeps it.
    pub fn inner(&self) -> (r: &ListEntry)
        ensures
            *r == self@.entry,
    {
        &self.entry
    }

    /// Whether the entry holds changes that the catalog does not have.
    pub fn needs_sync(&self) -> (r: bool)
        ensures
            r == self@.needs_sync,
    {
        self.needs_sync
    }

    /// Notes that the catalog has the entry as it is.
    pub fn mark_synced(&mut self)
        ensures
            final(self)@ == (SeriesEntryView { needs_sync: false, ..old(self)@ }),
    {
        self.needs_sync = false;
    }

    /// The series that the entry is for.
    pub fn id(&self) -> (r: u32)
        ensures
            r == self@.entry.id,
    {
        self.entry.id
    }

    /// How many episodes were watched.
    pub fn watched_eps(&self) -> (r: u32)
        ensures
            r == self@.entry.watched_eps,
    {
        self.entry.watched_eps
    }

    /// Sets how many episodes were watched.
    pub fn set_watched_eps(&mut self, watched_eps: u32)
        ensures
            final(self)@ == old(self)@.with_watched_eps(watched_eps),
    {
        self.entry.watched_eps = watched_eps;
        self.needs_sync = true;
    }

    /// The score that the user gave.
    pub fn score(&self) -> (r: Option<u8>)
        ensures
            r == self@.entry.score,
    {
        self.entry.score
    }

    /// Sets the score.
    pub fn set_score(&mut self, score: Option<u8>)
        ensures
            final(self)@ == old(self)@.with_score(score),
    {
        self.entry.score = score;
        self.needs_sync = true;
    }

    /// Where the user stands with the series.
    pub fn status(&self) -> (r: Status)
        ensures
            r == self@.entry.status,
    {
        self.entry.status
    }

    /// Sets the status on the day `today`, and with it the dates that the
    /// change of status brings.
    pub fn set_status(&mut self, status: Status, reset_dates: bool, today: NaiveDate)
        ensures
            final(self)@ == old(self)@.with_status(status, reset_dates, today),
    {
        let begins = match status {
            Status::Watching => self.entry.start_date.is_none(),
            Status::Rewatching => self.entry.start_date.is_none() || (self.entry.status
                == Status::Completed && reset_dates),
            _ => false,
        };
        let ends = match status {
            Status::Completed => self.entry.end_date.is_none() || (self.entry.status
                == Status::Rewatching && reset_dates),
            Status::Dropped => self.entry.end_date.is_none(),
            _ => false,
        };
        if begins {
            self.entry.start_date = Some(today);
        }
        if ends {
            self.entry.end_date = Some(today);
        }
        self.entry.status = status;
        self.needs_sync = true;
    }

    /// How often the series was watched again.
    pub fn times_rewatched(&self) -> (r: u32)
        ensures
            r == self@.entry.times_rewatched,
    {
        self.entry.times_rewatched
    }

    /// Sets how often the series was watched again.
    pub fn set_times_rewatched(&mut self, times_rewatched: u32)
        ensures
            final(self)@ == old(self)@.with_times_rewatched(times_rewatched),
    {
        self.entry.times_rewatched = times_rewatched;
        self.needs_sync = true;
    }

    /// The day on which the series was begun.
    pub fn start_date(&self) -> (r: Option<NaiveDate>)
        ensures
            r == self@.entry.start_date,
    {
        self.entry.start_date
    }

    /// The day on which the series was ended.
    pub fn end_date(&self) -> (r: Option<NaiveDate>)
        ensures
            r == self@.entry.end_date,
    {
        self.entry.end_date
    }
}

/// What a `SeriesEntry` holds.
pub ghost struct SeriesEntryView {
    /// The entry as the catalog keeps it.
    pub entry: ListEntry,
    /// Whether the entry holds changes that the catalog does not have.
    pub needs_sync: bool,
}

impl SeriesEntryView {
    /// The entry with `watched_eps` episodes watched.
    pub open spec fn with_watched_eps(self, watched_eps: u32) -> SeriesEntryView {
        SeriesEntryView { entry: ListEntry { watched_eps, ..self.entry }, needs_sync: true }
    }

    /// The entry with the score `score`.
    pub open spec fn with_score(self, score: Option<u8>) -> SeriesEntryView {
        SeriesEntryView { entry: ListEntry { score, ..self.entry }, needs_sync: true }
    }

    /// The entry with the series watched again `times_rewatched` times.
    pub open spec fn with_times_rewatched(self, times_rewatched: u32) -> SeriesEntryView {
        SeriesEntryView { entry: ListEntry { times_rewatched, ..self.entry }, needs_sync: true }
    }

    /// The entry with the status set to `status` on the day `today`.
    pub open spec fn with_status(
        self,
        status: Status,
        reset_dates: bool,
        today: NaiveDate,
    ) -> SeriesEntryView {
        SeriesEntryView {
            entry: with_status(self.entry, status, reset_dates, today),
            needs_sync: true,
        }
    }

    /// The entry after the series was completed: a series that was being
    /// watched again counts one more time.
    pub open spec fn completed(self, reset_dates: bool, today: NaiveDate) -> SeriesEntryView {
        let counted = if self.entry.status == Status::Rewatching {
            self.with_times_rewatched((self.entry.times_rewatched + 1) as u32)
        } else {
            self
        };
        counted.with_status(Status::Completed, reset_dates, today)
    }

    /// The entry as the user sets out to watch the next episode of the
    /// series, which has `episodes` episodes. A series that was watched to
    /// its end, completed or dropped is begun again from its first episode.
    pub open spec fn begun(self, episodes: u32, reset_dates: bool, today: NaiveDate) -> SeriesEntryView {
        match self.entry.status {
            Status::Watching | Status::Rewatching => if self.entry.watched_eps >= episodes {
                let again = self.with_status(
                    Status::Rewatching,
                    reset_dates,
                    today,
                ).with_watched_eps(0);
                if self.entry.status == Status::Rewatching {
                    again.with_times_rewatched((self.entry.times_rewatched + 1) as u32)
                } else {
                    again
                }
            } else {
                self
            },
            Status::Completed => self.with_status(
                Status::Rewatching,
                reset_dates,
                today,
            ).with_watched_eps(0),
            Status::PlanToWatch | Status::OnHold => self.with_status(
                Status::Watching,
                reset_dates,
                today,
            ),
            Status::Dropped => self.with_status(
                Status::Watching,
                reset_dates,
                today,
            ).with_watched_eps(0),
        }
    }

    /// The entry after one more episode of the series, which has `episodes`
    /// episodes, was watched.
    pub open spec fn after_episode(
        self,
        episodes: u32,
        reset_dates: bool,
        today: NaiveDate,
    ) -> SeriesEntryView {
        let watched = self.entry.watched_eps + 1;
        if watched > episodes {
            self.completed(reset_dates, today)
        } else if watched == episodes {
            self.with_watched_eps(watched as u32).completed(reset_dates, today)
        } else {
            self.with_watched_eps(watched as u32)
        }
    }

    /// The entry after the last episode watched was taken back.
    pub open spec fn regressed(self, reset_dates: bool, today: NaiveDate) -> SeriesEntryView {
        let watched = if self.entry.watched_eps == 0 {
            0
        } else {
            (self.entry.watched_eps - 1) as u32
        };
        let status = match self.entry.status {
            Status::Completed if self.entry.times_rewatched > 0 => Status::Rewatching,
            Status::Rewatching => Status::Rewatching,
            _ => Status::Watching,
        };
        self.with_watched_eps(watched).with_status(status, reset_dates, today)
    }
}

impl SeriesEntry {
    /// Marks the series as completed on the day `today`.
    pub fn series_complete(&mut self, reset_dates: bool, today: NaiveDate)
        requires
            old(self)@.entry.status == Status::Rewatching ==> old(self)@.entry.times_rewatched
                < u32::MAX,
        ensures
            final(self)@ == old(self)@.completed(reset_dates, today),
    {
        if self.status() == Status::Rewatching {
            self.set_times_rewatched(self.times_rewatched() + 1);
        }
        self.set_status(Status::Completed, reset_dates, today);
    }

    /// Prepares the entry for watching the next episode of the series, which
    /// has `episodes` episodes, on the day `today`.
    pub fn begin_watching(&mut self, episodes: u32, reset_dates: bool, today: NaiveDate)
        requires
            old(self)@.entry.status == Status::Rewatching ==> old(self)@.entry.times_rewatched
                < u32::MAX,
        ensures
            final(self)@ == old(self)@.begun(episodes, reset_dates, today),
    {
        let last_status = self.status();
        match last_status {
            Status::Watching | Status::Rewatching => {
                if self.watched_eps() >= episodes {
                    self.set_status(Status::Rewatching, reset_dates, today);
                    self.set_watched_eps(0);
                    if last_status == Status::Rewatching {
                        self.set_times_rewatched(self.times_rewatched() + 1);
                    }
                }
            },
            Status::Completed => {
                self.set_status(Status::Rewatching, reset_dates, today);
                self.set_watched_eps(0);
            },
            Status::PlanToWatch | Status::OnHold => {
                self.set_status(Status::Watching, reset_dates, today);
            },
            Status::Dropped => {
                self.set_status(Status::Watching, reset_dates, today);
                self.set_watched_eps(0);
            },
        }
    }

    /// Counts one more episode of the series, which has `episodes`
    /// episodes, as watched on the day `today`. With its last episode the
    /// series is completed.
    pub fn episode_completed(&mut self, episodes: u32, reset_dates: bool, today: NaiveDate)
        requires
            old(self)@.entry.watched_eps < u32::MAX,
            old(self)@.entry.status == Status::Rewatching ==> old(self)@.entry.times_rewatched
                < u32::MAX,
        ensures
            final(self)@ == old(self)@.after_episode(episodes, reset_dates, today),
    {
        let watched = self.watched_eps() + 1;
        if watched >= episodes {
            if watched == episodes {
                self.set_watched_eps(watched);
            }
            self.series_complete(reset_dates, today);
        } else {
            self.set_watched_eps(watched);
        }
    }

    /// Takes the last episode watched back, on the day `today`.
    pub fn episode_regressed(&mut self, reset_dates: bool, today: NaiveDate)
        ensures
            final(self)@ == old(self)@.regressed(reset_dates, today),
    {
        let status = match self.status() {
            Status::Completed => if self.times_rewatched() > 0 {
                Status::Rewatching
            } else {
                Status::Watching
            },
            Status::Rewatching => Status::Rewatching,
            _ => Status::Watching,
        };
        let watched = self.watched_eps();
        self.set_watched_eps(if watched == 0 { 0 } else { watched - 1 });
        self.set_status(status, reset_dates, today);
    }
}

impl View for SeriesEntry {
    type V = SeriesEntryView;

    closed spec fn view(&self) -> SeriesEntryView {
        SeriesEntryView { entry: self.entry, needs_sync: self.needs_sync }
    }
}

/// The name of the file of the episode `episode` of the series `info`, of
/// which `list` holds the local episodes. The episodes of a series are
/// counted from 1 to the number that the catalog gives.
pub fn episode_file<'a>(list: &'a EpisodeList, info: &SeriesInfo, episode: u32) -> (r: Option<
    &'a String,
>)
    ensures
        match r {
            Some(name) => {
                &&& 0 < episode <= info@.episodes
                &&& list@.paths.contains_key(episode)
                &&& list@.paths[episode] == name@
            },
            None => episode == 0 || episode > info@.episodes || !list@.paths.contains_key(
                episode,
            ),
        },
{
    if episode == 0 || episode > info.episodes {
        return None;
    }
    list.get(episode)
}

/// The index of the last of `names` that maps the nickname `nickname`.
pub open spec fn last_named(names: Seq<(Seq<char>, u32)>, nickname: Seq<char>) -> Option<int>
    decreases names.len(),
{
    if names.len() == 0 {
        None
    } else if names.last().0 == nickname {
        Some(names.len() - 1)
    } else {
        last_named(names.drop_last(), nickname)
    }
}

/// The series of each nickname in `names`. Where a nickname comes twice,
/// the later one stands.
pub open spec fn ids_of(names: Seq<(Seq<char>, u32)>) -> Map<Seq<char>, u32> {
    Map::new(
        |nickname: Seq<char>| last_named(names, nickname) is Some,
        |nickname: Seq<char>| names[last_named(names, nickname)->0].1,
    )
}

/// Where a nickname is found, it is found at the last index that holds it;
/// where it is not, no index holds it.
pub proof fn lemma_last_named(names: Seq<(Seq<char>, u32)>, nickname: Seq<char>)
    ensures
        match last_named(names, nickname) {
            Some(at) => 0 <= at < names.len() && names[at].0 == nickname && forall|i: int|
                at < i < names.len() ==> names[i].0 != nickname,
            None => forall|i: int| 0 <= i < names.len() ==> names[i].0 != nickname,
        },
    decreases names.len(),
{
    if names.len() > 0 && names.last().0 != nickname {
        let front = names.drop_last();
        lemma_last_named(front, nickname);
        assert(forall|i: int| 0 <= i < front.len() ==> front[i] == names[i]);
    }
}

/// The last index that holds a nickname is where the nickname is found.
pub proof fn lemma_last_named_is(names: Seq<(Seq<char>, u32)>, nickname: Seq<char>, at: int)
    requires
        0 <= at < names.len(),
        names[at].0 == nickname,
        forall|i: int| at < i < names.len() ==> names[i].0 != nickname,
    ensures
        last_named(names, nickname) == Some(at),
{
    lemma_last_named(names, nickname);
}

/// The series that were added, by nickname, and the one watched last.
#[derive(Debug)]
pub struct SavedSeries {
    last_watched_id: Option<u32>,
    names: Vec<(String, u32)>,
}

/// What a `SavedSeries` holds.
pub ghost struct SavedSeriesView {
    /// The series that was watched last.
    pub last_watched_id: Option<u32>,
    /// The series of each nickname.
    pub name_id_map: Map<Seq<char>, u32>,
}

/// The nicknames and series of `names`, the nicknames as sequences of
/// characters.
pub open spec fn names_view(names: Seq<(String, u32)>) -> Seq<(Seq<char>, u32)> {
    Seq::new(names.len(), |i: int| (names[i].0@, names[i].1))
}

impl View for SavedSeries {
    type V = SavedSeriesView;

    closed spec fn view(&self) -> SavedSeriesView {
        SavedSeriesView {
            last_watched_id: self.last_watched_id,
            name_id_map: ids_of(names_view(self.names@)),
        }
    }
}

impl SavedSeries {
    /// No series.
    pub fn new() -> (r: SavedSeries)
        ensures
            r@ == (SavedSeriesView { last_watched_id: None, name_id_map: Map::empty() }),
    {
        let r = SavedSeries { last_watched_id: None, names: Vec::new() };
        assert(r@.name_id_map =~= Map::<Seq<char>, u32>::empty());
        r
    }

    /// The last index that holds the nickname `nickname`.
    fn position(&self, nickname: &str) -> (r: Option<usize>)
        ensures
            match r {
                Some(at) => last_named(names_view(self.names@), nickname@) == Some(at as int)
                    && at < self.names@.len(),
                None => last_named(names_view(self.names@), nickname@) is None,
            },
    {
        let ghost names = names_view(self.names@);
        proof {
            lemma_last_named(names, nickname@);
        }
        let mut at: usize = self.names.len();
        while at > 0
            invariant
                at <= self.names@.len(),
                names == names_view(self.names@),
                forall|i: int| at <= i < names.len() ==> names[i].0 != nickname@,
            decreases at,
        {
            at -= 1;
            assert(names[at as int].0 == self.names@[at as int].0@);
            if same_text(self.names[at].0.as_str(), nickname) {
                proof {
                    lemma_last_named_is(names, nickname@, at as int);
                }
                return Some(at);
            }
        }
        None
    }

    /// Whether a series was added under the nickname `nickname`.
    pub fn contains(&self, nickname: &str) -> (r: bool)
        ensures
            r == self@.name_id_map.contains_key(nickname@),
    {
        self.position(nickname).is_some()
    }

    /// The series that was added under the nickname `nickname`.
    pub fn get(&self, nickname: &str) -> (r: Option<u32>)
        ensures
            r == if self@.name_id_map.contains_key(nickname@) {
                Some(self@.name_id_map[nickname@])
            } else {
                None
            },
    {
        match self.position(nickname) {
            Some(at) => {
                assert(names_view(self.names@)[at as int].1 == self.names@[at as int].1);
                Some(self.names[at].1)
            },
            None => None,
        }
    }

    /// Adds the series `id` under the nickname `nickname`, in place of the
    /// series that was there under that nickname.
    pub fn insert(&mut self, nickname: String, id: u32)
        ensures
            final(self)@ == (SavedSeriesView {
                name_id_map: old(self)@.name_id_map.insert(nickname@, id),
                ..old(self)@
            }),
    {
        let found = self.position(nickname.as_str());
        let ghost before = names_view(self.names@);
        let ghost key = nickname@;
        proof {
            lemma_last_named(before, key);
        }
        match found {
            Some(at) => {
                self.names.set(at, (nickname, id));
            },
            None => {
                self.names.push((nickname, id));
            },
        }
        let ghost after = names_view(self.names@);
        proof {
            let at = match found {
                Some(at) => at as int,
                None => before.len() as int,
            };
            assert(after.len() > at && after[at] == (key, id));
            assert forall|i: int| 0 <= i < after.len() && i != at implies after[i] == before[i] by {}
            assert forall|other: Seq<char>| #[trigger]
                ids_of(after).contains_key(other) == ids_of(before).insert(key, id).contains_key(
                    other,
                ) && (ids_of(after).contains_key(other) ==> ids_of(after)[other] == ids_of(
                    before,
                ).insert(key, id)[other]) by {
                lemma_last_named(before, other);
                lemma_last_named(after, other);
                if other == key {
                    lemma_last_named_is(after, key, at);
                } else {
                    match last_named(before, other) {
                        Some(i) => {
                            lemma_last_named_is(after, other, i);
                        },
                        None => {},
                    }
                }
            }
            assert(ids_of(after) =~= ids_of(before).insert(key, id));
        }
    }

    /// The series that was watched last.
    pub fn last_watched(&self) -> (r: Option<u32>)
        ensures
            r == self@.last_watched_id,
    {
        self.last_watched_id
    }

    /// Notes the series `id` as the one watched last, and tells whether
    /// another one, or none, was noted before.
    pub fn set_last_watched(&mut self, id: u32) -> (r: bool)
        ensures
            final(self)@ == (SavedSeriesView { last_watched_id: Some(id), ..old(self)@ }),
            r == (old(self)@.last_watched_id != Some(id)),
    {
        let is_different = match self.last_watched_id {
            Some(old_id) => old_id != id,
            None => true,
        };
        self.last_watched_id = Some(id);
        is_different
    }
}

} // verus!
