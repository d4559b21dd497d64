//! Finding the seasons that a merged directory holds.
//!
//! The catalog is asked one series at a time, and only the caller can ask
//! it. A `Resolver` therefore works in steps: it names the series to look up
//! next, takes the answer, and names the next one, until nothing is left to
//! ask. What it found is then handed out by `finish`.

use crate::local::episode::EpisodeView;
use crate::local::sorted::{highest, CategorizedEpisodes, CategoryView, SortedEpisodes};
use crate::remote::{
    find_sequel, first_of_kind, lemma_first_of_kind, Sequel, SeriesInfo, SeriesInfoView,
    SeriesKind,
};
use crate::split::action::{split_actions, EpisodeOffset, SplitAction, SplitActionView};
use vstd::prelude::*;

verus! {

/// A season or another sequel that was found in a merged directory, with the
/// links that part it from the rest.
#[derive(Debug, PartialEq, Eq)]
pub struct ResolvedSeries {
    pub info: SeriesInfo,
    pub base_dir: String,
    pub out_dir: String,
    pub actions: Vec<SplitAction>,
}

/// A `ResolvedSeries` with its texts as sequences of characters.
pub ghost struct ResolvedSeriesView {
    pub info: SeriesInfoView,
    pub base_dir: Seq<char>,
    pub out_dir: Seq<char>,
    pub actions: Seq<SplitActionView>,
}

impl View for ResolvedSeries {
    type V = ResolvedSeriesView;

    open spec fn view(&self) -> ResolvedSeriesView {
        ResolvedSeriesView {
            info: self.info@,
            base_dir: self.base_dir@,
            out_dir: self.out_dir@,
            actions: self.actions.deep_view(),
        }
    }
}

/// The series `info` as it is parted from the merged episodes `episodes` of
/// the directory `base_dir`, where `offset` episodes come before it. Its own
/// directory bears its title.
pub open spec fn resolved_series(
    info: SeriesInfoView,
    base_dir: Seq<char>,
    episodes: Seq<EpisodeView>,
    offset: u32,
) -> ResolvedSeriesView {
    ResolvedSeriesView {
        info,
        base_dir,
        out_dir: info.preferred,
        actions: split_actions(info.preferred, episodes, offset, info.episodes),
    }
}

impl ResolvedSeries {
    /// The series `info` as it is parted from the merged episodes `episodes`
    /// of the directory `base_dir`, where `offset` episodes come before it.
    pub fn new(
        info: SeriesInfo,
        base_dir: String,
        episodes: &SortedEpisodes,
        offset: EpisodeOffset,
    ) -> (r: ResolvedSeries)
        ensures
            r@ == resolved_series(info@, base_dir@, episodes@, offset),
    {
        let actions = SplitAction::from_merged_seasons(&info, episodes, offset);
        let out_dir = info.title.preferred.clone();
        ResolvedSeries { info, base_dir, out_dir, actions }
    }
}

/// What became of one sequel: it was resolved, or the catalog could not be
/// asked about it.
#[derive(Debug, PartialEq, Eq)]
pub enum MergedSeries {
    Resolved(Box<ResolvedSeries>),
    Failed(SeriesKind),
}

/// A `MergedSeries` with its texts as sequences of characters.
pub ghost enum MergedSeriesView {
    Resolved(ResolvedSeriesView),
    Failed(SeriesKind),
}

impl View for MergedSeries {
    type V = MergedSeriesView;

    open spec fn view(&self) -> MergedSeriesView {
        match *self {
            MergedSeries::Resolved(series) => MergedSeriesView::Resolved(series@),
            MergedSeries::Failed(kind) => MergedSeriesView::Failed(kind),
        }
    }
}

impl DeepView for MergedSeries {
    type V = MergedSeriesView;

    open spec fn deep_view(&self) -> MergedSeriesView {
        self@
    }
}

impl MergedSeries {
    /// The outcome for a sequel that was resolved.
    pub fn resolved(resolved: ResolvedSeries) -> (r: MergedSeries)
        ensures
            r@ == MergedSeriesView::Resolved(resolved@),
    {
        MergedSeries::Resolved(Box::new(resolved))
    }
}

/// What a resolver waits for.
#[derive(Clone, Copy, Debug, PartialEq, Eq, Structural)]
pub enum Waiting {
    /// The entry of the base series.
    Base,
    /// The entry of the sequel of the category at the index `category`, which
    /// is of the kind `kind` and no season.
    Sequel { category: usize, kind: SeriesKind },
    /// The entry of the next season among the episodes of the category at
    /// the index `category`, of which `offset` belong to the seasons before.
    Season { category: usize, offset: u32 },
    /// Nothing: the resolution has come to its end.
    Nothing,
}

/// What a resolver asks of its caller.
#[derive(Clone, Copy, Debug, PartialEq, Eq, Structural)]
pub enum Request {
    /// To look up the series `id` in the catalog, after a pause where `delay`
    /// is set, and to hand the answer to `step`.
    Lookup { id: u32, delay: bool },
    /// Nothing more: to call `finish`.
    Done,
}

/// For how long a lookup with `delay` set waits, in milliseconds, so that
/// the catalog is not asked too often.
pub const LOOKUP_DELAY_MS: u64 = 250;

/// Why a resolution gave no outcomes.
#[derive(Clone, Copy, Debug, PartialEq, Eq, Structural)]
pub enum ResolveError {
    /// The catalog could not be asked about the base series.
    BaseLookupFailed,
    /// The resolver still waits for an answer.
    Unfinished,
}

/// The state of a resolution.
pub struct Resolver {
    episodes: CategorizedEpisodes,
    base_dir: String,
    base_episodes: u32,
    base_sequels: Vec<Sequel>,
    waiting: Waiting,
    results: Vec<MergedSeries>,
    failed: bool,
}

/// The state of a resolution, with its texts as sequences of characters.
pub ghost struct ResolverView {
    /// The local episodes, by category.
    pub episodes: Seq<CategoryView>,
    /// The directory that holds them.
    pub base_dir: Seq<char>,
    /// The number of episodes of the base series.
    pub base_episodes: u32,
    /// The sequels of the base series.
    pub base_sequels: Seq<Sequel>,
    /// What the resolver waits for.
    pub waiting: Waiting,
    /// The outcomes so far.
    pub results: Seq<MergedSeriesView>,
    /// Whether the lookup of the base series failed.
    pub failed: bool,
}

impl View for Resolver {
    type V = ResolverView;

    closed spec fn view(&self) -> ResolverView {
        ResolverView {
            episodes: self.episodes@,
            base_dir: self.base_dir@,
            base_episodes: self.base_episodes,
            base_sequels: self.base_sequels@,
            waiting: self.waiting,
            results: self.results.deep_view(),
            failed: self.failed,
        }
    }
}

/// The state in which a resolution of the local episodes `episodes` of the
/// directory `base_dir` begins.
pub open spec fn initial(episodes: Seq<CategoryView>, base_dir: Seq<char>) -> ResolverView {
    ResolverView {
        episodes,
        base_dir,
        base_episodes: 0,
        base_sequels: Seq::empty(),
        waiting: Waiting::Base,
        results: Seq::empty(),
        failed: false,
    }
}

/// What `finish` hands out in the state `state`.
pub open spec fn finished(state: ResolverView) -> Result<Seq<MergedSeriesView>, ResolveError> {
    if state.waiting != Waiting::Nothing {
        Err(ResolveError::Unfinished)
    } else if state.failed {
        Err(ResolveError::BaseLookupFailed)
    } else {
        Ok(state.results)
    }
}

impl Resolver {
    #[verifier::type_invariant]
    spec fn ready(self) -> bool {
        sound(self@)
    }

    /// Begins to resolve the local episodes `episodes` of the directory
    /// `base_dir` against the series `base_id`, which is to be looked up
    /// first.
    pub fn new(episodes: CategorizedEpisodes, base_dir: String, base_id: u32) -> (r: (
        Resolver,
        Request,
    ))
        ensures
            r.0@ == initial(episodes@, base_dir@),
            r.1 == (Request::Lookup { id: base_id, delay: false }),
    {
        let _ = episodes.len();
        let results: Vec<MergedSeries> = Vec::new();
        assert(results.deep_view() == Seq::<MergedSeriesView>::empty());
        let resolver = Resolver {
            episodes,
            base_dir,
            base_episodes: 0,
            base_sequels: Vec::new(),
            waiting: Waiting::Base,
            results,
            failed: false,
        };
        (resolver, Request::Lookup { id: base_id, delay: false })
    }

    /// What the resolver waits for.
    pub fn waiting(&self) -> (r: Waiting)
        ensures
            r == self@.waiting,
            sound(self@),
    {
        proof {
            use_type_invariant(self);
        }
        self.waiting
    }

    /// The first category from `from` on that has something to look up.
    fn next_category(
        episodes: &CategorizedEpisodes,
        base_episodes: u32,
        sequels: &Vec<Sequel>,
        from: usize,
    ) -> (r: Option<(usize, Sequel)>)
        requires
            from <= episodes@.len(),
        ensures
            match r {
                Some((at, sequel)) => next_category(
                    episodes@,
                    base_episodes,
                    sequels@,
                    from as int,
                ) == Some((at as int, sequel)),
                None => next_category(episodes@, base_episodes, sequels@, from as int) is None,
            },
    {
        let n = episodes.len();
        let mut at: usize = from;
        while at < n
            invariant
                n == episodes@.len(),
                from <= at <= n,
                next_category(episodes@, base_episodes, sequels@, from as int) == next_category(
                    episodes@,
                    base_episodes,
                    sequels@,
                    at as int,
                ),
            decreases n - at,
        {
            let category = episodes.category(at);
            match find_sequel(sequels, category.kind) {
                Some(sequel) => {
                    let season = match category.kind {
                        SeriesKind::Season => true,
                        _ => false,
                    };
                    if !season || base_episodes <= category.episodes.highest_episode_number() {
                        return Some((at, sequel));
                    }
                },
                None => {},
            }
            at += 1;
        }
        None
    }

    /// Moves on to the categories from `from` on.
    fn move_on(self, from: usize) -> (r: (Resolver, Request))
        requires
            from <= self@.episodes.len(),
        ensures
            (r.0@, r.1) == moved_on(self@, from as int),
    {
        proof {
            use_type_invariant(&self);
            lemma_next_category(
                self@.episodes,
                self@.base_episodes,
                self@.base_sequels,
                from as int,
            );
        }
        let Resolver { episodes, base_dir, base_episodes, base_sequels, waiting, results, failed } =
            self;
        match Resolver::next_category(&episodes, base_episodes, &base_sequels, from) {
            None => (
                Resolver {
                    episodes,
                    base_dir,
                    base_episodes,
                    base_sequels,
                    waiting: Waiting::Nothing,
                    results,
                    failed,
                },
                Request::Done,
            ),
            Some((at, sequel)) => {
                let waiting = match sequel.kind {
                    SeriesKind::Season => Waiting::Season { category: at, offset: base_episodes },
                    kind => Waiting::Sequel { category: at, kind },
                };
                (
                    Resolver {
                        episodes,
                        base_dir,
                        base_episodes,
                        base_sequels,
                        waiting,
                        results,
                        failed,
                    },
                    Request::Lookup { id: sequel.id, delay: true },
                )
            },
        }
    }

    /// Records `outcome` and moves on to the categories from `from` on.
    fn record(self, outcome: MergedSeries, from: usize) -> (r: (Resolver, Request))
        requires
            from <= self@.episodes.len(),
        ensures
            (r.0@, r.1) == moved_on(recorded(self@, outcome@), from as int),
    {
        proof {
            use_type_invariant(&self);
        }
        let Resolver { episodes, base_dir, base_episodes, base_sequels, waiting, results, failed } =
            self;
        let mut results = results;
        let ghost before = results.deep_view();
        results.push(outcome);
        assert(results.deep_view() == before.push(outcome@));
        let next = Resolver {
            episodes,
            base_dir,
            base_episodes,
            base_sequels,
            waiting: Waiting::Nothing,
            results,
            failed,
        };
        next.move_on(from)
    }

    /// Takes the catalog's answer to the last request, `None` where the
    /// lookup failed, and says what to do next.
    pub fn step(self, answer: Option<SeriesInfo>) -> (r: (Resolver, Request))
        ensures
            (r.0@, r.1) == stepped(self@, answer.deep_view()),
            sound(r.0@),
    {
        proof {
            use_type_invariant(&self);
            lemma_step_keeps_sound(self@, answer.deep_view());
        }
        match self.waiting {
            Waiting::Nothing => (self, Request::Done),
            Waiting::Base => {
                let Resolver {
                    episodes,
                    base_dir,
                    base_episodes,
                    base_sequels,
                    waiting,
                    results,
                    failed,
                } = self;
                match answer {
                    None => (
                        Resolver {
                            episodes,
                            base_dir,
                            base_episodes,
                            base_sequels,
                            waiting: Waiting::Nothing,
                            results,
                            failed: true,
                        },
                        Request::Done,
                    ),
                    Some(info) => {
                        let next = Resolver {
                            episodes,
                            base_dir,
                            base_episodes: info.episodes,
                            base_sequels: info.sequels,
                            waiting: Waiting::Nothing,
                            results,
                            failed,
                        };
                        next.move_on(0)
                    },
                }
            },
            Waiting::Sequel { category, kind } => {
                let outcome = match answer {
                    None => MergedSeries::Failed(kind),
                    Some(info) => MergedSeries::resolved(
                        ResolvedSeries::new(
                            info,
                            self.base_dir.clone(),
                            &self.episodes.category(category).episodes,
                            0,
                        ),
                    ),
                };
                self.record(outcome, category + 1)
            },
            Waiting::Season { category, offset } => {
                let info = match answer {
                    Some(info) => info,
                    None => {
                        return self.record(MergedSeries::Failed(SeriesKind::Season), category + 1);
                    },
                };
                let local = &self.episodes.category(category).episodes;
                let further = match info.episodes.checked_add(offset) {
                    Some(sum) if sum <= local.highest_episode_number() => info.direct_sequel(),
                    _ => None,
                };
                let count = info.episodes;
                let outcome = MergedSeries::resolved(
                    ResolvedSeries::new(info, self.base_dir.clone(), local, offset),
                );
                match further {
                    None => self.record(outcome, category + 1),
                    Some(next) => {
                        let Resolver {
                            episodes,
                            base_dir,
                            base_episodes,
                            base_sequels,
                            waiting,
                            results,
                            failed,
                        } = self;
                        let mut results = results;
                        let ghost before = results.deep_view();
                        results.push(outcome);
                        assert(results.deep_view() == before.push(outcome@));
                        (
                            Resolver {
                                episodes,
                                base_dir,
                                base_episodes,
                                base_sequels,
                                waiting: Waiting::Season { category, offset: offset + count },
                                results,
                                failed,
                            },
                            Request::Lookup { id: next.id, delay: true },
                        )
                    },
                }
            },
        }
    }

    /// The outcomes, once nothing is left to ask: one for each sequel that
    /// was looked up, in the order of the lookups.
    pub fn finish(self) -> (r: Result<Vec<MergedSeries>, ResolveError>)
        ensures
            match r {
                Ok(results) => finished(self@) == Ok::<Seq<MergedSeriesView>, ResolveError>(
                    results.deep_view(),
                ),
                Err(error) => finished(self@) == Err::<Seq<MergedSeriesView>, ResolveError>(
                    error,
                ),
            },
    {
        match self.waiting {
            Waiting::Nothing => {},
            _ => {
                return Err(ResolveError::Unfinished);
            },
        }
        if self.failed {
            return Err(ResolveError::BaseLookupFailed);
        }
        Ok(self.results)
    }
}

impl MergedSeries {
    /// Begins to resolve the local episodes `episodes` of the directory
    /// `base_dir` against the series `base_id`: looks for the sequels of
    /// that series among them, category by category, and follows the chain
    /// of seasons as far as the episodes go.
    pub fn resolve(episodes: CategorizedEpisodes, base_dir: String, base_id: u32) -> (r: (
        Resolver,
        Request,
    ))
        ensures
            r.0@ == initial(episodes@, base_dir@),
            r.1 == (Request::Lookup { id: base_id, delay: false }),
    {
        Resolver::new(episodes, base_dir, base_id)
    }
}

/// Whether the local episodes `episodes` of a category go beyond the first
/// `offset`, so that a further season may be among them.
pub open spec fn reaches(episodes: Seq<EpisodeView>, offset: int) -> bool {
    offset <= highest(episodes)
}

/// The first category from the index `from` on that has something to look
/// up: a sequel of its kind among `sequels` and, for seasons, local episodes
/// beyond those of the base series. With it comes that sequel.
pub open spec fn next_category(
    episodes: Seq<CategoryView>,
    base_episodes: u32,
    sequels: Seq<Sequel>,
    from: int,
) -> Option<(int, Sequel)>
    decreases episodes.len() - from,
{
    if from < 0 || from >= episodes.len() {
        None
    } else {
        match first_of_kind(sequels, episodes[from].kind) {
            Some(sequel) if episodes[from].kind != SeriesKind::Season || reaches(
                episodes[from].episodes,
                base_episodes as int,
            ) => Some((from, sequel)),
            _ => next_category(episodes, base_episodes, sequels, from + 1),
        }
    }
}

/// The state `state` moved on to the categories from the index `from` on,
/// and what it asks then.
pub open spec fn moved_on(state: ResolverView, from: int) -> (ResolverView, Request) {
    match next_category(state.episodes, state.base_episodes, state.base_sequels, from) {
        None => (ResolverView { waiting: Waiting::Nothing, ..state }, Request::Done),
        Some((at, sequel)) => (
            ResolverView {
                waiting: if sequel.kind == SeriesKind::Season {
                    Waiting::Season { category: at as usize, offset: state.base_episodes }
                } else {
                    Waiting::Sequel { category: at as usize, kind: sequel.kind }
                },
                ..state
            },
            Request::Lookup { id: sequel.id, delay: true },
        ),
    }
}

/// The state `state` with one more outcome.
pub open spec fn recorded(state: ResolverView, outcome: MergedSeriesView) -> ResolverView {
    ResolverView { results: state.results.push(outcome), ..state }
}

/// The state that follows `state` on the answer `answer` of the catalog,
/// which is `None` where the lookup failed, and what the resolver asks then.
pub open spec fn stepped(state: ResolverView, answer: Option<SeriesInfoView>) -> (
    ResolverView,
    Request,
) {
    match state.waiting {
        Waiting::Nothing => (state, Request::Done),
        Waiting::Base => match answer {
            None => (
                ResolverView { waiting: Waiting::Nothing, failed: true, ..state },
                Request::Done,
            ),
            Some(info) => moved_on(
                ResolverView {
                    base_episodes: info.episodes,
                    base_sequels: info.sequels,
                    ..state
                },
                0,
            ),
        },
        Waiting::Sequel { category, kind } => {
            let outcome = match answer {
                None => MergedSeriesView::Failed(kind),
                Some(info) => MergedSeriesView::Resolved(
                    resolved_series(
                        info,
                        state.base_dir,
                        state.episodes[category as int].episodes,
                        0,
                    ),
                ),
            };
            moved_on(recorded(state, outcome), category + 1)
        },
        Waiting::Season { category, offset } => match answer {
            None => moved_on(
                recorded(state, MergedSeriesView::Failed(SeriesKind::Season)),
                category + 1,
            ),
            Some(info) => {
                let local = state.episodes[category as int].episodes;
                let found = recorded(
                    state,
                    MergedSeriesView::Resolved(
                        resolved_series(info, state.base_dir, local, offset),
                    ),
                );
                match info.direct_sequel() {
                    Some(next) if reaches(local, offset + info.episodes) => (
                        ResolverView {
                            waiting: Waiting::Season {
                                category,
                                offset: (offset + info.episodes) as u32,
                            },
                            ..found
                        },
                        Request::Lookup { id: next.id, delay: true },
                    ),
                    _ => moved_on(found, category + 1),
                }
            },
        },
    }
}

/// Whether `state` waits for something that its episodes allow: a category
/// that exists and, for a season, local episodes beyond its offset.
pub open spec fn sound(state: ResolverView) -> bool {
    &&& state.episodes.len() <= usize::MAX
    &&& match state.waiting {
        Waiting::Sequel { category, kind } => category < state.episodes.len(),
        Waiting::Season { category, offset } => category < state.episodes.len() && reaches(
            state.episodes[category as int].episodes,
            offset as int,
        ),
        _ => true,
    }
}

/// What follows where a category is found to look up next.
pub proof fn lemma_next_category(
    episodes: Seq<CategoryView>,
    base_episodes: u32,
    sequels: Seq<Sequel>,
    from: int,
)
    ensures
        next_category(episodes, base_episodes, sequels, from) matches Some((at, sequel)) ==> {
            &&& 0 <= from <= at < episodes.len()
            &&& first_of_kind(sequels, episodes[at].kind) == Some(sequel)
            &&& sequel.kind == episodes[at].kind
            &&& sequel.kind == SeriesKind::Season ==> reaches(
                episodes[at].episodes,
                base_episodes as int,
            )
        },
    decreases episodes.len() - from,
{
    if 0 <= from < episodes.len() {
        lemma_first_of_kind(sequels, episodes[from].kind);
        lemma_next_category(episodes, base_episodes, sequels, from + 1);
    }
}

/// A step keeps a sound state sound: the resolver never waits for a season
/// that lies beyond the local episodes.
pub proof fn lemma_step_keeps_sound(state: ResolverView, answer: Option<SeriesInfoView>)
    requires
        sound(state),
    ensures
        sound(stepped(state, answer).0),
{
    match state.waiting {
        Waiting::Nothing => {},
        Waiting::Base => {
            if let Some(info) = answer {
                lemma_next_category(state.episodes, info.episodes, info.sequels, 0);
            }
        },
        Waiting::Sequel { category, kind } => {
            lemma_next_category(
                state.episodes,
                state.base_episodes,
                state.base_sequels,
                category + 1,
            );
        },
        Waiting::Season { category, offset } => {
            lemma_next_category(
                state.episodes,
                state.base_episodes,
                state.base_sequels,
                category + 1,
            );
        },
    }
}

/// The outcomes that a step adds in the state `state` on the answer
/// `answer`: one where a sequel was waited for, else none.
pub open spec fn added_by(state: ResolverView, answer: Option<SeriesInfoView>) -> Seq<
    MergedSeriesView,
> {
    match state.waiting {
        Waiting::Sequel { category, kind } => seq![
            match answer {
                None => MergedSeriesView::Failed(kind),
                Some(info) => MergedSeriesView::Resolved(
                    resolved_series(
                        info,
                        state.base_dir,
                        state.episodes[category as int].episodes,
                        0,
                    ),
                ),
            },
        ],
        Waiting::Season { category, offset } => seq![
            match answer {
                None => MergedSeriesView::Failed(SeriesKind::Season),
                Some(info) => MergedSeriesView::Resolved(
                    resolved_series(
                        info,
                        state.base_dir,
                        state.episodes[category as int].episodes,
                        offset,
                    ),
                ),
            },
        ],
        _ => Seq::empty(),
    }
}

/// The outcomes do not steer a resolution. A step adds its outcomes to
/// those that are there, and what it asks next and waits for then is the
/// same whatever they are.
pub proof fn lemma_outcomes_do_not_steer(
    state: ResolverView,
    others: Seq<MergedSeriesView>,
    answer: Option<SeriesInfoView>,
)
    ensures
        stepped(state, answer).0.results == state.results + added_by(state, answer),
        stepped(ResolverView { results: others, ..state }, answer).1 == stepped(state, answer).1,
        stepped(ResolverView { results: others, ..state }, answer).0 == (ResolverView {
            results: others + added_by(state, answer),
            ..stepped(state, answer).0
        }),
{
    assert(state.results + Seq::<MergedSeriesView>::empty() == state.results);
    assert(others + Seq::<MergedSeriesView>::empty() == others);
    assert forall|outcome: MergedSeriesView|
        state.results + seq![outcome] == #[trigger] state.results.push(outcome) by {}
    assert forall|outcome: MergedSeriesView|
        others + seq![outcome] == #[trigger] others.push(outcome) by {}
}

/// A lookup that fails for a sequel that is no season is recorded and costs
/// nothing else: the resolver asks next what it would have asked had the
/// lookup succeeded, and waits for the same.
pub proof fn lemma_failed_lookup_is_local(state: ResolverView, info: SeriesInfoView)
    requires
        state.waiting is Sequel,
    ensures
        stepped(state, None).1 == stepped(state, Some(info)).1,
        stepped(state, None).0.waiting == stepped(state, Some(info)).0.waiting,
        stepped(state, None).0.results == state.results.push(
            MergedSeriesView::Failed(state.waiting->Sequel_kind),
        ),
        stepped(state, None).0 == (ResolverView {
            results: stepped(state, None).0.results,
            ..stepped(state, Some(info)).0
        }),
{
}

/// A lookup that fails within a chain of seasons is recorded and ends the
/// chain: the resolver turns to the next category.
pub proof fn lemma_failed_lookup_ends_chain(state: ResolverView)
    requires
        sound(state),
        state.waiting is Season,
    ensures
        stepped(state, None) == moved_on(
            recorded(state, MergedSeriesView::Failed(SeriesKind::Season)),
            state.waiting->Season_category + 1,
        ),
        stepped(state, None).0.waiting matches Waiting::Season { category, offset }
            ==> category > state.waiting->Season_category,
{
    lemma_next_category(
        state.episodes,
        state.base_episodes,
        state.base_sequels,
        state.waiting->Season_category + 1,
    );
}

/// In a chain of seasons each season is parted at the offset that the
/// resolver waited with, and the next is asked for, at that offset and the
/// episodes of this season, only where this season has a next one and the
/// local episodes go that far.
pub proof fn lemma_chain_counts_on(state: ResolverView, info: SeriesInfoView)
    requires
        sound(state),
        state.waiting is Season,
    ensures
        ({
            let category = state.waiting->Season_category;
            let offset = state.waiting->Season_offset;
            let local = state.episodes[category as int].episodes;
            let next = stepped(state, Some(info));
            &&& next.0.results == state.results.push(
                MergedSeriesView::Resolved(resolved_series(info, state.base_dir, local, offset)),
            )
            &&& if info.direct_sequel() is Some && offset + info.episodes <= highest(local) {
                &&& next.0.waiting == (Waiting::Season {
                    category,
                    offset: (offset + info.episodes) as u32,
                })
                &&& next.1 == (Request::Lookup { id: info.direct_sequel()->0.id, delay: true })
            } else {
                next.0.waiting matches Waiting::Season { category: later, offset: _ } ==> later
                    > category
            }
        }),
{
    lemma_next_category(
        state.episodes,
        state.base_episodes,
        state.base_sequels,
        state.waiting->Season_category + 1,
    );
}

/// The state that `state` comes to by the answers `answers`, taken in
/// their order.
pub open spec fn run(state: ResolverView, answers: Seq<Option<SeriesInfoView>>) -> ResolverView
    decreases answers.len(),
{
    if answers.len() == 0 {
        state
    } else {
        run(stepped(state, answers[0]).0, answers.drop_first())
    }
}

/// However the catalog answers, a resolution that begins in a sound state
/// stays sound: at no time does it wait for a season beyond the local
/// episodes.
pub proof fn lemma_run_keeps_sound(state: ResolverView, answers: Seq<Option<SeriesInfoView>>)
    requires
        sound(state),
    ensures
        sound(run(state, answers)),
    decreases answers.len(),
{
    if answers.len() > 0 {
        lemma_step_keeps_sound(state, answers[0]);
        lemma_run_keeps_sound(stepped(state, answers[0]).0, answers.drop_first());
    }
}

/// Two resolutions that differ in the outcomes recorded so far, and in
/// nothing else, go the same way on the same answers: they wait for the
/// same in the end, and each adds the same outcomes to its own.
pub proof fn lemma_run_adds_the_same(
    state: ResolverView,
    others: Seq<MergedSeriesView>,
    answers: Seq<Option<SeriesInfoView>>,
)
    ensures
        ({
            let one = run(state, answers);
            let other = run(ResolverView { results: others, ..state }, answers);
            &&& other == (ResolverView { results: other.results, ..one })
            &&& state.results.len() <= one.results.len()
            &&& one.results.subrange(0, state.results.len() as int) == state.results
            &&& other.results == others + one.results.subrange(
                state.results.len() as int,
                one.results.len() as int,
            )
        }),
    decreases answers.len(),
{
    let twin = ResolverView { results: others, ..state };
    if answers.len() == 0 {
        assert(state.results.subrange(0, state.results.len() as int) == state.results);
        assert(others + state.results.subrange(
            state.results.len() as int,
            state.results.len() as int,
        ) == others);
    } else {
        let added = added_by(state, answers[0]);
        let next = stepped(state, answers[0]).0;
        let rest = answers.drop_first();
        lemma_outcomes_do_not_steer(state, others, answers[0]);
        lemma_run_adds_the_same(next, others + added, rest);
        lemma_run_adds_the_same(next, state.results, rest);
        let one = run(next, rest);
        let other = run(ResolverView { results: others + added, ..next }, rest);
        assert(stepped(twin, answers[0]).0 == (ResolverView { results: others + added, ..next }));
        assert(next.results == state.results + added);
        let tail = one.results.subrange(next.results.len() as int, one.results.len() as int);
        assert(one.results.subrange(0, next.results.len() as int) == next.results);
        assert(one.results.subrange(0, state.results.len() as int) == state.results) by {
            assert(one.results.subrange(0, state.results.len() as int)
                == one.results.subrange(0, next.results.len() as int).subrange(
                0,
                state.results.len() as int,
            ));
            assert(next.results.subrange(0, state.results.len() as int) == state.results);
        }
        assert(one.results.subrange(state.results.len() as int, one.results.len() as int)
            == added + tail) by {
            assert(one.results == next.results + tail);
        }
        assert(others + added + tail == others + (added + tail));
    }
}

/// A failed lookup for a sequel that is no season costs that sequel and
/// nothing else, to the end of the resolution. Whatever the catalog answers
/// afterwards, the resolution ends as it would have ended had the lookup
/// succeeded, but for the one outcome, which says that the lookup failed.
pub proof fn lemma_failed_lookup_costs_one_outcome(
    state: ResolverView,
    info: SeriesInfoView,
    answers: Seq<Option<SeriesInfoView>>,
)
    requires
        state.waiting is Sequel,
    ensures
        ({
            let failed = run(stepped(state, None).0, answers);
            let found = run(stepped(state, Some(info)).0, answers);
            let at = state.results.len() as int;
            &&& failed == (ResolverView { results: failed.results, ..found })
            &&& failed.results.len() == found.results.len() > at
            &&& failed.results[at] == MergedSeriesView::Failed(state.waiting->Sequel_kind)
            &&& found.results[at] is Resolved
            &&& forall|k: int|
                0 <= k < found.results.len() && k != at ==> failed.results[k] == found.results[k]
        }),
{
    let missed = stepped(state, None).0;
    let met = stepped(state, Some(info)).0;
    lemma_failed_lookup_is_local(state, info);
    lemma_run_adds_the_same(met, missed.results, answers);
    assert(missed == (ResolverView { results: missed.results, ..met }));
    let failed = run(missed, answers);
    let found = run(met, answers);
    let at = state.results.len() as int;
    assert(met.results[at] is Resolved);
    assert(found.results.subrange(0, met.results.len() as int)[at] == found.results[at]);
    assert forall|k: int| 0 <= k < found.results.len() && k != at implies failed.results[k]
        == found.results[k] by {
        if k < at {
            assert(found.results.subrange(0, met.results.len() as int)[k] == found.results[k]);
        }
    }
}

} // verus!
