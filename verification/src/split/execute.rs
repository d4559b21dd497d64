//! Making the links of resolved series.
//!
//! Only the caller can touch the file system. A `Splitter` therefore works
//! in steps: it names one operation, takes the word of how it went, and
//! names the next, until all links are made or one operation has failed.

use crate::split::resolve::{MergedSeries, MergedSeriesView, ResolvedSeries, ResolvedSeriesView};
use vstd::prelude::*;

verus! {

/// One operation on the file system.
#[derive(Debug, PartialEq, Eq)]
pub enum FsOperation {
    /// To make sure that the directory `path` is there, by creating it and
    /// all that leads to it where it is not.
    EnsureDir { path: String },
    /// To link the file `from_name` of the directory `from_dir` under the
    /// name `to_name` in the directory `to_dir`.
    Link { from_dir: String, from_name: String, to_dir: String, to_name: String },
}

/// An `FsOperation` with its texts as sequences of characters.
pub ghost enum FsOperationView {
    EnsureDir { path: Seq<char> },
    Link { from_dir: Seq<char>, from_name: Seq<char>, to_dir: Seq<char>, to_name: Seq<char> },
}

impl View for FsOperation {
    type V = FsOperationView;

    open spec fn view(&self) -> FsOperationView {
        match *self {
            FsOperation::EnsureDir { path } => FsOperationView::EnsureDir { path: path@ },
            FsOperation::Link { from_dir, from_name, to_dir, to_name } => FsOperationView::Link {
                from_dir: from_dir@,
                from_name: from_name@,
                to_dir: to_dir@,
                to_name: to_name@,
            },
        }
    }
}

/// What a splitter asks of its caller.
#[derive(Debug, PartialEq, Eq)]
pub enum FsRequest {
    /// To perform the operation and to hand the word of how it went to
    /// `step`.
    Perform(FsOperation),
    /// Nothing more: every link is there.
    Succeeded,
    /// Nothing more: the operation failed, and what came after it was not
    /// tried.
    Failed(FsOperation),
}

/// An `FsRequest` with its texts as sequences of characters.
pub ghost enum FsRequestView {
    Perform(FsOperationView),
    Succeeded,
    Failed(FsOperationView),
}

impl View for FsRequest {
    type V = FsRequestView;

    open spec fn view(&self) -> FsRequestView {
        match *self {
            FsRequest::Perform(operation) => FsRequestView::Perform(operation@),
            FsRequest::Succeeded => FsRequestView::Succeeded,
            FsRequest::Failed(operation) => FsRequestView::Failed(operation@),
        }
    }
}

/// How an operation went.
#[derive(Clone, Copy, Debug, PartialEq, Eq, Structural)]
pub enum FsAnswer {
    /// It was done.
    Done,
    /// It was not done, because what it was to create is there already.
    AlreadyExists,
    /// It was not done, for any other reason.
    Failed,
}

/// The operations that one series takes, in their order: its two directories
/// and then its links.
#[derive(Clone, Copy, Debug, PartialEq, Eq, Structural)]
pub enum Step {
    BaseDir,
    OutDir,
    Link(usize),
}

/// How far a splitter has come.
#[derive(Clone, Copy, Debug, PartialEq, Eq, Structural)]
pub enum Progress {
    /// The operation `step` of the series at the index `series` is to be
    /// performed.
    Running { series: usize, step: Step },
    /// Every link is there.
    Succeeded,
    /// The operation `step` of the series at the index `series` failed.
    Failed { series: usize, step: Step },
}

/// Whether there is something to do for `outcome`: it is a resolved series
/// with at least one link.
pub open spec fn has_work(outcome: MergedSeriesView) -> bool {
    outcome matches MergedSeriesView::Resolved(series) && series.actions.len() > 0
}

/// The index of the first of `merged` from the index `from` on for which
/// there is something to do.
pub open spec fn next_work(merged: Seq<MergedSeriesView>, from: int) -> Option<int>
    decreases merged.len() - from,
{
    if from < 0 || from >= merged.len() {
        None
    } else if has_work(merged[from]) {
        Some(from)
    } else {
        next_work(merged, from + 1)
    }
}

/// Where a splitter stands when it turns to the series from the index `from`
/// on.
pub open spec fn begun(merged: Seq<MergedSeriesView>, from: int) -> Progress {
    match next_work(merged, from) {
        Some(series) => Progress::Running { series: series as usize, step: Step::BaseDir },
        None => Progress::Succeeded,
    }
}

/// Whether the series of `merged` and the links of each can be counted in
/// a machine word.
pub open spec fn countable(merged: Seq<MergedSeriesView>) -> bool {
    &&& merged.len() <= usize::MAX
    &&& forall|i: int|
        0 <= i < merged.len() && (#[trigger] merged[i]) is Resolved
            ==> merged[i]->Resolved_0.actions.len() <= usize::MAX
}

/// Whether `progress` points at an operation that `merged` holds.
pub open spec fn on_track(merged: Seq<MergedSeriesView>, progress: Progress) -> bool {
    &&& countable(merged)
    &&& match progress {
        Progress::Succeeded => true,
        Progress::Running { series, step } | Progress::Failed { series, step } => {
            &&& series < merged.len()
            &&& has_work(merged[series as int])
            &&& step matches Step::Link(action) ==> action < merged[series as int]->Resolved_0.actions.len()
        },
    }
}

/// The operation `step` of the series `series`.
pub open spec fn operation_of(series: ResolvedSeriesView, step: Step) -> FsOperationView {
    match step {
        Step::BaseDir => FsOperationView::EnsureDir { path: series.base_dir },
        Step::OutDir => FsOperationView::EnsureDir { path: series.out_dir },
        Step::Link(action) => FsOperationView::Link {
            from_dir: series.base_dir,
            from_name: series.actions[action as int].old_name,
            to_dir: series.out_dir,
            to_name: series.actions[action as int].new_name,
        },
    }
}

/// What a splitter asks at `progress`.
pub open spec fn request_at(merged: Seq<MergedSeriesView>, progress: Progress) -> FsRequestView {
    match progress {
        Progress::Succeeded => FsRequestView::Succeeded,
        Progress::Running { series, step } => FsRequestView::Perform(
            operation_of(merged[series as int]->Resolved_0, step),
        ),
        Progress::Failed { series, step } => FsRequestView::Failed(
            operation_of(merged[series as int]->Resolved_0, step),
        ),
    }
}

/// Where a splitter stands after the operation at `progress` went as
/// `answer` says. An operation that found its work done counts as done; any
/// other failure ends the run.
pub open spec fn advanced(
    merged: Seq<MergedSeriesView>,
    progress: Progress,
    answer: FsAnswer,
) -> Progress {
    match progress {
        Progress::Running { series, step } => if answer == FsAnswer::Failed {
            Progress::Failed { series, step }
        } else {
            match step {
                Step::BaseDir => Progress::Running { series, step: Step::OutDir },
                Step::OutDir => Progress::Running { series, step: Step::Link(0) },
                Step::Link(action) => if action + 1
                    < merged[series as int]->Resolved_0.actions.len() {
                    Progress::Running { series, step: Step::Link((action + 1) as usize) }
                } else {
                    begun(merged, series + 1)
                },
            }
        },
        _ => progress,
    }
}

/// The making of the links of some resolved series, one operation at a time.
pub struct Splitter {
    merged: Vec<MergedSeries>,
    progress: Progress,
}

/// A `Splitter` with its series viewed.
pub ghost struct SplitterView {
    /// The outcomes of a resolution, of which the resolved series are split.
    pub merged: Seq<MergedSeriesView>,
    /// How far the splitter has come.
    pub progress: Progress,
}

impl View for Splitter {
    type V = SplitterView;

    closed spec fn view(&self) -> SplitterView {
        SplitterView { merged: self.merged.deep_view(), progress: self.progress }
    }
}

impl SplitterView {
    /// What the splitter asks.
    pub open spec fn request(self) -> FsRequestView {
        request_at(self.merged, self.progress)
    }

    /// The splitter after the operation that it asked for went as `answer`
    /// says.
    pub open spec fn step(self, answer: FsAnswer) -> SplitterView {
        SplitterView { merged: self.merged, progress: advanced(self.merged, self.progress, answer) }
    }
}

impl Splitter {
    #[verifier::type_invariant]
    spec fn ready(self) -> bool {
        on_track(self.merged.deep_view(), self.progress)
    }

    /// The index of the first series from `from` on for which there is
    /// something to do.
    fn next_work(merged: &Vec<MergedSeries>, from: usize) -> (r: Option<usize>)
        requires
            from <= merged.len(),
        ensures
            match r {
                Some(series) => next_work(merged.deep_view(), from as int) == Some(series as int),
                None => next_work(merged.deep_view(), from as int) is None,
            },
    {
        let n = merged.len();
        let mut at: usize = from;
        while at < n
            invariant
                n == merged.len(),
                from <= at <= n,
                next_work(merged.deep_view(), from as int) == next_work(
                    merged.deep_view(),
                    at as int,
                ),
            decreases n - at,
        {
            assert(merged.deep_view()[at as int] == merged[at as int]@);
            match &merged[at] {
                MergedSeries::Resolved(series) => {
                    if series.actions.len() > 0 {
                        return Some(at);
                    }
                },
                MergedSeries::Failed(_) => {},
            }
            at += 1;
        }
        None
    }

    /// Where a splitter stands when it turns to the series from `from` on.
    fn begin(merged: &Vec<MergedSeries>, from: usize) -> (r: Progress)
        requires
            from <= merged.len(),
        ensures
            r == begun(merged.deep_view(), from as int),
            on_track(merged.deep_view(), r),
    {
        proof {
            lemma_next_work(merged.deep_view(), from as int);
            lemma_vectors_countable(merged);
        }
        match Splitter::next_work(merged, from) {
            Some(series) => Progress::Running { series, step: Step::BaseDir },
            None => Progress::Succeeded,
        }
    }

    /// The operation `step` of `series`.
    fn operation(series: &ResolvedSeries, step: Step) -> (r: FsOperation)
        requires
            step matches Step::Link(action) ==> action < series@.actions.len(),
        ensures
            r@ == operation_of(series@, step),
    {
        match step {
            Step::BaseDir => FsOperation::EnsureDir { path: series.base_dir.clone() },
            Step::OutDir => FsOperation::EnsureDir { path: series.out_dir.clone() },
            Step::Link(action) => {
                assert(series@.actions[action as int] == series.actions[action as int]@);
                FsOperation::Link {
                    from_dir: series.base_dir.clone(),
                    from_name: series.actions[action].old_name.clone(),
                    to_dir: series.out_dir.clone(),
                    to_name: series.actions[action].new_name.clone(),
                }
            },
        }
    }

    /// The operation `step` of the series at the index `series`.
    fn operation_at(&self, series: usize, step: Step) -> (r: FsOperation)
        requires
            self@.progress matches Progress::Running { series: s, step: t } ==> s == series && t
                == step,
            self@.progress matches Progress::Failed { series: s, step: t } ==> s == series && t
                == step,
            self@.progress !is Succeeded,
        ensures
            r@ == operation_of(self@.merged[series as int]->Resolved_0, step),
    {
        proof {
            use_type_invariant(self);
        }
        assert(self.merged.deep_view()[series as int] == self.merged[series as int]@);
        match &self.merged[series] {
            MergedSeries::Resolved(resolved) => Splitter::operation(resolved, step),
            MergedSeries::Failed(_) => vstd::pervasive::unreached(),
        }
    }

    /// What the splitter asks.
    pub fn request(&self) -> (r: FsRequest)
        ensures
            r@ == self@.request(),
    {
        match self.progress {
            Progress::Succeeded => FsRequest::Succeeded,
            Progress::Running { series, step } => FsRequest::Perform(
                self.operation_at(series, step),
            ),
            Progress::Failed { series, step } => FsRequest::Failed(self.operation_at(series, step)),
        }
    }

    /// How far the splitter has come.
    pub fn progress(&self) -> (r: Progress)
        ensures
            r == self@.progress,
            on_track(self@.merged, r),
    {
        proof {
            use_type_invariant(self);
        }
        self.progress
    }

    /// A splitter for the resolved series among `merged`, in their order,
    /// and what it asks first.
    pub fn new(merged: Vec<MergedSeries>) -> (r: (Splitter, FsRequest))
        ensures
            r.0@ == (SplitterView {
                merged: merged.deep_view(),
                progress: begun(merged.deep_view(), 0),
            }),
            r.1@ == r.0@.request(),
    {
        let progress = Splitter::begin(&merged, 0);
        let splitter = Splitter { merged, progress };
        let request = splitter.request();
        (splitter, request)
    }

    /// Takes the word of how the operation that was asked for went, and
    /// says what to do next.
    pub fn step(self, answer: FsAnswer) -> (r: (Splitter, FsRequest))
        ensures
            r.0@ == self@.step(answer),
            r.1@ == r.0@.request(),
    {
        proof {
            use_type_invariant(&self);
            lemma_advanced_on_track(self@.merged, self@.progress, answer);
        }
        let Splitter { merged, progress } = self;
        let next = match progress {
            Progress::Running { series, step } => {
                assert(merged.deep_view()[series as int] == merged[series as int]@);
                match answer {
                    FsAnswer::Failed => Progress::Failed { series, step },
                    _ => match step {
                        Step::BaseDir => Progress::Running { series, step: Step::OutDir },
                        Step::OutDir => Progress::Running { series, step: Step::Link(0) },
                        Step::Link(action) => {
                            let count = match &merged[series] {
                                MergedSeries::Resolved(resolved) => resolved.actions.len(),
                                MergedSeries::Failed(_) => 0,
                            };
                            if action + 1 < count {
                                Progress::Running { series, step: Step::Link(action + 1) }
                            } else {
                                Splitter::begin(&merged, series + 1)
                            }
                        },
                    },
                }
            },
            other => other,
        };
        let splitter = Splitter { merged, progress: next };
        let request = splitter.request();
        (splitter, request)
    }

    /// Gives the series back.
    pub fn into_merged(self) -> (r: Vec<MergedSeries>)
        ensures
            r.deep_view() == self@.merged,
    {
        self.merged
    }
}

impl MergedSeries {
    /// Begins to make the links of the resolved series among `merged`.
    /// Outcomes without a series and series without a link take no
    /// operation.
    pub fn split_all(merged: Vec<MergedSeries>) -> (r: (Splitter, FsRequest))
        ensures
            r.0@ == (SplitterView {
                merged: merged.deep_view(),
                progress: begun(merged.deep_view(), 0),
            }),
            r.1@ == r.0@.request(),
    {
        Splitter::new(merged)
    }
}

impl ResolvedSeries {
    /// Begins to make the links of this series. A series without a link
    /// takes no operation.
    pub fn perform_split_actions(self) -> (r: (Splitter, FsRequest))
        ensures
            r.0@ == (SplitterView {
                merged: seq![MergedSeriesView::Resolved(self@)],
                progress: begun(seq![MergedSeriesView::Resolved(self@)], 0),
            }),
            r.1@ == r.0@.request(),
    {
        let mut merged: Vec<MergedSeries> = Vec::new();
        let outcome = MergedSeries::resolved(self);
        merged.push(outcome);
        assert(merged.deep_view() == seq![MergedSeriesView::Resolved(self@)]);
        Splitter::new(merged)
    }
}

/// What a vector holds can be counted.
pub proof fn lemma_vectors_countable(merged: &Vec<MergedSeries>)
    ensures
        countable(merged.deep_view()),
{
    assert(merged.deep_view().len() == merged.len());
    assert forall|i: int|
        0 <= i < merged.deep_view().len() && (#[trigger] merged.deep_view()[i]) is Resolved implies merged.deep_view()[i]->Resolved_0.actions.len()
        <= usize::MAX by {
        let outcome = merged@[i];
        assert(merged.deep_view()[i] == outcome@);
        if let MergedSeries::Resolved(series) = outcome {
            assert(series@.actions.len() == series.actions.len());
        }
    }
}

/// Where work is found from an index on, it is found at or after it, at a
/// series for which there is something to do.
pub proof fn lemma_next_work(merged: Seq<MergedSeriesView>, from: int)
    ensures
        match next_work(merged, from) {
            Some(series) => 0 <= from <= series < merged.len() && has_work(merged[series])
                && forall|i: int| from <= i < series ==> !has_work(merged[i]),
            None => forall|i: int| 0 <= from <= i < merged.len() ==> !has_work(merged[i]),
        },
    decreases merged.len() - from,
{
    if 0 <= from < merged.len() && !has_work(merged[from]) {
        lemma_next_work(merged, from + 1);
    }
}

/// A splitter that is on track stays on track.
pub proof fn lemma_advanced_on_track(
    merged: Seq<MergedSeriesView>,
    progress: Progress,
    answer: FsAnswer,
)
    requires
        on_track(merged, progress),
    ensures
        on_track(merged, advanced(merged, progress, answer)),
{
    if let Progress::Running { series, step } = progress {
        lemma_next_work(merged, series + 1);
    }
}

/// Whether `merged` holds a link at the index `action` of a resolved series
/// at the index `series`.
pub open spec fn is_link(merged: Seq<MergedSeriesView>, series: int, action: int) -> bool {
    &&& 0 <= series < merged.len()
    &&& merged[series] is Resolved
    &&& 0 <= action < merged[series]->Resolved_0.actions.len()
}

/// The place that the link at the index `action` of the series at the index
/// `series` takes: a directory and a name in it.
pub open spec fn target_of(merged: Seq<MergedSeriesView>, series: int, action: int) -> (
    Seq<char>,
    Seq<char>,
) {
    (merged[series]->Resolved_0.out_dir, merged[series]->Resolved_0.actions[action].new_name)
}

/// The places that the links of `merged` take.
pub open spec fn targets(merged: Seq<MergedSeriesView>) -> Set<(Seq<char>, Seq<char>)> {
    Set::new(
        |place: (Seq<char>, Seq<char>)|
            exists|series: int, action: int|
                is_link(merged, series, action) && place == #[trigger] target_of(
                    merged,
                    series,
                    action,
                ),
    )
}

/// What a file system without faults makes of `operation`, where `links`
/// are the places that links take already: a directory can always be had,
/// and a link is made unless its place is taken.
pub open spec fn performed(links: Set<(Seq<char>, Seq<char>)>, operation: FsOperationView) -> (
    Set<(Seq<char>, Seq<char>)>,
    FsAnswer,
) {
    match operation {
        FsOperationView::EnsureDir { path } => (links, FsAnswer::Done),
        FsOperationView::Link { from_dir, from_name, to_dir, to_name } => if links.contains(
            (to_dir, to_name),
        ) {
            (links, FsAnswer::AlreadyExists)
        } else {
            (links.insert((to_dir, to_name)), FsAnswer::Done)
        },
    }
}

/// How many series a splitter at `progress` has not done with.
pub open spec fn series_left(merged: Seq<MergedSeriesView>, progress: Progress) -> nat {
    match progress {
        Progress::Running { series, step } => (merged.len() - series) as nat,
        _ => 0,
    }
}

/// How many operations of its series a splitter at `progress` has not done.
pub open spec fn steps_left(merged: Seq<MergedSeriesView>, progress: Progress) -> nat {
    match progress {
        Progress::Running { series, step } => {
            let links = merged[series as int]->Resolved_0.actions.len();
            match step {
                Step::BaseDir => links + 2,
                Step::OutDir => links + 1,
                Step::Link(action) => (links - action) as nat,
            }
        },
        _ => 0,
    }
}

/// Where a splitter at `progress` ends on a file system without faults on
/// which `links` are the places taken, and the places taken then.
pub open spec fn run(
    merged: Seq<MergedSeriesView>,
    progress: Progress,
    links: Set<(Seq<char>, Seq<char>)>,
) -> (Progress, Set<(Seq<char>, Seq<char>)>)
    decreases series_left(merged, progress), steps_left(merged, progress),
    when on_track(merged, progress)
{
    match progress {
        Progress::Running { series, step } => {
            let done = performed(links, operation_of(merged[series as int]->Resolved_0, step));
            proof {
                lemma_next_work(merged, series + 1);
            }
            run(merged, advanced(merged, progress, done.1), done.0)
        },
        _ => (progress, links),
    }
}

/// Whether the link at the index `action` of the series at the index
/// `series` is still to be made at `progress`.
pub open spec fn pending(progress: Progress, series: int, action: int) -> bool {
    match progress {
        Progress::Running { series: current, step } => series > current || (series == current && (
        step matches Step::Link(next) ==> action >= next)),
        _ => false,
    }
}

/// The places of the links that are still to be made at `progress`.
pub open spec fn targets_left(merged: Seq<MergedSeriesView>, progress: Progress) -> Set<
    (Seq<char>, Seq<char>),
> {
    Set::new(
        |place: (Seq<char>, Seq<char>)|
            exists|series: int, action: int|
                is_link(merged, series, action) && pending(progress, series, action) && place
                    == #[trigger] target_of(merged, series, action),
    )
}

/// On a file system without faults a splitter that has not failed comes to
/// a good end, and what it adds to the places taken are the places of the
/// links that were still to be made.
pub proof fn lemma_run(
    merged: Seq<MergedSeriesView>,
    progress: Progress,
    links: Set<(Seq<char>, Seq<char>)>,
)
    requires
        on_track(merged, progress),
        progress !is Failed,
    ensures
        run(merged, progress, links).0 == Progress::Succeeded,
        run(merged, progress, links).1 == links.union(targets_left(merged, progress)),
    decreases series_left(merged, progress), steps_left(merged, progress),
{
    match progress {
        Progress::Running { series, step } => {
            let resolved = merged[series as int]->Resolved_0;
            let done = performed(links, operation_of(resolved, step));
            let next = advanced(merged, progress, done.1);
            lemma_next_work(merged, series + 1);
            lemma_run(merged, next, done.0);
            let here = links.union(targets_left(merged, progress));
            let there = done.0.union(targets_left(merged, next));
            assert forall|place: (Seq<char>, Seq<char>)| here.contains(place) implies there.contains(
                place,
            ) by {
                if !links.contains(place) {
                    let (i, k) = choose|i: int, k: int|
                        is_link(merged, i, k) && pending(progress, i, k) && place
                            == #[trigger] target_of(merged, i, k);
                    if pending(next, i, k) {
                        assert(targets_left(merged, next).contains(target_of(merged, i, k)));
                    } else {
                        assert(i == series);
                        assert(step == Step::Link(k as usize));
                    }
                }
            }
            assert forall|place: (Seq<char>, Seq<char>)| there.contains(place) implies here.contains(
                place,
            ) by {
                if targets_left(merged, next).contains(place) {
                    let (i, k) = choose|i: int, k: int|
                        is_link(merged, i, k) && pending(next, i, k) && place
                            == #[trigger] target_of(merged, i, k);
                    assert(pending(progress, i, k));
                    assert(targets_left(merged, progress).contains(target_of(merged, i, k)));
                } else if !links.contains(place) {
                    if let Step::Link(k) = step {
                        assert(is_link(merged, series as int, k as int));
                        assert(place == target_of(merged, series as int, k as int));
                        assert(targets_left(merged, progress).contains(
                            target_of(merged, series as int, k as int),
                        ));
                    }
                }
            }
            assert(here =~= there);
        },
        _ => {
            assert(targets_left(merged, progress) =~= Set::<(Seq<char>, Seq<char>)>::empty());
            assert(links.union(Set::<(Seq<char>, Seq<char>)>::empty()) =~= links);
        },
    }
}

/// Before a splitter has begun, all links of its series are still to be
/// made.
pub proof fn lemma_all_targets_left(merged: Seq<MergedSeriesView>)
    ensures
        targets_left(merged, begun(merged, 0)) == targets(merged),
{
    lemma_next_work(merged, 0);
    let progress = begun(merged, 0);
    assert forall|place: (Seq<char>, Seq<char>)| targets(merged).contains(
        place,
    ) implies targets_left(merged, progress).contains(place) by {
        let (i, k) = choose|i: int, k: int|
            is_link(merged, i, k) && place == #[trigger] target_of(merged, i, k);
        assert(has_work(merged[i]));
        assert(pending(progress, i, k));
        assert(targets_left(merged, progress).contains(target_of(merged, i, k)));
    }
    assert forall|place: (Seq<char>, Seq<char>)| targets_left(merged, progress).contains(
        place,
    ) implies targets(merged).contains(place) by {
        let (i, k) = choose|i: int, k: int|
            is_link(merged, i, k) && pending(progress, i, k) && place == #[trigger] target_of(
                merged,
                i,
                k,
            );
        assert(targets(merged).contains(target_of(merged, i, k)));
    }
    assert(targets_left(merged, progress) =~= targets(merged));
}

/// Splitting can be repeated. On a file system without faults the first run
/// comes to a good end and leaves the places of all links taken; a second
/// run, which finds every place taken, comes to a good end as well and
/// changes nothing.
pub proof fn lemma_split_twice(merged: Seq<MergedSeriesView>, links: Set<(Seq<char>, Seq<char>)>)
    requires
        countable(merged),
    ensures
        ({
            let first = run(merged, begun(merged, 0), links);
            let second = run(merged, begun(merged, 0), first.1);
            &&& first.0 == Progress::Succeeded
            &&& first.1 == links.union(targets(merged))
            &&& second.0 == Progress::Succeeded
            &&& second.1 == first.1
        }),
{
    lemma_next_work(merged, 0);
    lemma_all_targets_left(merged);
    lemma_run(merged, begun(merged, 0), links);
    let first = run(merged, begun(merged, 0), links);
    lemma_run(merged, begun(merged, 0), first.1);
    assert(first.1.union(targets(merged)) =~= first.1);
}

/// A place that is taken is no failure: the splitter goes on as if it had
/// made the link itself.
pub proof fn lemma_taken_place_counts_as_done(merged: Seq<MergedSeriesView>, progress: Progress)
    ensures
        advanced(merged, progress, FsAnswer::AlreadyExists) == advanced(
            merged,
            progress,
            FsAnswer::Done,
        ),
{
}

/// After a failure nothing more is tried: whatever is answered then, the
/// splitter stays where it failed.
pub proof fn lemma_failure_is_final(
    merged: Seq<MergedSeriesView>,
    progress: Progress,
    answer: FsAnswer,
)
    requires
        progress is Running,
    ensures
        advanced(merged, progress, FsAnswer::Failed) is Failed,
        request_at(merged, advanced(merged, progress, FsAnswer::Failed)) == FsRequestView::Failed(
            request_at(merged, progress)->Perform_0,
        ),
        advanced(merged, advanced(merged, progress, FsAnswer::Failed), answer) == advanced(
            merged,
            progress,
            FsAnswer::Failed,
        ),
{
}

} // verus!
