use anup::local::episode::Episode;
use anup::local::sorted::{CategorizedEpisodes, SortedEpisodes};
use anup::remote::{Sequel, SeriesInfo, SeriesKind, SeriesTitle};
use anup::split::action::{calculate_season_offset, SplitAction};
use anup::split::execute::{FsAnswer, FsOperation, FsRequest, Progress, Step};
use anup::split::resolve::{
    MergedSeries, Request, ResolveError, ResolvedSeries, Resolver, Waiting, LOOKUP_DELAY_MS,
};
use std::collections::BTreeSet;

fn episode(num: u32, filename: &str) -> Episode {
    Episode { name: "Base".to_string(), num, filename: filename.to_string() }
}

fn numbered(numbers: std::ops::RangeInclusive<u32>) -> SortedEpisodes {
    SortedEpisodes::from_episodes(
        numbers.map(|num| episode(num, &format!("ep{}.mkv", num))).collect(),
    )
}

fn info(id: u32, title: &str, episodes: u32, sequels: Vec<Sequel>) -> SeriesInfo {
    SeriesInfo {
        id,
        title: SeriesTitle { romaji: format!("{} (romaji)", title), preferred: title.to_string() },
        episodes,
        episode_length: 24,
        kind: SeriesKind::Season,
        sequels,
    }
}

fn season(id: u32) -> Sequel {
    Sequel { kind: SeriesKind::Season, id }
}

fn movie(id: u32) -> Sequel {
    Sequel { kind: SeriesKind::Movie, id }
}

fn action(old_name: &str, new_name: &str) -> SplitAction {
    SplitAction { old_name: old_name.to_string(), new_name: new_name.to_string() }
}

/// The catalog of the tests: the series that it knows, by their numbers.
fn catalog(id: u32) -> Option<SeriesInfo> {
    match id {
        1 => Some(info(1, "Base", 12, vec![movie(50), season(2)])),
        2 => Some(info(2, "Second", 13, vec![season(3)])),
        3 => Some(info(3, "Third", 11, vec![])),
        60 => Some(info(60, "Alone", 12, vec![])),
        70 => Some(info(70, "Endless", 0, vec![season(70)])),
        _ => None,
    }
}

/// Runs a resolution against the catalog of the tests and notes each lookup.
fn resolve(
    episodes: CategorizedEpisodes,
    base_id: u32,
) -> (Result<Vec<MergedSeries>, ResolveError>, Vec<(u32, bool)>) {
    let (mut resolver, mut request) = Resolver::new(episodes, "base".to_string(), base_id);
    let mut lookups = Vec::new();
    while let Request::Lookup { id, delay } = request {
        assert!(lookups.len() < 100);
        lookups.push((id, delay));
        (resolver, request) = resolver.step(catalog(id));
    }
    assert_eq!(resolver.waiting(), Waiting::Nothing);
    (resolver.finish(), lookups)
}

fn categorized(kind: SeriesKind, numbers: std::ops::RangeInclusive<u32>) -> CategorizedEpisodes {
    let mut all = CategorizedEpisodes::new();
    for num in numbers {
        all.add(kind, episode(num, &format!("ep{}.mkv", num)));
    }
    all
}

#[test]
fn actions_for_the_episodes_of_a_season() {
    let mut local = SortedEpisodes::new();
    local.insert(episode(13, "ep13.mkv"));
    local.insert(episode(14, "ep14.mkv"));
    let season = info(2, "Title", 13, vec![]);
    assert_eq!(
        SplitAction::from_merged_seasons(&season, &local, 12),
        vec![action("ep13.mkv", "Title - 01.mkv"), action("ep14.mkv", "Title - 02.mkv")]
    );
}

#[test]
fn actions_leave_out_what_is_not_of_the_season() {
    let local = numbered(1..=30);
    let season = info(2, "Second Season", 13, vec![]);
    let actions = SplitAction::from_merged_seasons(&season, &local, 12);
    assert_eq!(actions.len(), 13);
    assert_eq!(actions[0], action("ep13.mkv", "Second Season - 01.mkv"));
    assert_eq!(actions[9], action("ep22.mkv", "Second Season - 10.mkv"));
    assert_eq!(actions[12], action("ep25.mkv", "Second Season - 13.mkv"));
}

#[test]
fn actions_for_a_season_that_is_not_there() {
    let local = numbered(1..=12);
    let season = info(2, "Second", 13, vec![]);
    assert_eq!(SplitAction::from_merged_seasons(&season, &local, 12), vec![]);
    assert_eq!(SplitAction::from_merged_seasons(&season, &SortedEpisodes::new(), 0), vec![]);
    let none = info(2, "Second", 0, vec![]);
    assert_eq!(SplitAction::from_merged_seasons(&none, &local, 3), vec![]);
}

#[test]
fn actions_at_the_end_of_the_numbers() {
    let mut local = SortedEpisodes::new();
    local.insert(episode(4294967295, "last.mkv"));
    local.insert(episode(4294967294, "before.mkv"));
    let season = info(2, "S", 4294967295, vec![]);
    assert_eq!(
        SplitAction::from_merged_seasons(&season, &local, 4294967294),
        vec![action("last.mkv", "S - 01.mkv")]
    );
    assert_eq!(
        SplitAction::from_merged_seasons(&season, &local, 0),
        vec![
            action("before.mkv", "S - 4294967294.mkv"),
            action("last.mkv", "S - 4294967295.mkv")
        ]
    );
}

#[test]
fn names_in_a_season() {
    assert_eq!(SplitAction::file_name("Title", 1, "ep13.mkv"), "Title - 01.mkv");
    assert_eq!(SplitAction::file_name("Title", 12, "ep24.mp4"), "Title - 12.mp4");
    assert_eq!(SplitAction::file_name("Title", 100, "a.b.avi"), "Title - 100.avi");
    assert_eq!(SplitAction::file_name("Title", 7, "noext"), "Title - 07");
    assert_eq!(SplitAction::file_name("", 0, ".hidden"), " - 00");
    let made = SplitAction::new("old", "new");
    assert_eq!(made, action("old", "new"));
}

#[test]
fn resolved_series_takes_its_title_as_directory() {
    let local = numbered(1..=14);
    let series = ResolvedSeries::new(info(2, "Second", 13, vec![]), "merged".to_string(), &local, 12);
    assert_eq!(series.info, info(2, "Second", 13, vec![]));
    assert_eq!(series.base_dir, "merged");
    assert_eq!(series.out_dir, "Second");
    assert_eq!(
        series.actions,
        vec![action("ep13.mkv", "Second - 01.mkv"), action("ep14.mkv", "Second - 02.mkv")]
    );
}

#[test]
fn merged_seasons_are_resolved_as_far_as_the_episodes_go() {
    let (outcomes, lookups) = resolve(categorized(SeriesKind::Season, 1..=20), 1);
    let outcomes = outcomes.unwrap();
    assert_eq!(lookups, vec![(1, false), (2, true)]);
    assert_eq!(outcomes.len(), 1);
    match &outcomes[0] {
        MergedSeries::Resolved(series) => {
            assert_eq!(series.info.id, 2);
            assert_eq!(series.base_dir, "base");
            assert_eq!(series.out_dir, "Second");
            assert_eq!(series.actions.len(), 8);
            assert_eq!(series.actions[0], action("ep13.mkv", "Second - 01.mkv"));
            assert_eq!(series.actions[7], action("ep20.mkv", "Second - 08.mkv"));
        }
        other => panic!("expected a resolved season, got {:?}", other),
    }
}

#[test]
fn merged_seasons_are_followed_along_the_chain() {
    let (outcomes, lookups) = resolve(categorized(SeriesKind::Season, 1..=30), 1);
    let outcomes = outcomes.unwrap();
    assert_eq!(lookups, vec![(1, false), (2, true), (3, true)]);
    assert_eq!(outcomes.len(), 2);
    match (&outcomes[0], &outcomes[1]) {
        (MergedSeries::Resolved(second), MergedSeries::Resolved(third)) => {
            assert_eq!(second.info.id, 2);
            assert_eq!(second.actions.len(), 13);
            assert_eq!(second.actions[12], action("ep25.mkv", "Second - 13.mkv"));
            assert_eq!(third.info.id, 3);
            assert_eq!(third.actions.len(), 5);
            assert_eq!(third.actions[0], action("ep26.mkv", "Third - 01.mkv"));
            assert_eq!(third.actions[4], action("ep30.mkv", "Third - 05.mkv"));
        }
        other => panic!("expected two resolved seasons, got {:?}", other),
    }
}

#[test]
fn chain_goes_on_where_the_offset_is_the_highest_number() {
    let (outcomes, lookups) = resolve(categorized(SeriesKind::Season, 1..=25), 1);
    assert_eq!(lookups, vec![(1, false), (2, true), (3, true)]);
    let outcomes = outcomes.unwrap();
    assert_eq!(outcomes.len(), 2);
    match &outcomes[1] {
        MergedSeries::Resolved(third) => assert!(third.actions.is_empty()),
        other => panic!("expected a resolved season, got {:?}", other),
    }
}

#[test]
fn no_season_is_asked_for_without_episodes_beyond_the_base() {
    let (outcomes, lookups) = resolve(categorized(SeriesKind::Season, 1..=11), 1);
    assert_eq!(lookups, vec![(1, false)]);
    assert_eq!(outcomes, Ok(vec![]));
}

#[test]
fn failed_movie_does_not_stop_the_seasons() {
    let mut local = categorized(SeriesKind::Movie, 1..=1);
    for num in 1..=20 {
        local.add(SeriesKind::Season, episode(num, &format!("ep{}.mkv", num)));
    }
    let (outcomes, lookups) = resolve(local, 1);
    let outcomes = outcomes.unwrap();
    assert_eq!(lookups, vec![(1, false), (50, true), (2, true)]);
    assert_eq!(outcomes.len(), 2);
    assert_eq!(outcomes[0], MergedSeries::Failed(SeriesKind::Movie));
    match &outcomes[1] {
        MergedSeries::Resolved(series) => {
            assert_eq!(series.info.id, 2);
            assert_eq!(series.actions.len(), 8);
        }
        other => panic!("expected a resolved season, got {:?}", other),
    }
}

#[test]
fn sequel_that_is_no_season_covers_all_its_episodes() {
    let local = categorized(SeriesKind::Movie, 1..=2);
    let (mut resolver, request) = Resolver::new(local, "base".to_string(), 1);
    assert_eq!(request, Request::Lookup { id: 1, delay: false });
    assert_eq!(resolver.waiting(), Waiting::Base);
    (resolver, _) = resolver.step(catalog(1));
    assert_eq!(resolver.waiting(), Waiting::Sequel { category: 0, kind: SeriesKind::Movie });
    let (resolver, request) = resolver.step(Some(info(50, "The Movie", 2, vec![season(9)])));
    assert_eq!(request, Request::Done);
    let outcomes = resolver.finish().unwrap();
    assert_eq!(outcomes.len(), 1);
    match &outcomes[0] {
        MergedSeries::Resolved(series) => {
            assert_eq!(series.out_dir, "The Movie");
            assert_eq!(
                series.actions,
                vec![action("ep1.mkv", "The Movie - 01.mkv"), action("ep2.mkv", "The Movie - 02.mkv")]
            );
        }
        other => panic!("expected a resolved movie, got {:?}", other),
    }
}

#[test]
fn failed_season_ends_its_chain() {
    let local = categorized(SeriesKind::Season, 1..=40);
    let (mut resolver, mut request) = Resolver::new(local, "base".to_string(), 1);
    (resolver, request) = resolver.step(catalog(1));
    assert_eq!(request, Request::Lookup { id: 2, delay: true });
    assert_eq!(resolver.waiting(), Waiting::Season { category: 0, offset: 12 });
    (resolver, request) = resolver.step(catalog(2));
    assert_eq!(request, Request::Lookup { id: 3, delay: true });
    assert_eq!(resolver.waiting(), Waiting::Season { category: 0, offset: 25 });
    (resolver, request) = resolver.step(None);
    assert_eq!(request, Request::Done);
    let outcomes = resolver.finish().unwrap();
    assert_eq!(outcomes.len(), 2);
    assert_eq!(outcomes[1], MergedSeries::Failed(SeriesKind::Season));
}

#[test]
fn base_series_without_sequels_resolves_to_nothing() {
    let (outcomes, lookups) = resolve(categorized(SeriesKind::Season, 1..=24), 60);
    assert_eq!(lookups, vec![(60, false)]);
    assert_eq!(outcomes, Ok(vec![]));
}

#[test]
fn base_series_that_cannot_be_looked_up() {
    let (outcomes, lookups) = resolve(categorized(SeriesKind::Season, 1..=24), 404);
    assert_eq!(lookups, vec![(404, false)]);
    assert_eq!(outcomes, Err(ResolveError::BaseLookupFailed));
}

#[test]
fn categories_without_a_sequel_are_passed_over() {
    let mut local = categorized(SeriesKind::Special, 1..=3);
    local.add(SeriesKind::Season, episode(13, "ep13.mkv"));
    let (outcomes, lookups) = resolve(local, 1);
    assert_eq!(lookups, vec![(1, false), (2, true)]);
    assert_eq!(outcomes.unwrap().len(), 1);
}

#[test]
fn resolver_that_still_waits_hands_nothing_out() {
    let (resolver, _) = Resolver::new(CategorizedEpisodes::new(), "base".to_string(), 1);
    assert_eq!(resolver.finish(), Err(ResolveError::Unfinished));
}

#[test]
fn resolver_that_has_ended_stays_at_its_end() {
    let (resolver, _) = Resolver::new(CategorizedEpisodes::new(), "base".to_string(), 1);
    let (resolver, request) = resolver.step(catalog(1));
    assert_eq!(request, Request::Done);
    let (resolver, request) = resolver.step(catalog(2));
    assert_eq!(request, Request::Done);
    assert_eq!(resolver.finish(), Ok(vec![]));
}

#[test]
fn lookups_wait_a_quarter_of_a_second() {
    assert_eq!(LOOKUP_DELAY_MS, 250);
}

#[test]
fn offsets_that_do_not_fit_end_the_chain() {
    let mut local = CategorizedEpisodes::new();
    local.add(SeriesKind::Season, episode(4294967295, "last.mkv"));
    let (resolver, _) = Resolver::new(local, "base".to_string(), 1);
    let (resolver, request) = resolver.step(Some(info(1, "Base", 4294967295, vec![season(2)])));
    assert_eq!(request, Request::Lookup { id: 2, delay: true });
    let (resolver, request) = resolver.step(Some(info(2, "Second", 1, vec![season(3)])));
    assert_eq!(request, Request::Done);
    assert_eq!(resolver.finish().unwrap().len(), 1);
}

/// A file system of the tests: the directories and the links that are there,
/// and what is bound to fail.
struct Disk {
    dirs: BTreeSet<String>,
    links: BTreeSet<(String, String)>,
    broken: Option<(String, String)>,
    log: Vec<FsOperation>,
}

impl Disk {
    fn new() -> Disk {
        Disk { dirs: BTreeSet::new(), links: BTreeSet::new(), broken: None, log: Vec::new() }
    }

    fn perform(&mut self, operation: FsOperation) -> FsAnswer {
        let answer = match &operation {
            FsOperation::EnsureDir { path } => {
                if self.dirs.insert(path.clone()) {
                    FsAnswer::Done
                } else {
                    FsAnswer::AlreadyExists
                }
            }
            FsOperation::Link { to_dir, to_name, .. } => {
                let place = (to_dir.clone(), to_name.clone());
                if self.broken.as_ref() == Some(&place) {
                    FsAnswer::Failed
                } else if self.links.insert(place) {
                    FsAnswer::Done
                } else {
                    FsAnswer::AlreadyExists
                }
            }
        };
        self.log.push(operation);
        answer
    }

    fn split(&mut self, merged: Vec<MergedSeries>) -> FsRequest {
        let (mut splitter, mut request) = MergedSeries::split_all(merged);
        loop {
            match request {
                FsRequest::Perform(operation) => {
                    let answer = self.perform(operation);
                    (splitter, request) = splitter.step(answer);
                }
                end => return end,
            }
        }
    }
}

fn two_seasons() -> Vec<MergedSeries> {
    let local = numbered(1..=27);
    vec![
        MergedSeries::resolved(ResolvedSeries::new(
            info(2, "Second", 13, vec![]),
            "merged".to_string(),
            &local,
            12,
        )),
        MergedSeries::Failed(SeriesKind::Movie),
        MergedSeries::resolved(ResolvedSeries::new(
            info(9, "Nothing", 5, vec![]),
            "merged".to_string(),
            &local,
            100,
        )),
        MergedSeries::resolved(ResolvedSeries::new(
            info(3, "Third", 11, vec![]),
            "merged".to_string(),
            &local,
            25,
        )),
    ]
}

fn link(from_name: &str, to_dir: &str, to_name: &str) -> FsOperation {
    FsOperation::Link {
        from_dir: "merged".to_string(),
        from_name: from_name.to_string(),
        to_dir: to_dir.to_string(),
        to_name: to_name.to_string(),
    }
}

#[test]
fn split_makes_directories_and_links_in_order() {
    let mut disk = Disk::new();
    assert_eq!(disk.split(two_seasons()), FsRequest::Succeeded);
    assert_eq!(disk.log.len(), 2 + 13 + 2 + 2);
    assert_eq!(disk.log[0], FsOperation::EnsureDir { path: "merged".to_string() });
    assert_eq!(disk.log[1], FsOperation::EnsureDir { path: "Second".to_string() });
    assert_eq!(disk.log[2], link("ep13.mkv", "Second", "Second - 01.mkv"));
    assert_eq!(disk.log[14], link("ep25.mkv", "Second", "Second - 13.mkv"));
    assert_eq!(disk.log[15], FsOperation::EnsureDir { path: "merged".to_string() });
    assert_eq!(disk.log[16], FsOperation::EnsureDir { path: "Third".to_string() });
    assert_eq!(disk.log[17], link("ep26.mkv", "Third", "Third - 01.mkv"));
    assert_eq!(disk.log[18], link("ep27.mkv", "Third", "Third - 02.mkv"));
    assert_eq!(disk.links.len(), 15);
}

#[test]
fn split_can_be_repeated() {
    let mut disk = Disk::new();
    assert_eq!(disk.split(two_seasons()), FsRequest::Succeeded);
    let dirs = disk.dirs.clone();
    let links = disk.links.clone();
    let operations = disk.log.len();
    assert_eq!(disk.split(two_seasons()), FsRequest::Succeeded);
    assert_eq!(disk.dirs, dirs);
    assert_eq!(disk.links, links);
    assert_eq!(disk.log.len(), 2 * operations);
    assert_eq!(disk.log[..operations], disk.log[operations..]);
}

#[test]
fn split_stops_at_the_first_failure() {
    let mut disk = Disk::new();
    disk.broken = Some(("Second".to_string(), "Second - 03.mkv".to_string()));
    assert_eq!(
        disk.split(two_seasons()),
        FsRequest::Failed(link("ep15.mkv", "Second", "Second - 03.mkv"))
    );
    assert_eq!(disk.log.len(), 5);
    assert_eq!(disk.links.len(), 2);
    assert!(!disk.dirs.contains("Third"));
}

#[test]
fn split_stops_where_a_directory_cannot_be_had() {
    let (splitter, request) = MergedSeries::split_all(two_seasons());
    assert_eq!(request, FsRequest::Perform(FsOperation::EnsureDir { path: "merged".to_string() }));
    assert_eq!(splitter.progress(), Progress::Running { series: 0, step: Step::BaseDir });
    let (splitter, request) = splitter.step(FsAnswer::Done);
    assert_eq!(request, FsRequest::Perform(FsOperation::EnsureDir { path: "Second".to_string() }));
    let (splitter, request) = splitter.step(FsAnswer::Failed);
    assert_eq!(request, FsRequest::Failed(FsOperation::EnsureDir { path: "Second".to_string() }));
    assert_eq!(splitter.progress(), Progress::Failed { series: 0, step: Step::OutDir });
    let (splitter, request) = splitter.step(FsAnswer::Done);
    assert_eq!(request, FsRequest::Failed(FsOperation::EnsureDir { path: "Second".to_string() }));
    assert_eq!(splitter.request(), request);
    assert_eq!(splitter.into_merged(), two_seasons());
}

#[test]
fn split_of_nothing_takes_no_operation() {
    let mut disk = Disk::new();
    assert_eq!(disk.split(vec![]), FsRequest::Succeeded);
    assert_eq!(disk.split(vec![MergedSeries::Failed(SeriesKind::Season)]), FsRequest::Succeeded);
    let none = ResolvedSeries::new(
        info(2, "Second", 13, vec![]),
        "merged".to_string(),
        &SortedEpisodes::new(),
        12,
    );
    let (splitter, request) = none.perform_split_actions();
    assert_eq!(request, FsRequest::Succeeded);
    assert_eq!(splitter.progress(), Progress::Succeeded);
    assert!(disk.log.is_empty());
}

#[test]
fn split_of_one_series() {
    let series =
        ResolvedSeries::new(info(2, "Second", 13, vec![]), "merged".to_string(), &numbered(13..=13), 12);
    let (mut splitter, mut request) = series.perform_split_actions();
    let mut disk = Disk::new();
    while let FsRequest::Perform(operation) = request {
        let answer = disk.perform(operation);
        (splitter, request) = splitter.step(answer);
    }
    assert_eq!(request, FsRequest::Succeeded);
    assert_eq!(
        disk.log,
        vec![
            FsOperation::EnsureDir { path: "merged".to_string() },
            FsOperation::EnsureDir { path: "Second".to_string() },
            link("ep13.mkv", "Second", "Second - 01.mkv"),
        ]
    );
}

#[test]
fn season_offsets_add_up() {
    let counts = vec![Some(12), Some(13), None, Some(11)];
    assert_eq!(calculate_season_offset(&counts, 0, 0), 0);
    assert_eq!(calculate_season_offset(&counts, 0, 1), 12);
    assert_eq!(calculate_season_offset(&counts, 0, 2), 25);
    assert_eq!(calculate_season_offset(&counts, 1, 2), 13);
    assert_eq!(calculate_season_offset(&counts, 0, 3), 25);
    assert_eq!(calculate_season_offset(&counts, 0, 4), 25);
    assert_eq!(calculate_season_offset(&counts, 3, 4), 11);
    assert_eq!(calculate_season_offset(&counts, 3, 9), 11);
    assert_eq!(calculate_season_offset(&counts, 2, 4), 0);
    assert_eq!(calculate_season_offset(&counts, 7, 9), 0);
    assert_eq!(calculate_season_offset(&counts, 2, 1), 0);
    assert_eq!(calculate_season_offset(&vec![], 0, 3), 0);
    assert_eq!(calculate_season_offset(&vec![Some(4294967295), Some(0)], 0, 2), 4294967295);
}
