use anup::args::{series_params_from_args, CmdOptions, RunMode, SeriesParameters};
use anup::remote::{find_sequel, ListEntry, Sequel, SeriesInfo, SeriesKind, SeriesTitle, Status};
use anup::local::list::{Entry, EpisodeList};
use anup::local::matcher::EpisodeMatcher;
use anup::series::{episode_file, SavedSeries, SeriesEntry};
use chrono::NaiveDate;

fn day(day: u32) -> NaiveDate {
    NaiveDate::from_ymd_opt(2020, 1, day).unwrap()
}

fn entry(status: Status, watched_eps: u32, times_rewatched: u32) -> SeriesEntry {
    SeriesEntry::from_remote(ListEntry {
        id: 7,
        watched_eps,
        score: None,
        status,
        times_rewatched,
        start_date: None,
        end_date: None,
    })
}

#[test]
fn entries_from_the_catalog_need_no_sync() {
    let blank = SeriesEntry::from_id(7);
    assert_eq!(blank.id(), 7);
    assert_eq!(blank.watched_eps(), 0);
    assert_eq!(blank.score(), None);
    assert_eq!(blank.status(), Status::PlanToWatch);
    assert_eq!(blank.times_rewatched(), 0);
    assert_eq!(blank.start_date(), None);
    assert_eq!(blank.end_date(), None);
    assert!(!blank.needs_sync());
    assert_eq!(*blank.inner(), ListEntry::new(7));
}

#[test]
fn setters_ask_for_a_sync() {
    let mut e = SeriesEntry::from_id(7);
    e.set_watched_eps(3);
    assert_eq!(e.watched_eps(), 3);
    assert!(e.needs_sync());
    e.mark_synced();
    assert!(!e.needs_sync());
    e.set_score(Some(80));
    assert_eq!(e.score(), Some(80));
    assert!(e.needs_sync());
    e.mark_synced();
    e.set_times_rewatched(2);
    assert_eq!(e.times_rewatched(), 2);
    assert!(e.needs_sync());
    assert_eq!(e.inner().watched_eps, 3);
}

#[test]
fn status_sets_the_dates() {
    let mut e = SeriesEntry::from_id(7);
    e.set_status(Status::Watching, false, day(1));
    assert_eq!(e.status(), Status::Watching);
    assert_eq!(e.start_date(), Some(day(1)));
    assert_eq!(e.end_date(), None);
    assert!(e.needs_sync());
    e.set_status(Status::Completed, false, day(2));
    assert_eq!(e.end_date(), Some(day(2)));
    e.set_status(Status::Rewatching, false, day(3));
    assert_eq!(e.start_date(), Some(day(1)));
    e.set_status(Status::Completed, false, day(4));
    assert_eq!(e.end_date(), Some(day(2)));
    e.set_status(Status::Rewatching, true, day(5));
    assert_eq!(e.start_date(), Some(day(5)));
    e.set_status(Status::Completed, true, day(6));
    assert_eq!(e.end_date(), Some(day(6)));
    e.set_status(Status::Dropped, true, day(7));
    assert_eq!(e.end_date(), Some(day(6)));
    e.set_status(Status::OnHold, true, day(8));
    assert_eq!((e.start_date(), e.end_date()), (Some(day(5)), Some(day(6))));
    let mut dropped = SeriesEntry::from_id(7);
    dropped.set_status(Status::Dropped, false, day(9));
    assert_eq!((dropped.start_date(), dropped.end_date()), (None, Some(day(9))));
}

#[test]
fn begin_watching_from_each_status() {
    let mut e = entry(Status::PlanToWatch, 0, 0);
    e.begin_watching(12, false, day(1));
    assert_eq!((e.status(), e.watched_eps(), e.start_date()), (Status::Watching, 0, Some(day(1))));

    let mut e = entry(Status::OnHold, 5, 0);
    e.begin_watching(12, false, day(1));
    assert_eq!((e.status(), e.watched_eps()), (Status::Watching, 5));

    let mut e = entry(Status::Dropped, 5, 0);
    e.begin_watching(12, false, day(1));
    assert_eq!((e.status(), e.watched_eps()), (Status::Watching, 0));

    let mut e = entry(Status::Completed, 12, 0);
    e.begin_watching(12, false, day(1));
    assert_eq!((e.status(), e.watched_eps(), e.times_rewatched()), (Status::Rewatching, 0, 0));

    let mut e = entry(Status::Watching, 5, 0);
    e.begin_watching(12, false, day(1));
    assert_eq!((e.status(), e.watched_eps(), e.needs_sync()), (Status::Watching, 5, false));

    let mut e = entry(Status::Watching, 12, 0);
    e.begin_watching(12, false, day(1));
    assert_eq!((e.status(), e.watched_eps(), e.times_rewatched()), (Status::Rewatching, 0, 0));

    let mut e = entry(Status::Rewatching, 13, 2);
    e.begin_watching(12, false, day(1));
    assert_eq!((e.status(), e.watched_eps(), e.times_rewatched()), (Status::Rewatching, 0, 3));
}

#[test]
fn episodes_count_up_to_the_end_of_the_series() {
    let mut e = entry(Status::Watching, 10, 0);
    e.episode_completed(12, false, day(1));
    assert_eq!((e.status(), e.watched_eps(), e.end_date()), (Status::Watching, 11, None));
    e.episode_completed(12, false, day(2));
    assert_eq!((e.status(), e.watched_eps(), e.end_date()), (Status::Completed, 12, Some(day(2))));
    e.episode_completed(12, false, day(3));
    assert_eq!((e.status(), e.watched_eps(), e.times_rewatched()), (Status::Completed, 12, 0));

    let mut e = entry(Status::Rewatching, 11, 1);
    e.episode_completed(12, false, day(1));
    assert_eq!((e.status(), e.watched_eps(), e.times_rewatched()), (Status::Completed, 12, 2));
}

#[test]
fn series_complete_counts_a_rewatch() {
    let mut e = entry(Status::Rewatching, 3, 4);
    e.series_complete(false, day(1));
    assert_eq!((e.status(), e.watched_eps(), e.times_rewatched()), (Status::Completed, 3, 5));
    let mut e = entry(Status::Watching, 3, 4);
    e.series_complete(false, day(1));
    assert_eq!((e.status(), e.times_rewatched(), e.end_date()), (Status::Completed, 4, Some(day(1))));
}

#[test]
fn episodes_can_be_taken_back() {
    let mut e = entry(Status::Completed, 12, 0);
    e.episode_regressed(false, day(1));
    assert_eq!((e.status(), e.watched_eps()), (Status::Watching, 11));
    let mut e = entry(Status::Completed, 12, 1);
    e.episode_regressed(false, day(1));
    assert_eq!((e.status(), e.watched_eps()), (Status::Rewatching, 11));
    let mut e = entry(Status::Rewatching, 1, 0);
    e.episode_regressed(false, day(1));
    assert_eq!((e.status(), e.watched_eps()), (Status::Rewatching, 0));
    let mut e = entry(Status::PlanToWatch, 0, 0);
    e.episode_regressed(false, day(1));
    assert_eq!((e.status(), e.watched_eps(), e.needs_sync()), (Status::Watching, 0, true));
}

#[test]
fn saved_series_are_found_by_nickname() {
    let mut saved = SavedSeries::new();
    assert!(!saved.contains("show"));
    assert_eq!(saved.get("show"), None);
    saved.insert("show".to_string(), 7);
    saved.insert("other".to_string(), 8);
    assert!(saved.contains("show"));
    assert!(!saved.contains("sho"));
    assert_eq!(saved.get("show"), Some(7));
    assert_eq!(saved.get("other"), Some(8));
    saved.insert("show".to_string(), 9);
    assert_eq!(saved.get("show"), Some(9));
    assert_eq!(saved.get("other"), Some(8));
}

#[test]
fn last_watched_series_is_noted() {
    let mut saved = SavedSeries::new();
    assert_eq!(saved.last_watched(), None);
    assert!(saved.set_last_watched(7));
    assert!(!saved.set_last_watched(7));
    assert!(saved.set_last_watched(8));
    assert_eq!(saved.last_watched(), Some(8));
}

#[test]
fn sequels_are_found_by_kind() {
    let sequels = vec![
        Sequel { kind: SeriesKind::Movie, id: 50 },
        Sequel { kind: SeriesKind::Season, id: 2 },
        Sequel { kind: SeriesKind::Season, id: 3 },
    ];
    assert_eq!(find_sequel(&sequels, SeriesKind::Season), Some(sequels[1]));
    assert_eq!(find_sequel(&sequels, SeriesKind::Movie), Some(sequels[0]));
    assert_eq!(find_sequel(&sequels, SeriesKind::OVA), None);
    let info = SeriesInfo {
        id: 1,
        title: SeriesTitle { romaji: "r".to_string(), preferred: "p".to_string() },
        episodes: 12,
        episode_length: 24,
        kind: SeriesKind::Season,
        sequels,
    };
    assert_eq!(info.direct_sequel(), Some(Sequel { kind: SeriesKind::Season, id: 2 }));
    assert_eq!(info.sequel_by_kind(SeriesKind::Special), None);
}

fn options(single: bool, prefetch: bool, sync: bool) -> CmdOptions {
    CmdOptions {
        help: false,
        series: Some("show".to_string()),
        matcher: Some("{title} - {episode}".to_string()),
        offline: false,
        path: Some("/shows/show".to_string()),
        single,
        token: None,
        prefetch,
        sync,
    }
}

#[test]
fn first_option_set_decides_the_mode() {
    assert_eq!(options(false, false, false).mode(), RunMode::Interface);
    assert_eq!(options(true, true, true).mode(), RunMode::PlayEpisode);
    assert_eq!(options(false, true, true).mode(), RunMode::Prefetch);
    assert_eq!(options(false, false, true).mode(), RunMode::Sync);
}

#[test]
fn series_parameters_come_from_the_options() {
    assert_eq!(
        series_params_from_args(&options(false, false, false)),
        SeriesParameters {
            id: None,
            path: Some("/shows/show".to_string()),
            matcher: Some("{title} - {episode}".to_string()),
        }
    );
    let mut bare = options(false, false, false);
    bare.path = None;
    bare.matcher = None;
    assert_eq!(
        series_params_from_args(&bare),
        SeriesParameters { id: None, path: None, matcher: None }
    );
}

#[test]
fn episode_files_are_those_of_the_series() {
    let entries: Vec<Entry> = [0u32, 1, 12, 13]
        .iter()
        .map(|num| Entry { name: format!("Show - {:02}.mkv", num), is_dir: false })
        .collect();
    let list = EpisodeList::parse(&entries, &EpisodeMatcher::new()).unwrap();
    let info = SeriesInfo {
        id: 1,
        title: SeriesTitle { romaji: "Show".to_string(), preferred: "Show".to_string() },
        episodes: 12,
        episode_length: 24,
        kind: SeriesKind::Season,
        sequels: vec![],
    };
    assert_eq!(episode_file(&list, &info, 0), None);
    assert_eq!(episode_file(&list, &info, 1).unwrap(), "Show - 01.mkv");
    assert_eq!(episode_file(&list, &info, 2), None);
    assert_eq!(episode_file(&list, &info, 12).unwrap(), "Show - 12.mkv");
    assert_eq!(episode_file(&list, &info, 13), None);
}
