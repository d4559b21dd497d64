use anup::local::episode::Episode;
use anup::local::sorted::{CategorizedEpisodes, SortedEpisodes};
use anup::remote::SeriesKind;

fn episode(num: u32, filename: &str) -> Episode {
    Episode { name: "Series Name".to_string(), num, filename: filename.to_string() }
}

fn numbers(episodes: &SortedEpisodes) -> Vec<u32> {
    (0..episodes.len()).map(|at| episodes.episode(at).num).collect()
}

#[test]
fn sorted_episodes_stand_in_the_order_of_their_numbers() {
    let sorted = SortedEpisodes::from_episodes(vec![
        episode(5, "e5"),
        episode(1, "e1"),
        episode(3, "e3"),
        episode(2, "e2"),
    ]);
    assert_eq!(numbers(&sorted), vec![1, 2, 3, 5]);
    assert_eq!(sorted.len(), 4);
    assert_eq!(sorted.find(3).unwrap().filename, "e3");
    assert_eq!(sorted.find(4), None);
    assert_eq!(sorted.find(0), None);
    assert_eq!(sorted.find(6), None);
    assert_eq!(sorted.highest_episode_number(), 5);
}

#[test]
fn sorted_episodes_keep_the_later_of_a_number() {
    let sorted = SortedEpisodes::from_episodes(vec![
        episode(2, "first"),
        episode(1, "one"),
        episode(2, "second"),
    ]);
    assert_eq!(numbers(&sorted), vec![1, 2]);
    assert_eq!(sorted.find(2).unwrap().filename, "second");
}

#[test]
fn no_sorted_episodes() {
    let sorted = SortedEpisodes::new();
    assert_eq!(sorted.len(), 0);
    assert_eq!(sorted.highest_episode_number(), 0);
    assert_eq!(sorted.find(1), None);
    let sorted = SortedEpisodes::from_episodes(vec![]);
    assert_eq!(sorted.len(), 0);
}

#[test]
fn insert_puts_an_episode_in_its_place() {
    let mut sorted = SortedEpisodes::new();
    sorted.insert(episode(10, "ten"));
    sorted.insert(episode(4294967295, "last"));
    sorted.insert(episode(0, "zero"));
    sorted.insert(episode(10, "ten again"));
    assert_eq!(numbers(&sorted), vec![0, 10, 4294967295]);
    assert_eq!(sorted.episode(1).filename, "ten again");
    assert_eq!(sorted.highest_episode_number(), 4294967295);
}

#[test]
fn categories_stand_in_the_order_of_their_first_episodes() {
    let mut all = CategorizedEpisodes::new();
    assert_eq!(all.len(), 0);
    assert!(all.get(SeriesKind::Season).is_none());
    all.add(SeriesKind::Movie, episode(1, "movie"));
    all.add(SeriesKind::Season, episode(2, "s2"));
    all.add(SeriesKind::Season, episode(1, "s1"));
    all.add(SeriesKind::Movie, episode(1, "movie again"));
    assert_eq!(all.len(), 2);
    assert_eq!(all.category(0).kind, SeriesKind::Movie);
    assert_eq!(all.category(1).kind, SeriesKind::Season);
    assert_eq!(numbers(all.get(SeriesKind::Season).unwrap()), vec![1, 2]);
    assert_eq!(all.get(SeriesKind::Movie).unwrap().find(1).unwrap().filename, "movie again");
    assert!(all.get(SeriesKind::Special).is_none());
}
