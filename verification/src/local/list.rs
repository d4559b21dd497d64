//! The episodes of one directory.

use crate::err::{result_view, EpisodeError, ErrorView};
use crate::local::episode::{episode_of, Episode, EpisodeView};
use crate::local::matcher::EpisodeMatcher;
use crate::local::sorted::last_numbered;
use crate::text::{ends_with, has_suffix};
use std::collections::HashMap;
use vstd::prelude::*;

verus! {

broadcast use vstd::std_specs::hash::group_hash_axioms;

/// What a directory holds under one name: a file or a directory.
#[derive(Debug, PartialEq, Eq)]
pub struct Entry {
    pub name: String,
    pub is_dir: bool,
}

/// An `Entry` with its name as a sequence of characters.
pub ghost struct EntryView {
    pub name: Seq<char>,
    pub is_dir: bool,
}

impl View for Entry {
    type V = EntryView;

    open spec fn view(&self) -> EntryView {
        EntryView { name: self.name@, is_dir: self.is_dir }
    }
}

impl DeepView for Entry {
    type V = EntryView;

    open spec fn deep_view(&self) -> EntryView {
        self@
    }
}

/// The end of the name of a file that is still being downloaded.
pub const PARTIAL_SUFFIX: &'static str = ".part";

/// Whether a scan passes over `entry`: a directory, or a file that is still
/// being downloaded.
pub open spec fn skipped(entry: EntryView) -> bool {
    entry.is_dir || ends_with(entry.name, PARTIAL_SUFFIX@)
}

/// The episodes that `matcher` reads from `entries`, in their order. The
/// first entry that cannot be read, or whose title is not that of the
/// episodes before it, makes the whole scan fail.
pub open spec fn scanned(entries: Seq<EntryView>, matcher: EpisodeMatcher) -> Result<
    Seq<EpisodeView>,
    ErrorView,
>
    decreases entries.len(),
{
    if entries.len() == 0 {
        Ok(Seq::empty())
    } else {
        match scanned(entries.drop_last(), matcher) {
            Err(error) => Err(error),
            Ok(found) => if skipped(entries.last()) {
                Ok(found)
            } else {
                match episode_of(entries.last().name, matcher) {
                    Err(error) => Err(error),
                    Ok(episode) => if found.len() > 0 && found[0].name != episode.name {
                        Err(
                            ErrorView::MultipleTitles {
                                expecting: found[0].name,
                                found: episode.name,
                            },
                        )
                    } else {
                        Ok(found.push(episode))
                    },
                }
            },
        }
    }
}

/// The file name of each episode number in `episodes`. Where a number comes
/// twice, the later episode stands.
pub open spec fn paths_of(episodes: Seq<EpisodeView>) -> Map<u32, Seq<char>>
    decreases episodes.len(),
{
    if episodes.len() == 0 {
        Map::empty()
    } else {
        paths_of(episodes.drop_last()).insert(episodes.last().num, episodes.last().filename)
    }
}

/// The episodes of one directory: the title that all of them bear, and the
/// name of the file of each episode number.
#[derive(Debug, PartialEq, Eq)]
pub struct EpisodeList {
    pub title: String,
    pub paths: HashMap<u32, String>,
}

/// An `EpisodeList` with its texts as sequences of characters.
pub ghost struct EpisodeListView {
    pub title: Seq<char>,
    pub paths: Map<u32, Seq<char>>,
}

impl View for EpisodeList {
    type V = EpisodeListView;

    open spec fn view(&self) -> EpisodeListView {
        EpisodeListView {
            title: self.title@,
            paths: self.paths@.map_values(|name: String| name@),
        }
    }
}

/// The episode list that `matcher` reads from `entries`. A directory without
/// an episode has none.
pub open spec fn episode_list_of(entries: Seq<EntryView>, matcher: EpisodeMatcher) -> Result<
    EpisodeListView,
    ErrorView,
> {
    match scanned(entries, matcher) {
        Err(error) => Err(error),
        Ok(found) => if found.len() == 0 {
            Err(ErrorView::NoEpisodes)
        } else {
            Ok(EpisodeListView { title: found[0].name, paths: paths_of(found) })
        },
    }
}

/// The outcome of a scan with its episodes and its error viewed.
pub open spec fn scan_view(r: Result<Vec<Episode>, EpisodeError>) -> Result<
    Seq<EpisodeView>,
    ErrorView,
> {
    match r {
        Ok(found) => Ok(found.deep_view()),
        Err(error) => Err(error@),
    }
}

/// Reads the episodes from the entries of a directory, in their order.
/// Directories and files that are still being downloaded are passed over;
/// every other entry must be an episode, and all of one title.
pub fn scan_episodes(entries: &Vec<Entry>, matcher: &EpisodeMatcher) -> (r: Result<
    Vec<Episode>,
    EpisodeError,
>)
    ensures
        scan_view(r) == scanned(entries.deep_view(), *matcher),
{
    let mut found: Vec<Episode> = Vec::new();
    let mut i: usize = 0;
    assert(entries.deep_view().subrange(0, 0) == Seq::<EntryView>::empty());
    assert(found.deep_view() == Seq::<EpisodeView>::empty());
    while i < entries.len()
        invariant
            i <= entries.len(),
            scanned(entries.deep_view().subrange(0, i as int), *matcher) == Ok::<
                Seq<EpisodeView>,
                ErrorView,
            >(found.deep_view()),
        decreases entries.len() - i,
    {
        let ghost before = entries.deep_view().subrange(0, i as int);
        let ghost upto = entries.deep_view().subrange(0, i + 1);
        assert(upto.drop_last() == before);
        assert(upto.last() == entries[i as int]@);
        let entry = &entries[i];
        i += 1;
        if entry.is_dir || has_suffix(entry.name.as_str(), PARTIAL_SUFFIX) {
            continue ;
        }
        let episode = match Episode::parse(entry.name.as_str(), matcher) {
            Ok(episode) => episode,
            Err(error) => {
                proof {
                    lemma_scan_fails_for_good(entries.deep_view(), *matcher, i as int);
                }
                return Err(error);
            },
        };
        if found.len() > 0 && found[0].name != episode.name {
            proof {
                lemma_scan_fails_for_good(entries.deep_view(), *matcher, i as int);
            }
            assert(found.deep_view()[0] == found[0]@);
            return Err(
                EpisodeError::MultipleTitles {
                    expecting: found[0].name.clone(),
                    found: episode.name,
                },
            );
        }
        let ghost old_found = found.deep_view();
        found.push(episode);
        assert(found.deep_view() == old_found.push(episode@));
    }
    assert(entries.deep_view().subrange(0, entries.len() as int) == entries.deep_view());
    Ok(found)
}

impl EpisodeList {
    /// Scans the entries of a directory: each file but those still being
    /// downloaded must be an episode of one and the same series.
    pub fn parse(entries: &Vec<Entry>, matcher: &EpisodeMatcher) -> (r: Result<
        EpisodeList,
        EpisodeError,
    >)
        ensures
            result_view(r) == episode_list_of(entries.deep_view(), *matcher),
    {
        let found = match scan_episodes(entries, matcher) {
            Ok(found) => found,
            Err(error) => {
                return Err(error);
            },
        };
        if found.len() == 0 {
            return Err(EpisodeError::NoEpisodes);
        }
        let title = found[0].name.clone();
        assert(found.deep_view()[0] == found[0]@);
        let mut paths: HashMap<u32, String> = HashMap::new();
        let mut i: usize = 0;
        assert(found.deep_view().subrange(0, 0) == Seq::<EpisodeView>::empty());
        assert(paths@.map_values(|name: String| name@) == Map::<u32, Seq<char>>::empty());
        while i < found.len()
            invariant
                i <= found.len(),
                paths@.map_values(|name: String| name@) == paths_of(
                    found.deep_view().subrange(0, i as int),
                ),
            decreases found.len() - i,
        {
            let ghost upto = found.deep_view().subrange(0, i + 1);
            assert(upto.drop_last() == found.deep_view().subrange(0, i as int));
            assert(upto.last() == found[i as int]@);
            let ghost before = paths@;
            let name = found[i].filename.clone();
            paths.insert(found[i].num, name);
            assert(paths@.map_values(|name: String| name@) == before.map_values(
                |name: String| name@,
            ).insert(found[i as int].num, name@));
            i += 1;
        }
        assert(found.deep_view().subrange(0, found.len() as int) == found.deep_view());
        Ok(EpisodeList { title, paths })
    }

    /// The name of the file of the episode `episode`.
    pub fn get(&self, episode: u32) -> (r: Option<&String>)
        ensures
            match r {
                Some(name) => self@.paths.contains_key(episode) && self@.paths[episode] == name@,
                None => !self@.paths.contains_key(episode),
            },
    {
        self.paths.get(&episode)
    }
}

/// A scan that has failed on the first `k` entries fails in the same way on
/// all of them.
pub proof fn lemma_scan_fails_for_good(entries: Seq<EntryView>, matcher: EpisodeMatcher, k: int)
    requires
        0 <= k <= entries.len(),
        scanned(entries.subrange(0, k), matcher) is Err,
    ensures
        scanned(entries, matcher) == scanned(entries.subrange(0, k), matcher),
    decreases entries.len(),
{
    if k == entries.len() {
        assert(entries.subrange(0, k) == entries);
    } else {
        assert(entries.drop_last().subrange(0, k) == entries.subrange(0, k));
        lemma_scan_fails_for_good(entries.drop_last(), matcher, k);
    }
}

/// Whether `matcher` reads an episode from each entry of `entries` that a
/// scan does not pass over.
pub open spec fn all_read(entries: Seq<EntryView>, matcher: EpisodeMatcher) -> bool {
    forall|k: int|
        0 <= k < entries.len() && !skipped(#[trigger] entries[k]) ==> episode_of(
            entries[k].name,
            matcher,
        ) is Ok
}

/// Whether the episode `episode` was read from one of `entries`.
pub open spec fn read_from(
    episode: EpisodeView,
    entries: Seq<EntryView>,
    matcher: EpisodeMatcher,
) -> bool {
    exists|k: int|
        0 <= k < entries.len() && !skipped(#[trigger] entries[k]) && episode_of(
            entries[k].name,
            matcher,
        ) == Ok::<EpisodeView, ErrorView>(episode)
}

/// Where a scan succeeds, every entry that it does not pass over is an
/// episode with the title of the first one found, and every episode found
/// was read from an entry.
pub proof fn lemma_scan_reads_one_title(entries: Seq<EntryView>, matcher: EpisodeMatcher)
    requires
        scanned(entries, matcher) is Ok,
    ensures
        forall|k: int|
            0 <= k < entries.len() && !skipped(#[trigger] entries[k]) ==> {
                &&& scanned(entries, matcher)->Ok_0.len() > 0
                &&& episode_of(entries[k].name, matcher) is Ok
                &&& episode_of(entries[k].name, matcher)->Ok_0.name == scanned(
                    entries,
                    matcher,
                )->Ok_0[0].name
            },
        forall|i: int|
            0 <= i < scanned(entries, matcher)->Ok_0.len() ==> read_from(
                #[trigger] scanned(entries, matcher)->Ok_0[i],
                entries,
                matcher,
            ),
    decreases entries.len(),
{
    if entries.len() > 0 {
        let front = entries.drop_last();
        let last = entries.len() - 1;
        lemma_scan_reads_one_title(front, matcher);
        let before = scanned(front, matcher)->Ok_0;
        let found = scanned(entries, matcher)->Ok_0;
        assert forall|k: int| 0 <= k < entries.len() && !skipped(#[trigger] entries[k]) implies {
            &&& found.len() > 0
            &&& episode_of(entries[k].name, matcher) is Ok
            &&& episode_of(entries[k].name, matcher)->Ok_0.name == found[0].name
        } by {
            if k < last {
                assert(front[k] == entries[k]);
            }
        }
        assert forall|i: int| 0 <= i < found.len() implies read_from(
            #[trigger] found[i],
            entries,
            matcher,
        ) by {
            if i < before.len() {
                assert(read_from(before[i], front, matcher));
                let k = choose|k: int|
                    0 <= k < front.len() && !skipped(#[trigger] front[k]) && episode_of(
                        front[k].name,
                        matcher,
                    ) == Ok::<EpisodeView, ErrorView>(before[i]);
                assert(entries[k] == front[k]);
            } else {
                assert(!skipped(entries[last]));
            }
        }
    }
}

/// Where every file can be read, a scan can only fail on a second title.
pub proof fn lemma_scan_fails_on_titles_only(entries: Seq<EntryView>, matcher: EpisodeMatcher)
    requires
        all_read(entries, matcher),
    ensures
        scanned(entries, matcher) is Err ==> scanned(entries, matcher)->Err_0 is MultipleTitles,
    decreases entries.len(),
{
    if entries.len() > 0 {
        let front = entries.drop_last();
        assert forall|k: int| 0 <= k < front.len() && !skipped(#[trigger] front[k]) implies episode_of(
            front[k].name,
            matcher,
        ) is Ok by {
            assert(front[k] == entries[k]);
        }
        lemma_scan_fails_on_titles_only(front, matcher);
        assert(!skipped(entries.last()) ==> episode_of(entries.last().name, matcher) is Ok);
    }
}

/// A directory that holds episodes of two titles is refused: the scan fails,
/// and where every file can be read it fails with `MultipleTitles`.
pub proof fn lemma_two_titles_are_refused(
    entries: Seq<EntryView>,
    matcher: EpisodeMatcher,
    i: int,
    j: int,
)
    requires
        0 <= i < entries.len(),
        0 <= j < entries.len(),
        !skipped(entries[i]),
        !skipped(entries[j]),
        episode_of(entries[i].name, matcher) is Ok,
        episode_of(entries[j].name, matcher) is Ok,
        episode_of(entries[i].name, matcher)->Ok_0.name != episode_of(
            entries[j].name,
            matcher,
        )->Ok_0.name,
    ensures
        episode_list_of(entries, matcher) is Err,
        all_read(entries, matcher) ==> episode_list_of(entries, matcher)->Err_0 is MultipleTitles,
{
    if scanned(entries, matcher) is Ok {
        lemma_scan_reads_one_title(entries, matcher);
    }
    if all_read(entries, matcher) {
        lemma_scan_fails_on_titles_only(entries, matcher);
    }
}

/// An entry that a scan passes over, such as a file that is still being
/// downloaded, changes nothing: the scan gives what it gives without it.
pub proof fn lemma_skipped_entry_changes_nothing(
    entries: Seq<EntryView>,
    matcher: EpisodeMatcher,
    k: int,
)
    requires
        0 <= k < entries.len(),
        skipped(entries[k]),
    ensures
        scanned(entries, matcher) == scanned(entries.remove(k), matcher),
        episode_list_of(entries, matcher) == episode_list_of(entries.remove(k), matcher),
    decreases entries.len(),
{
    if k == entries.len() - 1 {
        assert(entries.remove(k) == entries.drop_last());
    } else {
        assert(entries.remove(k).drop_last() == entries.drop_last().remove(k));
        assert(entries.remove(k).last() == entries.last());
        lemma_skipped_entry_changes_nothing(entries.drop_last(), matcher, k);
    }
}

/// Each file name among `paths_of(episodes)` is that of an episode of
/// `episodes` with that number.
pub proof fn lemma_paths_come_from_episodes(episodes: Seq<EpisodeView>, num: u32)
    requires
        paths_of(episodes).contains_key(num),
    ensures
        exists|i: int|
            0 <= i < episodes.len() && (#[trigger] episodes[i]).num == num && episodes[i].filename
                == paths_of(episodes)[num],
    decreases episodes.len(),
{
    if episodes.len() > 0 {
        let last = episodes.len() - 1;
        if episodes[last].num == num {
            assert(episodes[last].filename == paths_of(episodes)[num]);
        } else {
            let front = episodes.drop_last();
            lemma_paths_come_from_episodes(front, num);
            let i = choose|i: int|
                0 <= i < front.len() && (#[trigger] front[i]).num == num && front[i].filename
                    == paths_of(front)[num];
            assert(episodes[i] == front[i]);
        }
    }
}

/// The file that stands under a number is that of the last episode of that
/// number: an episode list and the sorted episodes of one scan hold the same
/// file under every number.
pub proof fn lemma_paths_hold_the_last(episodes: Seq<EpisodeView>, num: u32)
    ensures
        paths_of(episodes).contains_key(num) == last_numbered(episodes, num) is Some,
        paths_of(episodes).contains_key(num) ==> paths_of(episodes)[num] == last_numbered(
            episodes,
            num,
        )->0.filename,
    decreases episodes.len(),
{
    if episodes.len() > 0 {
        lemma_paths_hold_the_last(episodes.drop_last(), num);
    }
}

/// Each file of an episode list was read as an episode of that number from
/// an entry that the scan did not pass over: no directory, and no file that
/// is still being downloaded.
pub proof fn lemma_listed_files_were_read(
    entries: Seq<EntryView>,
    matcher: EpisodeMatcher,
    num: u32,
)
    requires
        episode_list_of(entries, matcher) is Ok,
        episode_list_of(entries, matcher)->Ok_0.paths.contains_key(num),
    ensures
        exists|k: int|
            0 <= k < entries.len() && !skipped(#[trigger] entries[k]) && entries[k].name
                == episode_list_of(entries, matcher)->Ok_0.paths[num] && episode_of(
                entries[k].name,
                matcher,
            ) is Ok && episode_of(entries[k].name, matcher)->Ok_0.num == num,
{
    let found = scanned(entries, matcher)->Ok_0;
    lemma_paths_come_from_episodes(found, num);
    let i = choose|i: int|
        0 <= i < found.len() && (#[trigger] found[i]).num == num && found[i].filename == paths_of(
            found,
        )[num];
    lemma_scan_reads_one_title(entries, matcher);
    assert(read_from(found[i], entries, matcher));
    let k = choose|k: int|
        0 <= k < entries.len() && !skipped(#[trigger] entries[k]) && episode_of(
            entries[k].name,
            matcher,
        ) == Ok::<EpisodeView, ErrorView>(found[i]);
    lemma_episode_keeps_its_file_name(entries[k].name, matcher);
}

/// An episode bears the name of the file that it was read from.
pub proof fn lemma_episode_keeps_its_file_name(filename: Seq<char>, matcher: EpisodeMatcher)
    ensures
        episode_of(filename, matcher) is Ok ==> episode_of(filename, matcher)->Ok_0.filename
            == filename,
{
}

} // verus!
