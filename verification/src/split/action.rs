//! The links that part one season from a merged directory.

use crate::local::episode::EpisodeView;
use crate::local::sorted::{ascending, last_numbered, SortedEpisodes};
use crate::remote::SeriesInfo;
use crate::text::{extension, extension_of, format_two_digits, two_digits};
use vstd::prelude::*;
use vstd::string::StringExecFns;

verus! {

/// The number of episodes that come before a season in a merged directory.
pub type EpisodeOffset = u32;

/// One link to make: from the file `old_name` of the merged directory to
/// `new_name` in the directory of its season.
#[derive(Debug, PartialEq, Eq)]
pub struct SplitAction {
    pub old_name: String,
    pub new_name: String,
}

/// A `SplitAction` with its names as sequences of characters.
pub ghost struct SplitActionView {
    pub old_name: Seq<char>,
    pub new_name: Seq<char>,
}

impl View for SplitAction {
    type V = SplitActionView;

    open spec fn view(&self) -> SplitActionView {
        SplitActionView { old_name: self.old_name@, new_name: self.new_name@ }
    }
}

impl DeepView for SplitAction {
    type V = SplitActionView;

    open spec fn deep_view(&self) -> SplitActionView {
        self@
    }
}

/// How many episodes the seasons from the index `from` up to, and without,
/// `upto` have together, where `counts` holds the number of episodes of each
/// season. Both indices are cut down to the number of seasons, and a season
/// whose number of episodes is not known ends the count.
pub open spec fn season_offset(counts: Seq<Option<u32>>, from: int, upto: int) -> nat
    decreases upto - from,
{
    if from < 0 || from >= upto || from >= counts.len() {
        0
    } else {
        match counts[from] {
            Some(episodes) => episodes as nat + season_offset(counts, from + 1, upto),
            None => 0,
        }
    }
}

/// Counts the episodes of the seasons from the index `from` up to, and
/// without, `upto`: the offset of the season at `upto` where `from` is the
/// first of the merged seasons.
pub fn calculate_season_offset(counts: &Vec<Option<u32>>, from: usize, upto: usize) -> (r: u32)
    requires
        season_offset(counts@, from as int, upto as int) <= u32::MAX,
    ensures
        r == season_offset(counts@, from as int, upto as int),
{
    let end = if upto < counts.len() {
        upto
    } else {
        counts.len()
    };
    let mut offset: u32 = 0;
    let mut i: usize = from;
    while i < end
        invariant
            from <= i,
            end <= counts@.len(),
            end <= upto,
            end < upto ==> end == counts@.len(),
            offset + season_offset(counts@, i as int, upto as int) == season_offset(
                counts@,
                from as int,
                upto as int,
            ),
            season_offset(counts@, from as int, upto as int) <= u32::MAX,
        decreases end - i,
    {
        match counts[i] {
            Some(episodes) => {
                offset = offset + episodes;
            },
            None => {
                return offset;
            },
        }
        i += 1;
    }
    offset
}

/// Whether the episode number `num` of a merged directory belongs to the
/// season of `count` episodes that follows the first `offset` episodes.
pub open spec fn in_season(num: u32, offset: u32, count: u32) -> bool {
    offset < num <= offset + count
}

/// The name of an episode in the directory of its season: the title of the
/// season, the number within the season in two digits, and the extension of
/// the file.
pub open spec fn season_file_name(title: Seq<char>, index: nat, old_name: Seq<char>) -> Seq<char> {
    title + seq![' ', '-', ' '] + two_digits(index) + extension(old_name)
}

/// The link for the episode `episode` of a season with the title `title`
/// that follows the first `offset` episodes.
pub open spec fn action_for(title: Seq<char>, offset: u32, episode: EpisodeView) -> SplitActionView {
    SplitActionView {
        old_name: episode.filename,
        new_name: season_file_name(title, (episode.num - offset) as nat, episode.filename),
    }
}

/// The links for those of `episodes` that belong to the season, in the order
/// of `episodes`.
pub open spec fn split_actions(
    title: Seq<char>,
    episodes: Seq<EpisodeView>,
    offset: u32,
    count: u32,
) -> Seq<SplitActionView>
    decreases episodes.len(),
{
    if episodes.len() == 0 {
        Seq::empty()
    } else {
        let before = split_actions(title, episodes.drop_last(), offset, count);
        if in_season(episodes.last().num, offset, count) {
            before.push(action_for(title, offset, episodes.last()))
        } else {
            before
        }
    }
}

/// Those of `episodes` that belong to the season, in the order of
/// `episodes`.
pub open spec fn season_episodes(episodes: Seq<EpisodeView>, offset: u32, count: u32) -> Seq<
    EpisodeView,
>
    decreases episodes.len(),
{
    if episodes.len() == 0 {
        Seq::empty()
    } else {
        let before = season_episodes(episodes.drop_last(), offset, count);
        if in_season(episodes.last().num, offset, count) {
            before.push(episodes.last())
        } else {
            before
        }
    }
}

/// The links are those of the episodes of the season, one for one.
pub proof fn lemma_one_action_for_each(
    title: Seq<char>,
    episodes: Seq<EpisodeView>,
    offset: u32,
    count: u32,
)
    ensures
        split_actions(title, episodes, offset, count).len() == season_episodes(
            episodes,
            offset,
            count,
        ).len(),
        forall|i: int|
            0 <= i < season_episodes(episodes, offset, count).len() ==> #[trigger] split_actions(
                title,
                episodes,
                offset,
                count,
            )[i] == action_for(title, offset, season_episodes(episodes, offset, count)[i]),
    decreases episodes.len(),
{
    if episodes.len() > 0 {
        lemma_one_action_for_each(title, episodes.drop_last(), offset, count);
    }
}

/// Among ascending episodes, those of a season are ascending too, and none
/// of them has a higher number than the last of all.
pub proof fn lemma_season_episodes_ascend(episodes: Seq<EpisodeView>, offset: u32, count: u32)
    requires
        ascending(episodes),
    ensures
        ascending(season_episodes(episodes, offset, count)),
        forall|i: int|
            0 <= i < season_episodes(episodes, offset, count).len() ==> {
                &&& episodes.len() > 0
                &&& (#[trigger] season_episodes(episodes, offset, count)[i]).num
                    <= episodes.last().num
                &&& in_season(season_episodes(episodes, offset, count)[i].num, offset, count)
            },
    decreases episodes.len(),
{
    if episodes.len() > 0 {
        let front = episodes.drop_last();
        assert(ascending(front));
        lemma_season_episodes_ascend(front, offset, count);
        let before = season_episodes(front, offset, count);
        let all = season_episodes(episodes, offset, count);
        assert forall|i: int| 0 <= i < before.len() implies (#[trigger] before[i]).num
            < episodes.last().num by {
            assert(front.last() == episodes[episodes.len() - 2]);
        }
        assert forall|i: int| 0 <= i < all.len() implies {
            &&& (#[trigger] all[i]).num <= episodes.last().num
            &&& in_season(all[i].num, offset, count)
        } by {
            if i < before.len() {
                assert(all[i] == before[i]);
            }
        }
        assert forall|i: int, j: int| 0 <= i < j < all.len() implies all[i].num < all[j].num by {
            assert(all[i] == before[i]);
            if j < before.len() {
                assert(all[j] == before[j]);
            }
        }
    }
}

/// Each number of the season has the episode that the directory holds under
/// it, and no other number has any.
pub proof fn lemma_season_episodes_by_number(
    episodes: Seq<EpisodeView>,
    offset: u32,
    count: u32,
    num: u32,
)
    ensures
        last_numbered(season_episodes(episodes, offset, count), num) == if in_season(
            num,
            offset,
            count,
        ) {
            last_numbered(episodes, num)
        } else {
            None
        },
    decreases episodes.len(),
{
    if episodes.len() > 0 {
        let front = episodes.drop_last();
        lemma_season_episodes_by_number(front, offset, count, num);
        if in_season(episodes.last().num, offset, count) {
            assert(season_episodes(front, offset, count).push(episodes.last()).drop_last()
                == season_episodes(front, offset, count));
        }
    }
}

/// The number of an ascending episode is at least that of the first and its
/// index.
pub proof fn lemma_ascending_gap(episodes: Seq<EpisodeView>, i: int)
    requires
        ascending(episodes),
        0 <= i < episodes.len(),
    ensures
        episodes[i].num >= episodes[0].num + i,
    decreases i,
{
    if i > 0 {
        lemma_ascending_gap(episodes, i - 1);
    }
}

/// What the links of a season are, number by number. For each number of
/// the season that the directory holds there is one link, from the file of
/// that number to its name in the season; for the other numbers there is
/// none; the links stand in the order of the numbers; and there are no more
/// of them than the season has episodes.
pub proof fn lemma_split_actions_by_number(
    title: Seq<char>,
    episodes: Seq<EpisodeView>,
    offset: u32,
    count: u32,
)
    requires
        ascending(episodes),
    ensures
        ({
            let chosen = season_episodes(episodes, offset, count);
            let actions = split_actions(title, episodes, offset, count);
            &&& ascending(chosen)
            &&& forall|num: u32|
                #[trigger] last_numbered(chosen, num) == if in_season(num, offset, count) {
                    last_numbered(episodes, num)
                } else {
                    None
                }
            &&& actions.len() == chosen.len()
            &&& actions.len() <= count
            &&& forall|i: int|
                0 <= i < actions.len() ==> #[trigger] actions[i] == action_for(
                    title,
                    offset,
                    chosen[i],
                )
        }),
{
    let chosen = season_episodes(episodes, offset, count);
    lemma_season_episodes_ascend(episodes, offset, count);
    lemma_one_action_for_each(title, episodes, offset, count);
    assert forall|num: u32|
        #[trigger] last_numbered(chosen, num) == if in_season(num, offset, count) {
            last_numbered(episodes, num)
        } else {
            None
        } by {
        lemma_season_episodes_by_number(episodes, offset, count, num);
    }
    if chosen.len() > 0 {
        lemma_ascending_gap(chosen, chosen.len() - 1);
        assert(in_season(chosen[0].num, offset, count));
        assert(in_season(chosen[chosen.len() - 1].num, offset, count));
    }
}

impl SplitAction {
    /// A link from `old_name` to `new_name`.
    pub fn new(old_name: &str, new_name: &str) -> (r: SplitAction)
        ensures
            r@ == (SplitActionView { old_name: old_name@, new_name: new_name@ }),
    {
        SplitAction { old_name: String::from_str(old_name), new_name: String::from_str(new_name) }
    }

    /// The name under which the file `old_name` is linked as the episode
    /// `index` of the season with the title `title`.
    pub fn file_name(title: &str, index: u32, old_name: &str) -> (r: String)
        ensures
            r@ == season_file_name(title@, index as nat, old_name@),
    {
        proof {
            reveal_strlit(" - ");
            assert(" - "@ =~= seq![' ', '-', ' ']);
        }
        let mut name = String::from_str(title);
        name.append(" - ");
        let digits = format_two_digits(index);
        name.append(digits.as_str());
        let ext = extension_of(old_name);
        name.append(ext.as_str());
        name
    }

    /// The links that part a season from the merged episodes `episodes`: one
    /// for each local episode whose number falls into the season that
    /// follows the first `offset` episodes, in the order of the numbers.
    pub fn from_merged_seasons(
        info: &SeriesInfo,
        episodes: &SortedEpisodes,
        offset: EpisodeOffset,
    ) -> (r: Vec<SplitAction>)
        ensures
            r.deep_view() == split_actions(info@.preferred, episodes@, offset, info@.episodes),
    {
        let mut actions: Vec<SplitAction> = Vec::new();
        let n = episodes.len();
        let mut i: usize = 0;
        assert(episodes@.subrange(0, 0) == Seq::<EpisodeView>::empty());
        assert(actions.deep_view() == Seq::<SplitActionView>::empty());
        while i < n
            invariant
                n == episodes@.len(),
                i <= n,
                actions.deep_view() == split_actions(
                    info@.preferred,
                    episodes@.subrange(0, i as int),
                    offset,
                    info@.episodes,
                ),
            decreases n - i,
        {
            let episode = episodes.episode(i);
            let ghost upto = episodes@.subrange(0, i + 1);
            assert(upto.drop_last() == episodes@.subrange(0, i as int));
            assert(upto.last() == episode@);
            if episode.num > offset && episode.num - offset <= info.episodes {
                let new_name = SplitAction::file_name(
                    info.title.preferred.as_str(),
                    episode.num - offset,
                    episode.filename.as_str(),
                );
                let action = SplitAction { old_name: episode.filename.clone(), new_name };
                let ghost before = actions.deep_view();
                actions.push(action);
                assert(actions.deep_view() == before.push(action@));
            }
            i += 1;
        }
        assert(episodes@.subrange(0, n as int) == episodes@);
        actions
    }
}

} // verus!
