//! Episodes in the order of their numbers, and such lists by category.

use crate::local::episode::{Episode, EpisodeView};
use crate::remote::SeriesKind;
use vstd::prelude::*;

verus! {

/// Whether the numbers of `episodes` rise from each to the next.
pub open spec fn ascending(episodes: Seq<EpisodeView>) -> bool {
    forall|i: int, j: int| 0 <= i < j < episodes.len() ==> episodes[i].num < episodes[j].num
}

/// The last of `episodes` with the number `num`.
pub open spec fn last_numbered(episodes: Seq<EpisodeView>, num: u32) -> Option<EpisodeView>
    decreases episodes.len(),
{
    if episodes.len() == 0 {
        None
    } else if episodes.last().num == num {
        Some(episodes.last())
    } else {
        last_numbered(episodes.drop_last(), num)
    }
}

/// How many of `episodes` stand before the first whose number is at least
/// `num`.
pub open spec fn rank(episodes: Seq<EpisodeView>, num: u32) -> int
    decreases episodes.len(),
{
    if episodes.len() == 0 || episodes[0].num >= num {
        0
    } else {
        1 + rank(episodes.drop_first(), num)
    }
}

/// `episodes` with `episode` at the place of its number: in place of the
/// episode of that number, where there is one.
pub open spec fn inserted(episodes: Seq<EpisodeView>, episode: EpisodeView) -> Seq<EpisodeView> {
    let at = rank(episodes, episode.num);
    if at < episodes.len() && episodes[at].num == episode.num {
        episodes.update(at, episode)
    } else {
        episodes.insert(at, episode)
    }
}

/// The highest number among ascending `episodes`; 0 where there is none.
pub open spec fn highest(episodes: Seq<EpisodeView>) -> u32 {
    if episodes.len() == 0 {
        0
    } else {
        episodes.last().num
    }
}

/// The rank of a number is the one index that parts the smaller numbers from
/// the others.
pub proof fn lemma_rank_is(episodes: Seq<EpisodeView>, num: u32, at: int)
    requires
        0 <= at <= episodes.len(),
        forall|i: int| 0 <= i < at ==> episodes[i].num < num,
        at < episodes.len() ==> episodes[at].num >= num,
    ensures
        rank(episodes, num) == at,
    decreases episodes.len(),
{
    if at > 0 {
        let rest = episodes.drop_first();
        assert forall|i: int| 0 <= i < at - 1 implies rest[i].num < num by {
            assert(rest[i] == episodes[i + 1]);
        }
        lemma_rank_is(rest, num, at - 1);
    }
}

/// In ascending episodes a number is found at its rank or nowhere.
pub proof fn lemma_last_numbered_at_rank(episodes: Seq<EpisodeView>, num: u32, at: int)
    requires
        ascending(episodes),
        0 <= at <= episodes.len(),
        forall|i: int| 0 <= i < at ==> episodes[i].num < num,
        at < episodes.len() ==> episodes[at].num >= num,
    ensures
        last_numbered(episodes, num) == if at < episodes.len() && episodes[at].num == num {
            Some(episodes[at])
        } else {
            None
        },
    decreases episodes.len(),
{
    if episodes.len() > 0 {
        let front = episodes.drop_last();
        let last = episodes.len() - 1;
        if episodes[last].num != num {
            if at <= last {
                assert(forall|i: int| 0 <= i < front.len() ==> front[i] == episodes[i]);
                lemma_last_numbered_at_rank(front, num, at);
            } else {
                lemma_absent_number(front, num);
            }
        }
    }
}

/// A number that none of `episodes` bears is not found among them.
pub proof fn lemma_absent_number(episodes: Seq<EpisodeView>, num: u32)
    requires
        forall|i: int| 0 <= i < episodes.len() ==> episodes[i].num != num,
    ensures
        last_numbered(episodes, num) is None,
    decreases episodes.len(),
{
    if episodes.len() > 0 {
        lemma_absent_number(episodes.drop_last(), num);
    }
}

/// Inserting keeps the order, puts the episode under its number and leaves
/// the other numbers as they were.
pub proof fn lemma_inserted(episodes: Seq<EpisodeView>, episode: EpisodeView, num: u32)
    requires
        ascending(episodes),
    ensures
        ascending(inserted(episodes, episode)),
        last_numbered(inserted(episodes, episode), num) == if num == episode.num {
            Some(episode)
        } else {
            last_numbered(episodes, num)
        },
{
    let at = rank(episodes, episode.num);
    lemma_rank_parts(episodes, episode.num);
    let after = inserted(episodes, episode);
    lemma_rank_parts(episodes, num);
    let was = rank(episodes, num);
    lemma_last_numbered_at_rank(episodes, num, was);
    if at < episodes.len() && episodes[at].num == episode.num {
        assert(ascending(after));
        lemma_last_numbered_at_rank(after, num, was);
    } else {
        assert(ascending(after)) by {
            assert forall|i: int, j: int| 0 <= i < j < after.len() implies after[i].num
                < after[j].num by {
                let a = if i < at { i } else { i - 1 };
                let b = if j < at { j } else { j - 1 };
                if i != at && j != at {
                    assert(after[i] == episodes[a]);
                    assert(after[j] == episodes[b]);
                }
            }
        }
        let now = if num <= episode.num {
            was
        } else {
            was + 1
        };
        assert forall|i: int| 0 <= i < now implies after[i].num < num by {
            if i < at {
                assert(after[i] == episodes[i]);
            } else if i > at {
                assert(after[i] == episodes[i - 1]);
            }
        }
        if now < after.len() {
            if now < at {
                assert(after[now] == episodes[now]);
            } else if now > at {
                assert(after[now] == episodes[now - 1]);
            }
        }
        lemma_last_numbered_at_rank(after, num, now);
    }
}

/// The rank of a number parts the smaller numbers from the others.
pub proof fn lemma_rank_parts(episodes: Seq<EpisodeView>, num: u32)
    requires
        ascending(episodes),
    ensures
        0 <= rank(episodes, num) <= episodes.len(),
        forall|i: int| 0 <= i < rank(episodes, num) ==> episodes[i].num < num,
        forall|i: int| rank(episodes, num) <= i < episodes.len() ==> episodes[i].num >= num,
    decreases episodes.len(),
{
    if episodes.len() > 0 && episodes[0].num < num {
        let rest = episodes.drop_first();
        assert(ascending(rest)) by {
            assert forall|i: int, j: int| 0 <= i < j < rest.len() implies rest[i].num
                < rest[j].num by {
                assert(rest[i] == episodes[i + 1]);
                assert(rest[j] == episodes[j + 1]);
            }
        }
        lemma_rank_parts(rest, num);
        assert forall|i: int| 0 <= i < rank(episodes, num) implies episodes[i].num < num by {
            if i > 0 {
                assert(rest[i - 1] == episodes[i]);
            }
        }
        assert forall|i: int| rank(episodes, num) <= i < episodes.len() implies episodes[i].num
            >= num by {
            assert(rest[i - 1] == episodes[i]);
        }
    }
}

/// Ascending episodes are known by what is found under each number: two
/// such lists that hold the same episode, or none, under every number are
/// one list.
pub proof fn lemma_ascending_known_by_numbers(a: Seq<EpisodeView>, b: Seq<EpisodeView>)
    requires
        ascending(a),
        ascending(b),
        forall|num: u32| last_numbered(a, num) == last_numbered(b, num),
    ensures
        a == b,
    decreases a.len(),
{
    if a.len() == 0 {
        if b.len() > 0 {
            lemma_absent_number(a, b.last().num);
        }
    } else if b.len() == 0 {
        lemma_absent_number(b, a.last().num);
    } else {
        let x = a.last();
        let y = b.last();
        assert(last_numbered(b, x.num) == Some(x));
        assert(last_numbered(a, y.num) == Some(y));
        lemma_found_is_member(b, x.num);
        lemma_found_is_member(a, y.num);
        assert(x.num == y.num);
        assert(x == y);
        let front_a = a.drop_last();
        let front_b = b.drop_last();
        assert forall|num: u32| last_numbered(front_a, num) == last_numbered(front_b, num) by {
            if num == x.num {
                assert forall|i: int| 0 <= i < front_a.len() implies front_a[i].num != num by {
                    assert(front_a[i] == a[i]);
                }
                assert forall|i: int| 0 <= i < front_b.len() implies front_b[i].num != num by {
                    assert(front_b[i] == b[i]);
                }
                lemma_absent_number(front_a, num);
                lemma_absent_number(front_b, num);
            } else {
                assert(last_numbered(a, num) == last_numbered(front_a, num));
                assert(last_numbered(b, num) == last_numbered(front_b, num));
            }
        }
        assert(ascending(front_a));
        assert(ascending(front_b));
        lemma_ascending_known_by_numbers(front_a, front_b);
        assert(a == front_a.push(x));
        assert(b == front_b.push(y));
    }
}

/// An episode that is found under a number is one of the episodes, and
/// bears that number.
pub proof fn lemma_found_is_member(episodes: Seq<EpisodeView>, num: u32)
    ensures
        last_numbered(episodes, num) matches Some(episode) ==> episode.num == num && exists|
            i: int,
        |
            0 <= i < episodes.len() && episodes[i] == episode,
    decreases episodes.len(),
{
    if episodes.len() > 0 {
        if episodes.last().num == num {
            assert(episodes[episodes.len() - 1] == episodes.last());
        } else {
            let front = episodes.drop_last();
            lemma_found_is_member(front, num);
            if let Some(episode) = last_numbered(front, num) {
                let i = choose|i: int| 0 <= i < front.len() && front[i] == episode;
                assert(episodes[i] == episode);
            }
        }
    }
}

/// Episodes in the order of their numbers, each number once.
#[derive(Debug)]
pub struct SortedEpisodes {
    episodes: Vec<Episode>,
}

impl View for SortedEpisodes {
    type V = Seq<EpisodeView>;

    closed spec fn view(&self) -> Seq<EpisodeView> {
        self.episodes.deep_view()
    }
}

impl DeepView for SortedEpisodes {
    type V = Seq<EpisodeView>;

    open spec fn deep_view(&self) -> Seq<EpisodeView> {
        self@
    }
}

impl SortedEpisodes {
    #[verifier::type_invariant]
    spec fn in_order(self) -> bool {
        ascending(self.episodes.deep_view())
    }

    /// No episodes.
    pub fn new() -> (r: SortedEpisodes)
        ensures
            r@ == Seq::<EpisodeView>::empty(),
    {
        let episodes: Vec<Episode> = Vec::new();
        assert(episodes.deep_view() == Seq::<EpisodeView>::empty());
        SortedEpisodes { episodes }
    }

    /// How many episodes there are.
    pub fn len(&self) -> (r: usize)
        ensures
            r == self@.len(),
            ascending(self@),
    {
        proof {
            use_type_invariant(self);
        }
        self.episodes.len()
    }

    /// The episode at the index `at`, counted in the order of the numbers.
    pub fn episode(&self, at: usize) -> (r: &Episode)
        requires
            at < self@.len(),
        ensures
            r@ == self@[at as int],
    {
        &self.episodes[at]
    }

    /// The index of the first episode whose number is at least `num`.
    fn position(&self, num: u32) -> (at: usize)
        ensures
            ascending(self@),
            at == rank(self@, num),
            0 <= at <= self@.len(),
            forall|i: int| 0 <= i < at ==> self@[i].num < num,
            forall|i: int| at <= i < self@.len() ==> self@[i].num >= num,
    {
        proof {
            use_type_invariant(self);
        }
        let mut low: usize = 0;
        let mut high: usize = self.episodes.len();
        while low < high
            invariant
                ascending(self@),
                self@ == self.episodes.deep_view(),
                0 <= low <= high <= self@.len(),
                forall|i: int| 0 <= i < low ==> self@[i].num < num,
                forall|i: int| high <= i < self@.len() ==> self@[i].num >= num,
            decreases high - low,
        {
            let mid = low + (high - low) / 2;
            assert(self@[mid as int] == self.episodes[mid as int]@);
            if self.episodes[mid].num < num {
                low = mid + 1;
            } else {
                high = mid;
            }
        }
        proof {
            lemma_rank_is(self@, num, low as int);
        }
        low
    }

    /// The episode with the number `num`.
    pub fn find(&self, num: u32) -> (r: Option<&Episode>)
        ensures
            r.deep_view() == last_numbered(self@, num),
    {
        let at = self.position(num);
        proof {
            lemma_last_numbered_at_rank(self@, num, at as int);
        }
        if at < self.episodes.len() && self.episodes[at].num == num {
            assert(self@[at as int] == self.episodes[at as int]@);
            Some(&self.episodes[at])
        } else {
            None
        }
    }

    /// The highest episode number; 0 where there is no episode.
    pub fn highest_episode_number(&self) -> (r: u32)
        ensures
            r == highest(self@),
            forall|i: int| 0 <= i < self@.len() ==> self@[i].num <= r,
    {
        proof {
            use_type_invariant(self);
        }
        let n = self.episodes.len();
        if n == 0 {
            0
        } else {
            assert(self@[n - 1] == self.episodes[n - 1]@);
            self.episodes[n - 1].num
        }
    }

    /// Puts `episode` at the place of its number. An episode of that number
    /// that was there gives way.
    pub fn insert(&mut self, episode: Episode)
        ensures
            final(self)@ == inserted(old(self)@, episode@),
            ascending(final(self)@),
    {
        let at = self.position(episode.num);
        let ghost before = self@;
        proof {
            lemma_inserted(before, episode@, episode.num);
        }
        let mut episodes: Vec<Episode> = Vec::new();
        assert(episodes.deep_view() == Seq::<EpisodeView>::empty());
        std::mem::swap(&mut self.episodes, &mut episodes);
        if at < episodes.len() && episodes[at].num == episode.num {
            assert(before[at as int] == episodes[at as int]@);
            episodes.set(at, episode);
            assert(episodes.deep_view() == before.update(at as int, episode@));
        } else {
            assert(at < before.len() ==> before[at as int] == episodes[at as int]@);
            episodes.insert(at, episode);
            assert(episodes.deep_view() == before.insert(at as int, episode@));
        }
        self.episodes = episodes;
    }

    /// The episodes of `episodes` in the order of their numbers. Where a
    /// number comes twice, the later episode stands.
    pub fn from_episodes(episodes: Vec<Episode>) -> (r: SortedEpisodes)
        ensures
            ascending(r@),
            forall|num: u32| last_numbered(r@, num) == last_numbered(episodes.deep_view(), num),
    {
        let mut sorted = SortedEpisodes::new();
        let ghost all = episodes.deep_view();
        assert(all.subrange(0, 0) == Seq::<EpisodeView>::empty());
        for episode in it: episodes
            invariant
                it.seq().len() == all.len(),
                forall|k: int| 0 <= k < all.len() ==> it.seq()[k]@ == all[k],
                ascending(sorted@),
                forall|num: u32|
                    last_numbered(sorted@, num) == last_numbered(
                        all.subrange(0, it.index() as int),
                        num,
                    ),
        {
            let ghost before = sorted@;
            let ghost upto = all.subrange(0, it.index() + 1);
            assert(upto.drop_last() == all.subrange(0, it.index() as int));
            assert(upto.last() == episode@);
            proof {
                assert forall|num: u32|
                    last_numbered(inserted(before, episode@), num) == last_numbered(
                        upto,
                        num,
                    ) by {
                    lemma_inserted(before, episode@, num);
                }
            }
            sorted.insert(episode);
        }
        assert(all.subrange(0, all.len() as int) == all);
        sorted
    }
}

/// The episodes of one category.
#[derive(Debug)]
pub struct Category {
    pub kind: SeriesKind,
    pub episodes: SortedEpisodes,
}

/// A `Category` with its episodes viewed.
pub ghost struct CategoryView {
    pub kind: SeriesKind,
    pub episodes: Seq<EpisodeView>,
}

impl View for Category {
    type V = CategoryView;

    open spec fn view(&self) -> CategoryView {
        CategoryView { kind: self.kind, episodes: self.episodes@ }
    }
}

impl DeepView for Category {
    type V = CategoryView;

    open spec fn deep_view(&self) -> CategoryView {
        self@
    }
}

/// The index of the category of the kind `kind` among `categories`.
pub open spec fn index_of_kind(categories: Seq<CategoryView>, kind: SeriesKind) -> Option<int>
    decreases categories.len(),
{
    if categories.len() == 0 {
        None
    } else if categories.last().kind == kind {
        Some(categories.len() - 1)
    } else {
        index_of_kind(categories.drop_last(), kind)
    }
}

/// Whether no two of `categories` are of one kind.
pub open spec fn distinct_kinds(categories: Seq<CategoryView>) -> bool {
    forall|i: int, j: int|
        0 <= i < j < categories.len() ==> categories[i].kind != categories[j].kind
}

/// `categories` with `episode` added to the category of the kind `kind`,
/// which is a new last one where there was none.
pub open spec fn added(
    categories: Seq<CategoryView>,
    kind: SeriesKind,
    episode: EpisodeView,
) -> Seq<CategoryView> {
    match index_of_kind(categories, kind) {
        Some(at) => categories.update(
            at,
            CategoryView { kind, episodes: inserted(categories[at].episodes, episode) },
        ),
        None => categories.push(CategoryView { kind, episodes: seq![episode] }),
    }
}

/// Where a kind is found, it is found at an index that holds it; where it is
/// not, no category is of that kind.
pub proof fn lemma_index_of_kind(categories: Seq<CategoryView>, kind: SeriesKind)
    ensures
        match index_of_kind(categories, kind) {
            Some(at) => 0 <= at < categories.len() && categories[at].kind == kind,
            None => forall|i: int| 0 <= i < categories.len() ==> categories[i].kind != kind,
        },
    decreases categories.len(),
{
    if categories.len() > 0 && categories.last().kind != kind {
        let front = categories.drop_last();
        lemma_index_of_kind(front, kind);
        if index_of_kind(front, kind) is None {
            assert forall|i: int| 0 <= i < categories.len() implies categories[i].kind
                != kind by {
                if i < front.len() {
                    assert(front[i] == categories[i]);
                }
            }
        }
    }
}

/// Among categories of distinct kinds, the one index that holds a kind is
/// where the kind is found.
pub proof fn lemma_index_of_kind_is(categories: Seq<CategoryView>, kind: SeriesKind, at: int)
    requires
        distinct_kinds(categories),
        0 <= at < categories.len(),
        categories[at].kind == kind,
    ensures
        index_of_kind(categories, kind) == Some(at),
{
    lemma_index_of_kind(categories, kind);
}

/// The local episodes of a series, by category. The categories stand in the
/// order in which their first episodes were added.
#[derive(Debug)]
pub struct CategorizedEpisodes {
    categories: Vec<Category>,
}

impl View for CategorizedEpisodes {
    type V = Seq<CategoryView>;

    closed spec fn view(&self) -> Seq<CategoryView> {
        self.categories.deep_view()
    }
}

impl CategorizedEpisodes {
    #[verifier::type_invariant]
    spec fn one_of_each_kind(self) -> bool {
        distinct_kinds(self.categories.deep_view())
    }

    /// No episodes at all.
    pub fn new() -> (r: CategorizedEpisodes)
        ensures
            r@ == Seq::<CategoryView>::empty(),
    {
        let categories: Vec<Category> = Vec::new();
        assert(categories.deep_view() == Seq::<CategoryView>::empty());
        CategorizedEpisodes { categories }
    }

    /// How many categories there are.
    pub fn len(&self) -> (r: usize)
        ensures
            r == self@.len(),
            distinct_kinds(self@),
    {
        proof {
            use_type_invariant(self);
        }
        self.categories.len()
    }

    /// The category at the index `at`.
    pub fn category(&self, at: usize) -> (r: &Category)
        requires
            at < self@.len(),
        ensures
            r@ == self@[at as int],
    {
        &self.categories[at]
    }

    /// The index of the category of the kind `kind`.
    fn position(&self, kind: SeriesKind) -> (r: Option<usize>)
        ensures
            distinct_kinds(self@),
            match r {
                Some(at) => index_of_kind(self@, kind) == Some(at as int) && at < self@.len()
                    && self@[at as int].kind == kind,
                None => index_of_kind(self@, kind) is None,
            },
    {
        proof {
            use_type_invariant(self);
            lemma_index_of_kind(self@, kind);
        }
        let mut i: usize = 0;
        while i < self.categories.len()
            invariant
                i <= self.categories.len(),
                self@ == self.categories.deep_view(),
                distinct_kinds(self@),
                forall|k: int| 0 <= k < i ==> self@[k].kind != kind,
            decreases self.categories.len() - i,
        {
            assert(self@[i as int] == self.categories[i as int]@);
            if self.categories[i].kind == kind {
                proof {
                    lemma_index_of_kind_is(self@, kind, i as int);
                }
                return Some(i);
            }
            i += 1;
        }
        None
    }

    /// The episodes of the category of the kind `kind`.
    pub fn get(&self, kind: SeriesKind) -> (r: Option<&SortedEpisodes>)
        ensures
            match index_of_kind(self@, kind) {
                Some(at) => r matches Some(episodes) && episodes@ == self@[at].episodes,
                None => r is None,
            },
    {
        match self.position(kind) {
            Some(at) => {
                assert(self@[at as int] == self.categories[at as int]@);
                Some(&self.categories[at].episodes)
            },
            None => None,
        }
    }

    /// Adds `episode` to the category of the kind `kind`.
    pub fn add(&mut self, kind: SeriesKind, episode: Episode)
        ensures
            final(self)@ == added(old(self)@, kind, episode@),
            distinct_kinds(final(self)@),
    {
        let found = self.position(kind);
        let ghost before = self@;
        let mut categories: Vec<Category> = Vec::new();
        assert(categories.deep_view() == Seq::<CategoryView>::empty());
        std::mem::swap(&mut self.categories, &mut categories);
        match found {
            Some(at) => {
                let mut category = categories.remove(at);
                assert(category@ == before[at as int]);
                category.episodes.insert(episode);
                categories.insert(at, category);
                assert(categories.deep_view() == before.update(at as int, category@));
            },
            None => {
                proof {
                    lemma_index_of_kind(before, kind);
                }
                let mut episodes = SortedEpisodes::new();
                episodes.insert(episode);
                assert(episodes@ == seq![episode@]);
                let category = Category { kind, episodes };
                categories.push(category);
                assert(categories.deep_view() == before.push(category@));
            },
        }
        self.categories = categories;
    }
}

} // verus!
