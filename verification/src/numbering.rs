//! How the lines of each episode are numbered after an import.

use crate::corpus::CorpusView;
use crate::dataset::{
    empty_dataset, episode_id_of, lemma_episode_slot, season_id_of, well_formed, with_episode,
    with_season, DatasetView,
};
use crate::importer::{after_episode, after_episodes, after_plan, after_seasons, import_outcome};
use crate::laws::{
    episode_key_list, episode_keys, episode_numbers, has_episode_key, is_row_of,
    lemma_after_episode, lemma_after_episodes, lemma_after_lines, lemma_after_season,
    lemma_after_seasons, lemma_episode_numbers_members, lemma_keys_with_episode,
    lemma_keys_with_season, lemma_lines_numbered_from_one, lemma_plan_episodes_members,
    plan_episodes,
};
use crate::models::LineView;
use crate::plan::{planned, EpisodePlanView, ImportPlanView, SeasonPlanView};
use vstd::prelude::*;

verus! {

/// The test for the lines of one episode.
pub open spec fn of_episode(episode_id: int) -> spec_fn(LineView) -> bool {
    |line: LineView| line.episode_id == episode_id
}

/// The lines of one episode, in the order of their ids.
pub open spec fn episode_rows(lines: Seq<LineView>, episode_id: int) -> Seq<LineView> {
    lines.filter(of_episode(episode_id))
}

/// The line numbers are 1, 2, 3 and so on, without a gap.
pub open spec fn numbered_from_one(rows: Seq<LineView>) -> bool {
    forall|t: int| 0 <= t < rows.len() ==> (#[trigger] rows[t]).line_number == t + 1
}

/// In every episode the line numbers run from 1 without a gap.
pub open spec fn every_episode_numbered(v: DatasetView) -> bool {
    forall|e: int| numbered_from_one(#[trigger] episode_rows(v.lines, e))
}

/// None of the first `k` episodes of the season of this number has a key
/// that is in `present` or that an earlier one of them has.
pub open spec fn new_episodes(
    present: Set<(i32, i32)>,
    number: i32,
    episodes: Seq<EpisodePlanView>,
    k: nat,
) -> bool
    decreases k,
{
    k > 0 ==> {
        &&& new_episodes(present, number, episodes, (k - 1) as nat)
        &&& !present.contains((number, episodes[k - 1].number))
        &&& !episode_numbers(number, episodes, (k - 1) as nat).contains(
            (number, episodes[k - 1].number),
        )
    }
}

/// No episode of the first `k` seasons has a key that is in `present` or
/// that an earlier episode of the plan has.
pub open spec fn new_in_plan(present: Set<(i32, i32)>, seasons: Seq<SeasonPlanView>, k: nat) -> bool
    decreases k,
{
    k > 0 ==> {
        &&& new_in_plan(present, seasons, (k - 1) as nat)
        &&& new_episodes(
            present + plan_episodes(seasons, (k - 1) as nat),
            seasons[k - 1].number,
            seasons[k - 1].episodes,
            seasons[k - 1].episodes.len(),
        )
    }
}

/// The number of episodes in the first `k` seasons of a plan.
pub open spec fn episodes_before(seasons: Seq<SeasonPlanView>, k: nat) -> nat
    decreases k,
{
    if k == 0 {
        0
    } else {
        episodes_before(seasons, (k - 1) as nat) + seasons[k - 1].episodes.len()
    }
}

proof fn lemma_rows_none(lines: Seq<LineView>, e: int)
    requires
        forall|i: int| 0 <= i < lines.len() ==> (#[trigger] lines[i]).episode_id != e,
    ensures
        episode_rows(lines, e) == Seq::<LineView>::empty(),
    decreases lines.len(),
{
    reveal(Seq::filter);
    if lines.len() > 0 {
        lemma_rows_none(lines.drop_last(), e);
        assert(!of_episode(e)(lines.last()));
    }
}

proof fn lemma_rows_all(lines: Seq<LineView>, e: int)
    requires
        forall|i: int| 0 <= i < lines.len() ==> (#[trigger] lines[i]).episode_id == e,
    ensures
        episode_rows(lines, e) == lines,
    decreases lines.len(),
{
    reveal(Seq::filter);
    if lines.len() > 0 {
        lemma_rows_all(lines.drop_last(), e);
        assert(of_episode(e)(lines.last()));
        assert(lines.drop_last().push(lines.last()) =~= lines);
    }
}

/// Where the lines of `w` are those of `v` and then lines of the episode
/// `id` alone, the rows of that episode are its old rows and then the new
/// lines, and the rows of every other episode are as they were.
proof fn lemma_rows_after_block(v: Seq<LineView>, w: Seq<LineView>, id: int, e: int)
    requires
        v.len() <= w.len(),
        w.subrange(0, v.len() as int) == v,
        forall|t: int| v.len() <= t < w.len() ==> (#[trigger] w[t]).episode_id == id,
    ensures
        e != id ==> episode_rows(w, e) == episode_rows(v, e),
        e == id ==> episode_rows(w, e) == episode_rows(v, e) + w.subrange(
            v.len() as int,
            w.len() as int,
        ),
{
    let tail = w.subrange(v.len() as int, w.len() as int);
    assert(w =~= v + tail);
    Seq::filter_distributes_over_add(v, tail, of_episode(e));
    if e == id {
        lemma_rows_all(tail, e);
    } else {
        lemma_rows_none(tail, e);
        assert(episode_rows(v, e) + Seq::<LineView>::empty() =~= episode_rows(v, e));
    }
}

/// An episode whose key the dataset lacks gets the next row, and its lines,
/// numbered from 1, are all the lines of that row. Every other episode
/// keeps its lines.
pub proof fn lemma_new_episode_numbered(v: DatasetView, season_id: i64, episode: EpisodePlanView)
    requires
        well_formed(v),
        every_episode_numbered(v),
        after_episode(v, season_id, episode) is Some,
        1 <= season_id <= v.seasons.len() ==> !episode_keys(v).contains(
            (v.seasons[season_id - 1].number, episode.number),
        ),
    ensures
        ({
            let w = after_episode(v, season_id, episode)->0;
            let id = (v.episodes.len() + 1) as int;
            &&& well_formed(w)
            &&& every_episode_numbered(w)
            &&& w.seasons == v.seasons
            &&& w.episodes.len() == id
            &&& w.episodes.subrange(0, v.episodes.len() as int) == v.episodes
            &&& w.episodes[id - 1].season_id == season_id
            &&& w.episodes[id - 1].number == episode.number
            &&& episode_rows(w.lines, id).len() == episode.lines.len()
            &&& forall|e: int| e != id ==> episode_rows(w.lines, e) == episode_rows(v.lines, e)
        }),
{
    let w = after_episode(v, season_id, episode)->0;
    let id = (v.episodes.len() + 1) as int;
    lemma_after_episode(v, season_id, episode);
    lemma_keys_with_episode(v, season_id, episode.number, episode.title);
    lemma_episode_slot(v.episodes, season_id, episode.number, 0);
    let m = with_episode(v, season_id, episode.number, episode.title)->0;
    let key = (v.seasons[season_id - 1].number, episode.number);
    let p = episode_id_of(v, season_id, episode.number) - 1;
    if p < v.episodes.len() {
        assert(episode_key_list(v)[p] == key);
        assert(episode_key_list(v).to_set().contains(key));
    }
    assert(p == v.episodes.len());
    let n = episode.lines.len();
    lemma_after_lines(m, season_id, id as i64, episode.lines, n);
    lemma_lines_numbered_from_one(m, season_id, id as i64, episode.lines, n);
    assert(m.lines == v.lines);
    assert(w.episodes == m.episodes);
    assert(w.episodes.subrange(0, v.episodes.len() as int) =~= v.episodes);
    assert forall|t: int| v.lines.len() <= t < w.lines.len() implies (#[trigger] w.lines[t]).episode_id
        == id by {
        let u = t - v.lines.len();
        assert(is_row_of(w.lines[v.lines.len() + u], season_id, id as i64, episode.lines[u], u + 1));
    }
    lemma_rows_none(v.lines, id as int);
    let tail = w.lines.subrange(v.lines.len() as int, w.lines.len() as int);
    assert forall|e: int| numbered_from_one(#[trigger] episode_rows(w.lines, e)) by {
        lemma_rows_after_block(v.lines, w.lines, id as int, e);
        if e == id {
            assert(episode_rows(w.lines, e) =~= tail);
            assert forall|t: int| 0 <= t < tail.len() implies (#[trigger] tail[t]).line_number == t
                + 1 by {
                assert(is_row_of(
                    w.lines[v.lines.len() + t],
                    season_id,
                    id as i64,
                    episode.lines[t],
                    t + 1,
                ));
            }
        } else {
            assert(numbered_from_one(episode_rows(v.lines, e)));
        }
    }
    assert forall|e: int| e != id implies episode_rows(w.lines, e) == episode_rows(v.lines, e) by {
        lemma_rows_after_block(v.lines, w.lines, id as int, e);
    }
    lemma_rows_after_block(v.lines, w.lines, id as int, id as int);
    assert(episode_rows(w.lines, id as int) =~= tail);
}

/// What holds of the episode rows once the first `k` episodes of a season,
/// all of them new, are imported into `v`.
pub open spec fn episodes_laid_out(
    v: DatasetView,
    w: DatasetView,
    season_id: i64,
    episodes: Seq<EpisodePlanView>,
    k: nat,
) -> bool {
    &&& well_formed(w)
    &&& every_episode_numbered(w)
    &&& w.seasons == v.seasons
    &&& w.episodes.len() == v.episodes.len() + k
    &&& w.episodes.subrange(0, v.episodes.len() as int) == v.episodes
    &&& forall|j: int|
        0 <= j < k ==> {
            &&& (#[trigger] w.episodes[v.episodes.len() + j]).season_id == season_id
            &&& w.episodes[v.episodes.len() + j].number == episodes[j].number
            &&& episode_rows(w.lines, v.episodes.len() + j + 1).len() == episodes[j].lines.len()
        }
    &&& forall|e: int|
        e <= v.episodes.len() ==> #[trigger] episode_rows(w.lines, e) == episode_rows(v.lines, e)
}

/// The episodes of one season, all of them new, get the next rows in their
/// order, each with the lines of its file, numbered from 1.
pub proof fn lemma_new_episodes_numbered(
    v: DatasetView,
    season_id: i64,
    episodes: Seq<EpisodePlanView>,
    k: nat,
)
    requires
        well_formed(v),
        every_episode_numbered(v),
        1 <= season_id <= v.seasons.len(),
        k <= episodes.len(),
        after_episodes(v, season_id, episodes, k) is Some,
        new_episodes(episode_keys(v), v.seasons[season_id - 1].number, episodes, k),
    ensures
        episodes_laid_out(v, after_episodes(v, season_id, episodes, k)->0, season_id, episodes, k),
    decreases k,
{
    let w = after_episodes(v, season_id, episodes, k)->0;
    if k == 0 {
        assert(w.episodes.subrange(0, v.episodes.len() as int) =~= v.episodes);
    } else {
        let m = after_episodes(v, season_id, episodes, (k - 1) as nat)->0;
        let number = v.seasons[season_id - 1].number;
        lemma_new_episodes_numbered(v, season_id, episodes, (k - 1) as nat);
        lemma_after_episodes(v, season_id, episodes, (k - 1) as nat);
        assert(episode_keys(m) == episode_keys(v) + episode_numbers(
            number,
            episodes,
            (k - 1) as nat,
        ));
        lemma_new_episode_numbered(m, season_id, episodes[k - 1]);
        let base = v.episodes.len();
        assert(w.episodes.subrange(0, base as int) =~= v.episodes) by {
            assert forall|q: int| 0 <= q < base implies w.episodes[q] == v.episodes[q] by {
                assert(w.episodes.subrange(0, m.episodes.len() as int)[q] == m.episodes[q]);
                assert(m.episodes.subrange(0, base as int)[q] == v.episodes[q]);
            }
        }
        assert forall|j: int| 0 <= j < k implies {
            &&& (#[trigger] w.episodes[base + j]).season_id == season_id
            &&& w.episodes[base + j].number == episodes[j].number
            &&& episode_rows(w.lines, base + j + 1).len() == episodes[j].lines.len()
        } by {
            if j < k - 1 {
                assert(w.episodes.subrange(0, m.episodes.len() as int)[base + j]
                    == m.episodes[base + j]);
                assert(episode_rows(w.lines, base + j + 1) == episode_rows(m.lines, base + j + 1));
            }
        }
        assert forall|e: int| e <= base implies #[trigger] episode_rows(w.lines, e) == episode_rows(
            v.lines,
            e,
        ) by {
            assert(episode_rows(w.lines, e) == episode_rows(m.lines, e));
        }
    }
}

/// What holds of the episode rows once the first `k` seasons of a plan,
/// all their episodes new, are imported into `v`: the episodes have the
/// rows behind those of `v`, in the order of the plan, and each has as many
/// lines as its file.
pub open spec fn plan_laid_out(
    v: DatasetView,
    w: DatasetView,
    seasons: Seq<SeasonPlanView>,
    k: nat,
) -> bool {
    &&& well_formed(w)
    &&& every_episode_numbered(w)
    &&& v.seasons.len() <= w.seasons.len()
    &&& w.seasons.subrange(0, v.seasons.len() as int) == v.seasons
    &&& w.episodes.len() == v.episodes.len() + episodes_before(seasons, k)
    &&& w.episodes.subrange(0, v.episodes.len() as int) == v.episodes
    &&& forall|i: int, j: int|
        0 <= i < k && 0 <= j < seasons[i].episodes.len() ==> {
            let row = #[trigger] w.episodes[v.episodes.len() + episodes_before(seasons, i as nat)
                + j];
            &&& w.seasons[row.season_id - 1].number == seasons[i].number
            &&& row.number == seasons[i].episodes[j].number
            &&& episode_rows(w.lines, row.id as int).len() == seasons[i].episodes[j].lines.len()
        }
    &&& forall|e: int|
        e <= v.episodes.len() ==> #[trigger] episode_rows(w.lines, e) == episode_rows(v.lines, e)
}

proof fn lemma_episodes_before_grows(seasons: Seq<SeasonPlanView>, i: nat, k: nat)
    requires
        i <= k,
    ensures
        episodes_before(seasons, i) <= episodes_before(seasons, k),
        i < k ==> episodes_before(seasons, i) + seasons[i as int].episodes.len() <= episodes_before(
            seasons,
            k,
        ),
    decreases k - i,
{
    if i < k {
        lemma_episodes_before_grows(seasons, i, (k - 1) as nat);
    }
}

/// The episodes of the first `k` seasons of a plan, all of them new, get
/// the next rows in the order of the plan, each with the lines of its file,
/// numbered from 1.
pub proof fn lemma_new_plan_numbered(v: DatasetView, seasons: Seq<SeasonPlanView>, k: nat)
    requires
        well_formed(v),
        every_episode_numbered(v),
        k <= seasons.len(),
        after_seasons(v, seasons, k) is Some,
        new_in_plan(episode_keys(v), seasons, k),
    ensures
        plan_laid_out(v, after_seasons(v, seasons, k)->0, seasons, k),
    decreases k,
{
    let w = after_seasons(v, seasons, k)->0;
    if k == 0 {
        assert(w.seasons.subrange(0, v.seasons.len() as int) =~= v.seasons);
        assert(w.episodes.subrange(0, v.episodes.len() as int) =~= v.episodes);
    } else {
        let m = after_seasons(v, seasons, (k - 1) as nat)->0;
        let season = seasons[k - 1];
        lemma_new_plan_numbered(v, seasons, (k - 1) as nat);
        lemma_after_seasons(v, seasons, (k - 1) as nat);
        assert(episode_keys(m) == episode_keys(v) + plan_episodes(seasons, (k - 1) as nat));
        lemma_keys_with_season(m, season.number);
        let r = with_season(m, season.number)->0;
        let sid = season_id_of(m, season.number) as i64;
        assert(r.lines == m.lines);
        assert(every_episode_numbered(r));
        lemma_new_episodes_numbered(r, sid, season.episodes, season.episodes.len());
        lemma_after_season(m, season);
        let base = v.episodes.len();
        let before = episodes_before(seasons, (k - 1) as nat);
        assert(r.episodes == m.episodes);
        assert(m.episodes.len() == base + before);
        assert(w.seasons.subrange(0, v.seasons.len() as int) =~= v.seasons) by {
            assert forall|q: int| 0 <= q < v.seasons.len() implies w.seasons[q]
                == v.seasons[q] by {
                assert(m.seasons.subrange(0, v.seasons.len() as int)[q] == v.seasons[q]);
            }
        }
        assert(w.episodes.subrange(0, base as int) =~= v.episodes) by {
            assert forall|q: int| 0 <= q < base implies w.episodes[q] == v.episodes[q] by {
                assert(w.episodes.subrange(0, m.episodes.len() as int)[q] == m.episodes[q]);
                assert(m.episodes.subrange(0, base as int)[q] == v.episodes[q]);
            }
        }
        assert forall|i: int, j: int| 0 <= i < k && 0 <= j < seasons[i].episodes.len() implies {
            let row = #[trigger] w.episodes[base + episodes_before(seasons, i as nat) + j];
            &&& w.seasons[row.season_id - 1].number == seasons[i].number
            &&& row.number == seasons[i].episodes[j].number
            &&& episode_rows(w.lines, row.id as int).len() == seasons[i].episodes[j].lines.len()
        } by {
            let q = base + episodes_before(seasons, i as nat) + j;
            if i < k - 1 {
                lemma_episodes_before_grows(seasons, i as nat, (k - 1) as nat);
                assert(q < m.episodes.len());
                assert(w.episodes.subrange(0, m.episodes.len() as int)[q] == m.episodes[q]);
                let row = m.episodes[q];
                assert(row.id == q + 1);
                assert(1 <= row.season_id <= m.seasons.len());
                assert(episode_rows(w.lines, q + 1) == episode_rows(r.lines, q + 1));
            } else {
                assert(q == r.episodes.len() + j);
                let row = w.episodes[r.episodes.len() + j];
                assert(row.season_id == sid);
                assert(row.id == q + 1);
            }
        }
        assert forall|e: int| e <= base implies #[trigger] episode_rows(w.lines, e) == episode_rows(
            v.lines,
            e,
        ) by {
            assert(episode_rows(w.lines, e) == episode_rows(r.lines, e));
            assert(episode_rows(m.lines, e) == episode_rows(v.lines, e));
        }
    }
}

/// After the import of a plan in which no episode key occurs twice, into a
/// dataset in which every episode is numbered from 1 and which has none of
/// these keys, the line numbers of every episode are 1 to N without a gap,
/// and for each episode of the plan N is the number of lines of its file.
pub proof fn lemma_import_numbers_lines(v: DatasetView, plan: ImportPlanView)
    requires
        well_formed(v),
        every_episode_numbered(v),
        new_in_plan(episode_keys(v), plan.seasons, plan.seasons.len()),
        after_plan(v, plan) is Some,
    ensures
        every_episode_numbered(after_plan(v, plan)->0),
        plan_laid_out(v, after_plan(v, plan)->0, plan.seasons, plan.seasons.len()),
{
    lemma_new_plan_numbered(v, plan.seasons, plan.seasons.len());
}

/// The key of episode `j` of season `i` of a plan.
pub open spec fn episode_key_at(seasons: Seq<SeasonPlanView>, i: int, j: int) -> (i32, i32) {
    (seasons[i].number, seasons[i].episodes[j].number)
}

/// No two episodes of the plan carry the same season number and episode
/// number.
pub open spec fn no_episode_twice(seasons: Seq<SeasonPlanView>) -> bool {
    forall|i: int, j: int, a: int, b: int|
        0 <= i < seasons.len() && 0 <= j < seasons[i].episodes.len() && 0 <= a < seasons.len() && 0
            <= b < seasons[a].episodes.len() && (i != a || j != b) ==> #[trigger] episode_key_at(
            seasons,
            i,
            j,
        ) != #[trigger] episode_key_at(seasons, a, b)
}

proof fn lemma_no_twice_new_episodes(seasons: Seq<SeasonPlanView>, k: nat, m: nat)
    requires
        no_episode_twice(seasons),
        1 <= k <= seasons.len(),
        m <= seasons[k - 1].episodes.len(),
    ensures
        new_episodes(
            Set::<(i32, i32)>::empty() + plan_episodes(seasons, (k - 1) as nat),
            seasons[k - 1].number,
            seasons[k - 1].episodes,
            m,
        ),
    decreases m,
{
    if m > 0 {
        lemma_no_twice_new_episodes(seasons, k, (m - 1) as nat);
        let season = seasons[k - 1];
        let key = episode_key_at(seasons, k - 1, m - 1);
        lemma_plan_episodes_members(seasons, (k - 1) as nat, key);
        if plan_episodes(seasons, (k - 1) as nat).contains(key) {
            let (i, j) = choose|i: int, j: int|
                0 <= i < k - 1 && #[trigger] has_episode_key(seasons, i, j, key);
            assert(episode_key_at(seasons, i, j) == episode_key_at(seasons, k - 1, m - 1));
        }
        lemma_episode_numbers_members(season.number, season.episodes, (m - 1) as nat, key);
        if episode_numbers(season.number, season.episodes, (m - 1) as nat).contains(key) {
            let j = choose|j: int|
                0 <= j < m - 1 && (#[trigger] season.episodes[j]).number == key.1;
            assert(episode_key_at(seasons, k - 1, j) == episode_key_at(seasons, k - 1, m - 1));
        }
    }
}

/// In a plan without an episode key twice, every episode is new to a
/// dataset without rows and to the episodes before it.
pub proof fn lemma_no_twice_is_new(seasons: Seq<SeasonPlanView>, k: nat)
    requires
        no_episode_twice(seasons),
        k <= seasons.len(),
    ensures
        new_in_plan(Set::empty(), seasons, k),
    decreases k,
{
    if k > 0 {
        lemma_no_twice_is_new(seasons, (k - 1) as nat);
        lemma_no_twice_new_episodes(seasons, k, seasons[k - 1].episodes.len());
    }
}

/// After the import of a corpus into a dataset without rows, the line
/// numbers of every episode are 1 to N without a gap, where N is the number
/// of lines of the episode's file, provided that no two files of the corpus
/// carry the same season number and episode number.
pub proof fn lemma_fresh_import_numbers_lines(corpus: CorpusView)
    requires
        import_outcome(empty_dataset(), corpus) is Ok,
        no_episode_twice(planned(corpus)->Ok_0.seasons),
    ensures
        ({
            let plan = planned(corpus)->Ok_0;
            let w = import_outcome(empty_dataset(), corpus)->Ok_0;
            &&& every_episode_numbered(w)
            &&& plan_laid_out(empty_dataset(), w, plan.seasons, plan.seasons.len())
        }),
{
    let v = empty_dataset();
    let plan = planned(corpus)->Ok_0;
    assert(episode_key_list(v) =~= Seq::empty());
    assert(episode_keys(v) =~= Set::empty());
    assert forall|e: int| numbered_from_one(#[trigger] episode_rows(v.lines, e)) by {
        lemma_rows_none(v.lines, e);
    }
    lemma_no_twice_is_new(plan.seasons, plan.seasons.len());
    lemma_import_numbers_lines(v, plan);
}

} // verus!
