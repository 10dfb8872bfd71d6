//! What holds of every import: which natural keys a dataset has afterwards,
//! how many rows, and how the lines of an episode are numbered.

use crate::classify::{episode_number_of, is_episode_entry, season_number_of};
use crate::corpus::CorpusView;
use crate::dataset::{
    empty_dataset, episode_id_of, lemma_episode_slot, lemma_season_slot, lemma_speaker_slot,
    season_id_of, speaker_id_of, well_formed, with_episode, with_line, with_season, with_speaker,
    DatasetView,
};
use crate::importer::{
    after_episode, after_episodes, after_line, after_lines, after_plan, after_season,
    after_seasons, import_outcome,
};
use crate::models::{EpisodeView, LineView, Season, SpeakerView};
use crate::plan::{
    episode_plans, planned, season_plans, EpisodePlanView, ImportPlanView, SeasonPlanView,
};
use crate::splitter::SplitLineView;
use vstd::prelude::*;

verus! {

/// The season numbers of a dataset, row by row.
pub open spec fn season_key_list(v: DatasetView) -> Seq<i32> {
    v.seasons.map_values(|s: Season| s.number)
}

/// The natural key of an episode row: the number of its season and its
/// own.
pub open spec fn episode_key(seasons: Seq<Season>, e: EpisodeView) -> (i32, i32) {
    (seasons[e.season_id - 1].number, e.number)
}

/// The natural keys of the episodes of a dataset, row by row.
pub open spec fn episode_key_list(v: DatasetView) -> Seq<(i32, i32)> {
    v.episodes.map_values(|e: EpisodeView| episode_key(v.seasons, e))
}

/// The speaker names of a dataset, row by row.
pub open spec fn speaker_key_list(v: DatasetView) -> Seq<Seq<char>> {
    v.speakers.map_values(|s: SpeakerView| s.name)
}

/// The season numbers that a dataset holds.
pub open spec fn season_keys(v: DatasetView) -> Set<i32> {
    season_key_list(v).to_set()
}

/// The pairs of season number and episode number that a dataset holds.
pub open spec fn episode_keys(v: DatasetView) -> Set<(i32, i32)> {
    episode_key_list(v).to_set()
}

/// The speaker names that a dataset holds.
pub open spec fn speaker_keys(v: DatasetView) -> Set<Seq<char>> {
    speaker_key_list(v).to_set()
}

/// A well-formed dataset has one row for each natural key.
pub proof fn lemma_one_row_per_key(v: DatasetView)
    requires
        well_formed(v),
    ensures
        v.seasons.len() == season_keys(v).len(),
        v.episodes.len() == episode_keys(v).len(),
        v.speakers.len() == speaker_keys(v).len(),
{
    let s = season_key_list(v);
    assert(s.no_duplicates());
    s.unique_seq_to_set();
    let e = episode_key_list(v);
    assert forall|i: int, j: int| 0 <= i < e.len() && 0 <= j < e.len() && i != j implies e[i]
        != e[j] by {
        let a = v.episodes[i];
        let b = v.episodes[j];
        if a.season_id != b.season_id {
            let x = a.season_id - 1;
            let y = b.season_id - 1;
            assert(v.seasons[x].number != v.seasons[y].number);
        }
    }
    e.unique_seq_to_set();
    let p = speaker_key_list(v);
    assert(p.no_duplicates());
    p.unique_seq_to_set();
}

/// Resolving a season adds its number to the keys and changes nothing
/// else.
pub proof fn lemma_keys_with_season(v: DatasetView, number: i32)
    requires
        well_formed(v),
        with_season(v, number) is Some,
    ensures
        ({
            let w = with_season(v, number)->0;
            &&& well_formed(w)
            &&& season_keys(w) == season_keys(v).insert(number)
            &&& episode_keys(w) == episode_keys(v)
            &&& w.episodes == v.episodes
            &&& w.speakers == v.speakers
            &&& w.lines == v.lines
            &&& 1 <= season_id_of(v, number) <= w.seasons.len()
            &&& w.seasons[season_id_of(v, number) - 1].number == number
            &&& v.seasons.len() <= w.seasons.len()
            &&& forall|i: int| 0 <= i < v.seasons.len() ==> w.seasons[i] == v.seasons[i]
        }),
{
    let w = with_season(v, number)->0;
    crate::dataset::lemma_with_season_ok(v, number);
    lemma_season_slot(v.seasons, number, 0);
    let p = season_id_of(v, number) - 1;
    let keys = season_key_list(v);
    if p < v.seasons.len() {
        assert(keys[p] == number);
        assert(keys.to_set().contains(number));
        assert(season_keys(v).insert(number) =~= season_keys(v));
    } else {
        assert(season_key_list(w) =~= keys.push(number));
        keys.lemma_push_to_set_commute(number);
        assert(episode_key_list(w) =~= episode_key_list(v));
    }
}

/// Resolving an episode adds its key and changes no other table.
pub proof fn lemma_keys_with_episode(v: DatasetView, season_id: i64, number: i32, title: Seq<char>)
    requires
        well_formed(v),
        with_episode(v, season_id, number, title) is Some,
    ensures
        ({
            let w = with_episode(v, season_id, number, title)->0;
            let id = episode_id_of(v, season_id, number);
            &&& well_formed(w)
            &&& 1 <= season_id <= v.seasons.len()
            &&& episode_keys(w) == episode_keys(v).insert(
                (v.seasons[season_id - 1].number, number),
            )
            &&& w.seasons == v.seasons
            &&& w.speakers == v.speakers
            &&& w.lines == v.lines
            &&& 1 <= id <= w.episodes.len()
            &&& w.episodes[id - 1].season_id == season_id
            &&& w.episodes[id - 1].number == number
            &&& v.episodes.len() <= w.episodes.len()
        }),
{
    let w = with_episode(v, season_id, number, title)->0;
    crate::dataset::lemma_with_episode_ok(v, season_id, number, title);
    lemma_episode_slot(v.episodes, season_id, number, 0);
    let p = episode_id_of(v, season_id, number) - 1;
    let keys = episode_key_list(v);
    let key = (v.seasons[season_id - 1].number, number);
    if p < v.episodes.len() {
        assert(keys[p] == key);
        assert(keys.to_set().contains(key));
        assert(episode_keys(v).insert(key) =~= episode_keys(v));
        assert(episode_key_list(w) =~= keys);
    } else {
        assert(episode_key_list(w) =~= keys.push(key));
        keys.lemma_push_to_set_commute(key);
    }
}

/// Resolving a speaker adds the name to the keys and changes nothing else.
pub proof fn lemma_keys_with_speaker(v: DatasetView, name: Seq<char>)
    requires
        well_formed(v),
        with_speaker(v, name) is Some,
    ensures
        ({
            let w = with_speaker(v, name)->0;
            &&& well_formed(w)
            &&& speaker_keys(w) == speaker_keys(v).insert(name)
            &&& w.seasons == v.seasons
            &&& w.episodes == v.episodes
            &&& w.lines == v.lines
            &&& 1 <= speaker_id_of(v, name) <= w.speakers.len()
            &&& w.speakers[speaker_id_of(v, name) - 1].name == name
        }),
{
    let w = with_speaker(v, name)->0;
    crate::dataset::lemma_with_speaker_ok(v, name);
    lemma_speaker_slot(v.speakers, name, 0);
    let p = speaker_id_of(v, name) - 1;
    let keys = speaker_key_list(v);
    if p < v.speakers.len() {
        assert(keys[p] == name);
        assert(keys.to_set().contains(name));
        assert(speaker_keys(v).insert(name) =~= speaker_keys(v));
    } else {
        assert(speaker_key_list(w) =~= keys.push(name));
        keys.lemma_push_to_set_commute(name);
    }
}

/// The speaker of a line, as a set: empty for a line without one.
pub open spec fn speaker_of(line: SplitLineView) -> Set<Seq<char>> {
    match line.speaker {
        Some(name) => set![name],
        None => Set::empty(),
    }
}

/// The speakers of the first `k` lines.
pub open spec fn line_speakers(lines: Seq<SplitLineView>, k: nat) -> Set<Seq<char>>
    decreases k,
{
    if k == 0 {
        Set::empty()
    } else {
        line_speakers(lines, (k - 1) as nat) + speaker_of(lines[k - 1])
    }
}

/// The speakers of the first `k` episodes.
pub open spec fn episode_speakers(episodes: Seq<EpisodePlanView>, k: nat) -> Set<Seq<char>>
    decreases k,
{
    if k == 0 {
        Set::empty()
    } else {
        episode_speakers(episodes, (k - 1) as nat) + line_speakers(
            episodes[k - 1].lines,
            episodes[k - 1].lines.len(),
        )
    }
}

/// The speaker names that occur in the first `k` seasons of a plan.
pub open spec fn plan_speakers(seasons: Seq<SeasonPlanView>, k: nat) -> Set<Seq<char>>
    decreases k,
{
    if k == 0 {
        Set::empty()
    } else {
        plan_speakers(seasons, (k - 1) as nat) + episode_speakers(
            seasons[k - 1].episodes,
            seasons[k - 1].episodes.len(),
        )
    }
}

/// The keys of the first `k` episodes of the season of this number.
pub open spec fn episode_numbers(number: i32, episodes: Seq<EpisodePlanView>, k: nat) -> Set<
    (i32, i32),
>
    decreases k,
{
    if k == 0 {
        Set::empty()
    } else {
        episode_numbers(number, episodes, (k - 1) as nat).insert((number, episodes[k - 1].number))
    }
}

/// The episode keys that occur in the first `k` seasons of a plan.
pub open spec fn plan_episodes(seasons: Seq<SeasonPlanView>, k: nat) -> Set<(i32, i32)>
    decreases k,
{
    if k == 0 {
        Set::empty()
    } else {
        plan_episodes(seasons, (k - 1) as nat) + episode_numbers(
            seasons[k - 1].number,
            seasons[k - 1].episodes,
            seasons[k - 1].episodes.len(),
        )
    }
}

/// The season numbers that occur in the first `k` seasons of a plan.
pub open spec fn plan_seasons(seasons: Seq<SeasonPlanView>, k: nat) -> Set<i32>
    decreases k,
{
    if k == 0 {
        Set::empty()
    } else {
        plan_seasons(seasons, (k - 1) as nat).insert(seasons[k - 1].number)
    }
}

/// The number of lines in the first `k` episodes.
pub open spec fn episode_lines(episodes: Seq<EpisodePlanView>, k: nat) -> nat
    decreases k,
{
    if k == 0 {
        0
    } else {
        episode_lines(episodes, (k - 1) as nat) + episodes[k - 1].lines.len()
    }
}

/// The number of lines in the first `k` seasons of a plan.
pub open spec fn plan_lines(seasons: Seq<SeasonPlanView>, k: nat) -> nat
    decreases k,
{
    if k == 0 {
        0
    } else {
        plan_lines(seasons, (k - 1) as nat) + episode_lines(
            seasons[k - 1].episodes,
            seasons[k - 1].episodes.len(),
        )
    }
}

/// `w` is `v` with these keys and this many lines more, and with the
/// seasons of `v` in their places.
pub open spec fn grown_by(
    v: DatasetView,
    w: DatasetView,
    seasons: Set<i32>,
    episodes: Set<(i32, i32)>,
    speakers: Set<Seq<char>>,
    lines: nat,
) -> bool {
    &&& well_formed(w)
    &&& season_keys(w) == season_keys(v) + seasons
    &&& episode_keys(w) == episode_keys(v) + episodes
    &&& speaker_keys(w) == speaker_keys(v) + speakers
    &&& w.lines.len() == v.lines.len() + lines
    &&& v.seasons.len() <= w.seasons.len()
    &&& forall|i: int| 0 <= i < v.seasons.len() ==> w.seasons[i] == v.seasons[i]
}

/// The episode keys of a dataset do not change while its seasons and
/// episodes stay.
proof fn lemma_same_episode_keys(v: DatasetView, w: DatasetView)
    requires
        w.seasons == v.seasons,
        w.episodes == v.episodes,
    ensures
        episode_keys(w) == episode_keys(v),
        season_keys(w) == season_keys(v),
{
    assert(episode_key_list(w) =~= episode_key_list(v));
}

/// Storing one line adds its speaker to the keys and one line to the
/// lines.
pub proof fn lemma_after_line(
    v: DatasetView,
    season_id: i64,
    episode_id: i64,
    line: SplitLineView,
    number: int,
)
    requires
        well_formed(v),
        after_line(v, season_id, episode_id, line, number) is Some,
    ensures
        ({
            let w = after_line(v, season_id, episode_id, line, number)->0;
            &&& grown_by(v, w, Set::empty(), Set::empty(), speaker_of(line), 1)
            &&& w.seasons == v.seasons
            &&& w.episodes == v.episodes
        }),
{
    let w = after_line(v, season_id, episode_id, line, number)->0;
    match line.speaker {
        None => {
            crate::dataset::lemma_with_line_ok(
                v,
                season_id,
                episode_id,
                None,
                number as i32,
                line.content,
            );
            assert(speaker_key_list(w) =~= speaker_key_list(v));
        },
        Some(name) => {
            lemma_keys_with_speaker(v, name);
            let m = with_speaker(v, name)->0;
            let id = Some(speaker_id_of(v, name) as i64);
            crate::dataset::lemma_with_line_ok(
                m,
                season_id,
                episode_id,
                id,
                number as i32,
                line.content,
            );
            assert(speaker_key_list(w) =~= speaker_key_list(m));
            assert(speaker_keys(v).insert(name) =~= speaker_keys(v) + set![name]);
        },
    }
    lemma_same_episode_keys(v, w);
    assert(season_keys(v) + Set::<i32>::empty() =~= season_keys(v));
    assert(episode_keys(v) + Set::<(i32, i32)>::empty() =~= episode_keys(v));
    assert(speaker_keys(v) + Set::<Seq<char>>::empty() =~= speaker_keys(v));
}

/// Storing the first `k` lines of an episode adds their speakers and `k`
/// lines.
pub proof fn lemma_after_lines(
    v: DatasetView,
    season_id: i64,
    episode_id: i64,
    lines: Seq<SplitLineView>,
    k: nat,
)
    requires
        well_formed(v),
        after_lines(v, season_id, episode_id, lines, k) is Some,
    ensures
        ({
            let w = after_lines(v, season_id, episode_id, lines, k)->0;
            &&& grown_by(v, w, Set::empty(), Set::empty(), line_speakers(lines, k), k)
            &&& w.seasons == v.seasons
            &&& w.episodes == v.episodes
        }),
    decreases k,
{
    if k == 0 {
        assert(season_keys(v) + Set::<i32>::empty() =~= season_keys(v));
        assert(episode_keys(v) + Set::<(i32, i32)>::empty() =~= episode_keys(v));
        assert(speaker_keys(v) + Set::<Seq<char>>::empty() =~= speaker_keys(v));
    } else {
        let m = after_lines(v, season_id, episode_id, lines, (k - 1) as nat)->0;
        lemma_after_lines(v, season_id, episode_id, lines, (k - 1) as nat);
        lemma_after_line(m, season_id, episode_id, lines[k - 1], k as int);
        let w = after_lines(v, season_id, episode_id, lines, k)->0;
        assert(speaker_keys(w) =~= speaker_keys(v) + line_speakers(lines, k));
        assert(season_keys(w) =~= season_keys(v) + Set::<i32>::empty());
        assert(episode_keys(w) =~= episode_keys(v) + Set::<(i32, i32)>::empty());
    }
}

/// Importing one episode adds its key, the speakers of its lines, and its
/// lines.
pub proof fn lemma_after_episode(v: DatasetView, season_id: i64, episode: EpisodePlanView)
    requires
        well_formed(v),
        after_episode(v, season_id, episode) is Some,
    ensures
        ({
            let w = after_episode(v, season_id, episode)->0;
            &&& 1 <= season_id <= v.seasons.len()
            &&& grown_by(
                v,
                w,
                Set::empty(),
                set![(v.seasons[season_id - 1].number, episode.number)],
                line_speakers(episode.lines, episode.lines.len()),
                episode.lines.len(),
            )
            &&& w.seasons == v.seasons
        }),
{
    let w = after_episode(v, season_id, episode)->0;
    lemma_keys_with_episode(v, season_id, episode.number, episode.title);
    let m = with_episode(v, season_id, episode.number, episode.title)->0;
    let id = episode_id_of(v, season_id, episode.number) as i64;
    lemma_after_lines(m, season_id, id, episode.lines, episode.lines.len());
    let key = (v.seasons[season_id - 1].number, episode.number);
    assert(speaker_key_list(m) =~= speaker_key_list(v));
    assert(season_key_list(m) =~= season_key_list(v));
    assert(episode_keys(w) =~= episode_keys(v) + set![key]);
    assert(season_keys(w) =~= season_keys(v) + Set::<i32>::empty());
}

/// Importing the first `k` episodes of a season adds their keys, the
/// speakers of their lines, and their lines.
pub proof fn lemma_after_episodes(
    v: DatasetView,
    season_id: i64,
    episodes: Seq<EpisodePlanView>,
    k: nat,
)
    requires
        well_formed(v),
        1 <= season_id <= v.seasons.len(),
        after_episodes(v, season_id, episodes, k) is Some,
    ensures
        ({
            let w = after_episodes(v, season_id, episodes, k)->0;
            &&& grown_by(
                v,
                w,
                Set::empty(),
                episode_numbers(v.seasons[season_id - 1].number, episodes, k),
                episode_speakers(episodes, k),
                episode_lines(episodes, k),
            )
            &&& w.seasons == v.seasons
        }),
    decreases k,
{
    if k == 0 {
        assert(season_keys(v) + Set::<i32>::empty() =~= season_keys(v));
        assert(episode_keys(v) + Set::<(i32, i32)>::empty() =~= episode_keys(v));
        assert(speaker_keys(v) + Set::<Seq<char>>::empty() =~= speaker_keys(v));
    } else {
        let m = after_episodes(v, season_id, episodes, (k - 1) as nat)->0;
        lemma_after_episodes(v, season_id, episodes, (k - 1) as nat);
        lemma_after_episode(m, season_id, episodes[k - 1]);
        let w = after_episodes(v, season_id, episodes, k)->0;
        let number = v.seasons[season_id - 1].number;
        assert(episode_keys(w) =~= episode_keys(v) + episode_numbers(number, episodes, k));
        assert(speaker_keys(w) =~= speaker_keys(v) + episode_speakers(episodes, k));
        assert(season_keys(w) =~= season_keys(v) + Set::<i32>::empty());
    }
}

/// Importing one season adds its number, the keys of its episodes, the
/// speakers of their lines, and their lines.
pub proof fn lemma_after_season(v: DatasetView, season: SeasonPlanView)
    requires
        well_formed(v),
        after_season(v, season) is Some,
    ensures
        grown_by(
            v,
            after_season(v, season)->0,
            set![season.number],
            episode_numbers(season.number, season.episodes, season.episodes.len()),
            episode_speakers(season.episodes, season.episodes.len()),
            episode_lines(season.episodes, season.episodes.len()),
        ),
{
    let w = after_season(v, season)->0;
    lemma_keys_with_season(v, season.number);
    let m = with_season(v, season.number)->0;
    let id = season_id_of(v, season.number) as i64;
    lemma_after_episodes(m, id, season.episodes, season.episodes.len());
    assert(speaker_key_list(m) =~= speaker_key_list(v));
    assert(season_keys(w) =~= season_keys(v) + set![season.number]);
}

/// Importing the first `k` seasons of a plan adds their keys and their
/// lines.
pub proof fn lemma_after_seasons(v: DatasetView, seasons: Seq<SeasonPlanView>, k: nat)
    requires
        well_formed(v),
        after_seasons(v, seasons, k) is Some,
    ensures
        grown_by(
            v,
            after_seasons(v, seasons, k)->0,
            plan_seasons(seasons, k),
            plan_episodes(seasons, k),
            plan_speakers(seasons, k),
            plan_lines(seasons, k),
        ),
    decreases k,
{
    if k == 0 {
        assert(season_keys(v) + Set::<i32>::empty() =~= season_keys(v));
        assert(episode_keys(v) + Set::<(i32, i32)>::empty() =~= episode_keys(v));
        assert(speaker_keys(v) + Set::<Seq<char>>::empty() =~= speaker_keys(v));
    } else {
        let m = after_seasons(v, seasons, (k - 1) as nat)->0;
        lemma_after_seasons(v, seasons, (k - 1) as nat);
        lemma_after_season(m, seasons[k - 1]);
        let w = after_seasons(v, seasons, k)->0;
        assert(season_keys(w) =~= season_keys(v) + plan_seasons(seasons, k));
        assert(episode_keys(w) =~= episode_keys(v) + plan_episodes(seasons, k));
        assert(speaker_keys(w) =~= speaker_keys(v) + plan_speakers(seasons, k));
    }
}

/// An import into a dataset without rows leaves one season, one episode
/// and one speaker for each distinct natural key of the plan, and one line
/// for each line of the plan, blank ones too.
pub proof fn lemma_fresh_import_counts(plan: ImportPlanView)
    requires
        after_plan(empty_dataset(), plan) is Some,
    ensures
        ({
            let w = after_plan(empty_dataset(), plan)->0;
            let n = plan.seasons.len();
            &&& w.seasons.len() == plan_seasons(plan.seasons, n).len()
            &&& w.episodes.len() == plan_episodes(plan.seasons, n).len()
            &&& w.speakers.len() == plan_speakers(plan.seasons, n).len()
            &&& w.lines.len() == plan_lines(plan.seasons, n)
        }),
{
    let v = empty_dataset();
    let w = after_plan(v, plan)->0;
    let n = plan.seasons.len();
    lemma_after_seasons(v, plan.seasons, n);
    lemma_one_row_per_key(w);
    assert(season_keys(v) =~= Set::empty());
    assert(episode_keys(v) =~= Set::empty());
    assert(speaker_keys(v) =~= Set::empty());
    assert(season_keys(w) =~= plan_seasons(plan.seasons, n));
    assert(episode_keys(w) =~= plan_episodes(plan.seasons, n));
    assert(speaker_keys(w) =~= plan_speakers(plan.seasons, n));
}

/// Carrying the same plan out a second time adds no season, no episode and
/// no speaker, and adds every line once more. After two imports into a
/// dataset without lines there are twice as many lines as after one.
pub proof fn lemma_second_import(v: DatasetView, plan: ImportPlanView)
    requires
        well_formed(v),
        after_plan(v, plan) is Some,
        after_plan(after_plan(v, plan)->0, plan) is Some,
    ensures
        ({
            let once = after_plan(v, plan)->0;
            let twice = after_plan(once, plan)->0;
            &&& twice.seasons.len() == once.seasons.len()
            &&& twice.episodes.len() == once.episodes.len()
            &&& twice.speakers.len() == once.speakers.len()
            &&& twice.lines.len() - once.lines.len() == once.lines.len() - v.lines.len()
            &&& v.lines.len() == 0 ==> twice.lines.len() == 2 * once.lines.len()
        }),
{
    let once = after_plan(v, plan)->0;
    let twice = after_plan(once, plan)->0;
    let n = plan.seasons.len();
    lemma_after_seasons(v, plan.seasons, n);
    lemma_after_seasons(once, plan.seasons, n);
    lemma_one_row_per_key(once);
    lemma_one_row_per_key(twice);
    assert(season_keys(twice) =~= season_keys(once));
    assert(episode_keys(twice) =~= episode_keys(once));
    assert(speaker_keys(twice) =~= speaker_keys(once));
}

/// The row that a line of a file becomes.
pub open spec fn is_row_of(
    row: LineView,
    season_id: i64,
    episode_id: i64,
    line: SplitLineView,
    number: int,
) -> bool {
    &&& row.season_id == season_id
    &&& row.episode_id == episode_id
    &&& row.line_number == number
    &&& row.speaker_name == line.speaker
    &&& (row.speaker_id is None <==> line.speaker is None)
    &&& row.content == line.content
}

/// Storing one line appends one row, which holds the line under its
/// number.
pub proof fn lemma_line_row(
    v: DatasetView,
    season_id: i64,
    episode_id: i64,
    line: SplitLineView,
    number: int,
)
    requires
        well_formed(v),
        1 <= number,
        after_line(v, season_id, episode_id, line, number) is Some,
    ensures
        ({
            let w = after_line(v, season_id, episode_id, line, number)->0;
            &&& w.lines.len() == v.lines.len() + 1
            &&& w.lines.drop_last() == v.lines
            &&& is_row_of(w.lines.last(), season_id, episode_id, line, number)
        }),
{
    let w = after_line(v, season_id, episode_id, line, number)->0;
    match line.speaker {
        None => {
            assert(w.lines =~= v.lines.push(w.lines.last()));
            assert(w.lines.drop_last() =~= v.lines);
        },
        Some(name) => {
            lemma_keys_with_speaker(v, name);
            let m = with_speaker(v, name)->0;
            let id = speaker_id_of(v, name) as i64;
            let n = with_line(m, season_id, episode_id, Some(id), number as i32, line.content)->0;
            assert(w == n);
            assert(m.lines == v.lines);
            assert(n.lines.drop_last() =~= v.lines);
            assert(n.lines.last().speaker_name == Some(m.speakers[id - 1].name));
        },
    }
}

/// The lines of an episode file are stored behind the lines that were
/// there, in the order of the file, numbered from 1 without a gap, blank
/// lines too.
pub proof fn lemma_lines_numbered_from_one(
    v: DatasetView,
    season_id: i64,
    episode_id: i64,
    lines: Seq<SplitLineView>,
    k: nat,
)
    requires
        well_formed(v),
        k <= lines.len(),
        after_lines(v, season_id, episode_id, lines, k) is Some,
    ensures
        ({
            let w = after_lines(v, season_id, episode_id, lines, k)->0;
            &&& w.lines.len() == v.lines.len() + k
            &&& w.lines.subrange(0, v.lines.len() as int) == v.lines
            &&& forall|t: int|
                0 <= t < k ==> is_row_of(
                    #[trigger] w.lines[v.lines.len() + t],
                    season_id,
                    episode_id,
                    lines[t],
                    t + 1,
                )
        }),
    decreases k,
{
    let w = after_lines(v, season_id, episode_id, lines, k)->0;
    if k == 0 {
        assert(w.lines.subrange(0, v.lines.len() as int) =~= v.lines);
    } else {
        let m = after_lines(v, season_id, episode_id, lines, (k - 1) as nat)->0;
        lemma_lines_numbered_from_one(v, season_id, episode_id, lines, (k - 1) as nat);
        lemma_after_lines(v, season_id, episode_id, lines, (k - 1) as nat);
        lemma_line_row(m, season_id, episode_id, lines[k - 1], k as int);
        assert(w.lines.subrange(0, v.lines.len() as int) =~= m.lines.subrange(
            0,
            v.lines.len() as int,
        )) by {
            assert forall|i: int| 0 <= i < v.lines.len() implies w.lines[i] == m.lines[i] by {
                assert(w.lines.drop_last()[i] == m.lines[i]);
            }
        }
        assert forall|t: int| 0 <= t < k implies is_row_of(
            #[trigger] w.lines[v.lines.len() + t],
            season_id,
            episode_id,
            lines[t],
            t + 1,
        ) by {
            if t < k - 1 {
                assert(w.lines.drop_last()[v.lines.len() + t] == m.lines[v.lines.len() + t]);
            } else {
                assert(w.lines[v.lines.len() + t] == w.lines.last());
            }
        }
    }
}

/// The import of a corpus into a dataset without rows leaves one season,
/// one episode and one speaker for each distinct natural key that the
/// corpus holds, and one line for each line of its episode files, blank
/// ones too.
pub proof fn lemma_fresh_corpus_counts(corpus: CorpusView)
    requires
        import_outcome(empty_dataset(), corpus) is Ok,
    ensures
        ({
            let w = import_outcome(empty_dataset(), corpus)->Ok_0;
            let seasons = planned(corpus)->Ok_0.seasons;
            let n = seasons.len();
            &&& w.seasons.len() == plan_seasons(seasons, n).len()
            &&& w.episodes.len() == plan_episodes(seasons, n).len()
            &&& w.speakers.len() == plan_speakers(seasons, n).len()
            &&& w.lines.len() == plan_lines(seasons, n)
        }),
{
    lemma_fresh_import_counts(planned(corpus)->Ok_0);
}

/// Importing the same corpus a second time adds no season, no episode and
/// no speaker, and stores every line once more: the import may be repeated
/// for the keys, and not for the lines.
pub proof fn lemma_second_corpus_import(v: DatasetView, corpus: CorpusView)
    requires
        well_formed(v),
        import_outcome(v, corpus) is Ok,
        import_outcome(import_outcome(v, corpus)->Ok_0, corpus) is Ok,
    ensures
        ({
            let once = import_outcome(v, corpus)->Ok_0;
            let twice = import_outcome(once, corpus)->Ok_0;
            &&& twice.seasons.len() == once.seasons.len()
            &&& twice.episodes.len() == once.episodes.len()
            &&& twice.speakers.len() == once.speakers.len()
            &&& twice.lines.len() - once.lines.len() == once.lines.len() - v.lines.len()
            &&& v.lines.len() == 0 ==> twice.lines.len() == 2 * once.lines.len()
        }),
{
    lemma_second_import(v, planned(corpus)->Ok_0);
}

/// A corpus in which a season directory holds an episode file whose name
/// carries no episode number is not imported, into whatever dataset.
pub proof fn lemma_malformed_episode_fails(v: DatasetView, corpus: CorpusView, i: int, j: int)
    requires
        0 <= i < corpus.listing.len(),
        season_number_of(corpus.listing[i].name) is Some,
        corpus.listing[i].entries is Some,
        0 <= j < corpus.listing[i].entries->0.len(),
        is_episode_entry(corpus.listing[i].entries->0[j].name),
        episode_number_of(corpus.listing[i].entries->0[j].name) is None,
    ensures
        planned(corpus) is Err,
        import_outcome(v, corpus) is Err,
{
    let files = corpus.listing[i].entries->0;
    assert(episode_plans(files, (j + 1) as nat) is Err);
    crate::plan::lemma_episode_fault_stays(files, (j + 1) as nat, files.len());
    assert(season_plans(corpus.listing, (i + 1) as nat) is Err);
    crate::plan::lemma_season_fault_stays(
        corpus.listing,
        (i + 1) as nat,
        corpus.listing.len(),
    );
}

/// The season numbers of a plan are the numbers of its seasons.
pub proof fn lemma_plan_seasons_members(seasons: Seq<SeasonPlanView>, k: nat, number: i32)
    ensures
        plan_seasons(seasons, k).contains(number) <==> exists|i: int|
            0 <= i < k && (#[trigger] seasons[i]).number == number,
    decreases k,
{
    if k > 0 {
        lemma_plan_seasons_members(seasons, (k - 1) as nat, number);
        if seasons[k - 1].number == number {
            assert(0 <= k - 1 < k && seasons[k - 1].number == number);
        }
    }
}

/// The keys of the episodes of one season pair its number with theirs.
pub proof fn lemma_episode_numbers_members(
    number: i32,
    episodes: Seq<EpisodePlanView>,
    k: nat,
    key: (i32, i32),
)
    ensures
        episode_numbers(number, episodes, k).contains(key) <==> key.0 == number && exists|j: int|
            0 <= j < k && (#[trigger] episodes[j]).number == key.1,
    decreases k,
{
    if k > 0 {
        lemma_episode_numbers_members(number, episodes, (k - 1) as nat, key);
        if key == (number, episodes[k - 1].number) {
            assert(0 <= k - 1 < k && episodes[k - 1].number == key.1);
        }
    }
}

/// Episode `j` of season `i` of the plan has this key.
pub open spec fn has_episode_key(seasons: Seq<SeasonPlanView>, i: int, j: int, key: (i32, i32)) -> bool {
    &&& 0 <= j < seasons[i].episodes.len()
    &&& seasons[i].number == key.0
    &&& seasons[i].episodes[j].number == key.1
}

/// The episode keys of a plan are the keys of its episodes.
pub proof fn lemma_plan_episodes_members(seasons: Seq<SeasonPlanView>, k: nat, key: (i32, i32))
    ensures
        plan_episodes(seasons, k).contains(key) <==> exists|i: int, j: int|
            0 <= i < k && #[trigger] has_episode_key(seasons, i, j, key),
    decreases k,
{
    if k > 0 {
        lemma_plan_episodes_members(seasons, (k - 1) as nat, key);
        let season = seasons[k - 1];
        lemma_episode_numbers_members(season.number, season.episodes, season.episodes.len(), key);
        if episode_numbers(season.number, season.episodes, season.episodes.len()).contains(key) {
            let j = choose|j: int|
                0 <= j < season.episodes.len() && (#[trigger] season.episodes[j]).number == key.1;
            assert(has_episode_key(seasons, k - 1, j, key));
        }
        if exists|i: int, j: int| 0 <= i < k && #[trigger] has_episode_key(seasons, i, j, key) {
            let (i, j) = choose|i: int, j: int|
                0 <= i < k && #[trigger] has_episode_key(seasons, i, j, key);
            if i == k - 1 {
                assert(season.episodes[j].number == key.1);
            } else {
                assert(0 <= i < k - 1 && has_episode_key(seasons, i, j, key));
            }
        }
    }
}

/// The speakers of the lines of a file are the labels of its lines.
pub proof fn lemma_line_speakers_members(lines: Seq<SplitLineView>, k: nat, name: Seq<char>)
    ensures
        line_speakers(lines, k).contains(name) <==> exists|l: int|
            0 <= l < k && (#[trigger] lines[l]).speaker == Some(name),
    decreases k,
{
    if k > 0 {
        lemma_line_speakers_members(lines, (k - 1) as nat, name);
        if lines[k - 1].speaker == Some(name) {
            assert(0 <= k - 1 < k && lines[k - 1].speaker == Some(name));
        }
    }
}

/// Line `l` of episode `j` is spoken by `name`.
pub open spec fn is_spoken_by(episodes: Seq<EpisodePlanView>, j: int, l: int, name: Seq<char>) -> bool {
    0 <= l < episodes[j].lines.len() && episodes[j].lines[l].speaker == Some(name)
}

/// The speakers of the episodes of a season are the labels of their lines.
pub proof fn lemma_episode_speakers_members(episodes: Seq<EpisodePlanView>, k: nat, name: Seq<char>)
    ensures
        episode_speakers(episodes, k).contains(name) <==> exists|j: int, l: int|
            0 <= j < k && #[trigger] is_spoken_by(episodes, j, l, name),
    decreases k,
{
    if k > 0 {
        lemma_episode_speakers_members(episodes, (k - 1) as nat, name);
        let lines = episodes[k - 1].lines;
        lemma_line_speakers_members(lines, lines.len(), name);
        if line_speakers(lines, lines.len()).contains(name) {
            let l = choose|l: int| 0 <= l < lines.len() && (#[trigger] lines[l]).speaker == Some(name);
            assert(is_spoken_by(episodes, k - 1, l, name));
        }
        if exists|j: int, l: int| 0 <= j < k && #[trigger] is_spoken_by(episodes, j, l, name) {
            let (j, l) = choose|j: int, l: int|
                0 <= j < k && #[trigger] is_spoken_by(episodes, j, l, name);
            if j == k - 1 {
                assert(lines[l].speaker == Some(name));
            } else {
                assert(0 <= j < k - 1 && is_spoken_by(episodes, j, l, name));
            }
        }
    }
}

/// The speakers of a plan are the labels of the lines of its episodes.
pub proof fn lemma_plan_speakers_members(seasons: Seq<SeasonPlanView>, k: nat, name: Seq<char>)
    ensures
        plan_speakers(seasons, k).contains(name) <==> exists|i: int|
            0 <= i < k && #[trigger] episode_speakers(
                seasons[i].episodes,
                seasons[i].episodes.len(),
            ).contains(name),
    decreases k,
{
    if k > 0 {
        lemma_plan_speakers_members(seasons, (k - 1) as nat, name);
        let episodes = seasons[k - 1].episodes;
        if episode_speakers(episodes, episodes.len()).contains(name) {
            assert(0 <= k - 1 < k && episode_speakers(
                seasons[k - 1].episodes,
                seasons[k - 1].episodes.len(),
            ).contains(name));
        }
    }
}

/// In a well-formed dataset the row that holds a season number is the one
/// that a lookup of the number finds.
pub proof fn lemma_season_found(v: DatasetView, at: int)
    requires
        well_formed(v),
        0 <= at < v.seasons.len(),
    ensures
        season_id_of(v, v.seasons[at].number) == at + 1,
{
    lemma_season_slot(v.seasons, v.seasons[at].number, 0);
}

/// In a well-formed dataset the row that holds an episode key is the one
/// that a lookup of the key finds.
pub proof fn lemma_episode_found(v: DatasetView, at: int)
    requires
        well_formed(v),
        0 <= at < v.episodes.len(),
    ensures
        episode_id_of(v, v.episodes[at].season_id, v.episodes[at].number) == at + 1,
{
    lemma_episode_slot(v.episodes, v.episodes[at].season_id, v.episodes[at].number, 0);
}

/// In a well-formed dataset the row that holds a speaker name is the one
/// that a lookup of the name finds.
pub proof fn lemma_speaker_found(v: DatasetView, at: int)
    requires
        well_formed(v),
        0 <= at < v.speakers.len(),
    ensures
        speaker_id_of(v, v.speakers[at].name) == at + 1,
{
    lemma_speaker_slot(v.speakers, v.speakers[at].name, 0);
}

/// Resolving a season a second time returns the same id and changes
/// nothing.
pub proof fn lemma_season_resolved_once(v: DatasetView, number: i32)
    requires
        well_formed(v),
        with_season(v, number) is Some,
    ensures
        ({
            let w = with_season(v, number)->0;
            with_season(w, number) == Some(w) && season_id_of(w, number) == season_id_of(v, number)
        }),
{
    let w = with_season(v, number)->0;
    lemma_keys_with_season(v, number);
    lemma_season_found(w, season_id_of(v, number) - 1);
}

/// Resolving an episode a second time, with the same title, returns the
/// same id and changes nothing.
pub proof fn lemma_episode_resolved_once(
    v: DatasetView,
    season_id: i64,
    number: i32,
    title: Seq<char>,
)
    requires
        well_formed(v),
        with_episode(v, season_id, number, title) is Some,
    ensures
        ({
            let w = with_episode(v, season_id, number, title)->0;
            with_episode(w, season_id, number, title) == Some(w) && episode_id_of(
                w,
                season_id,
                number,
            ) == episode_id_of(v, season_id, number)
        }),
{
    let w = with_episode(v, season_id, number, title)->0;
    lemma_keys_with_episode(v, season_id, number, title);
    crate::dataset::lemma_with_episode_ok(v, season_id, number, title);
    let at = episode_id_of(v, season_id, number) - 1;
    lemma_episode_found(w, at);
    assert(w.episodes.update(at, w.episodes[at]) =~= w.episodes);
}

/// Resolving a speaker a second time returns the same id and changes
/// nothing: a name belongs to one speaker for good.
pub proof fn lemma_speaker_resolved_once(v: DatasetView, name: Seq<char>)
    requires
        well_formed(v),
        with_speaker(v, name) is Some,
    ensures
        ({
            let w = with_speaker(v, name)->0;
            with_speaker(w, name) == Some(w) && speaker_id_of(w, name) == speaker_id_of(v, name)
        }),
{
    let w = with_speaker(v, name)->0;
    lemma_keys_with_speaker(v, name);
    lemma_speaker_found(w, speaker_id_of(v, name) - 1);
}

} // verus!
