//! When an import succeeds: whenever the dataset has ids left for what the
//! plan may add, and no file has more lines than an `i32` can number.

use crate::corpus::CorpusView;
use crate::dataset::{
    episode_id_of, season_id_of, speaker_id_of, well_formed, with_episode, with_line, with_season,
    with_speaker, DatasetView,
};
use crate::importer::{
    after_episode, after_episodes, after_line, after_lines, after_plan, after_season,
    after_seasons, import_outcome,
};
use crate::laws::{
    episode_lines, lemma_keys_with_episode, lemma_keys_with_season, lemma_keys_with_speaker,
    plan_lines,
};
use crate::numbering::episodes_before;
use crate::plan::{planned, EpisodePlanView, ImportPlanView, SeasonPlanView};
use crate::splitter::SplitLineView;
use vstd::prelude::*;

verus! {

/// No episode of a season has more lines than an `i32` can number.
pub open spec fn short_episodes(episodes: Seq<EpisodePlanView>) -> bool {
    forall|j: int| 0 <= j < episodes.len() ==> (#[trigger] episodes[j]).lines.len() <= i32::MAX
}

/// No episode of the plan has more lines than an `i32` can number.
pub open spec fn short_files(seasons: Seq<SeasonPlanView>) -> bool {
    forall|i: int| 0 <= i < seasons.len() ==> short_episodes((#[trigger] seasons[i]).episodes)
}

/// The dataset has ids left for this many rows more in each table.
pub open spec fn has_room(v: DatasetView, seasons: nat, episodes: nat, speakers: nat, lines: nat) -> bool {
    &&& v.seasons.len() + seasons <= i64::MAX
    &&& v.episodes.len() + episodes <= i64::MAX
    &&& v.speakers.len() + speakers <= i64::MAX
    &&& v.lines.len() + lines <= i64::MAX
}

/// `w` has at most this many rows more than `v` in each table.
pub open spec fn grew_at_most(
    v: DatasetView,
    w: DatasetView,
    seasons: nat,
    episodes: nat,
    speakers: nat,
    lines: nat,
) -> bool {
    &&& well_formed(w)
    &&& v.seasons.len() <= w.seasons.len() <= v.seasons.len() + seasons
    &&& v.episodes.len() <= w.episodes.len() <= v.episodes.len() + episodes
    &&& v.speakers.len() <= w.speakers.len() <= v.speakers.len() + speakers
    &&& w.lines.len() == v.lines.len() + lines
}

proof fn lemma_line_succeeds(
    v: DatasetView,
    season_id: i64,
    episode_id: i64,
    line: SplitLineView,
    number: int,
)
    requires
        well_formed(v),
        1 <= episode_id <= v.episodes.len(),
        v.episodes[episode_id - 1].season_id == season_id,
        1 <= number <= i32::MAX,
        has_room(v, 0, 0, 1, 1),
    ensures
        after_line(v, season_id, episode_id, line, number) is Some,
        grew_at_most(v, after_line(v, season_id, episode_id, line, number)->0, 0, 0, 1, 1),
        after_line(v, season_id, episode_id, line, number)->0.episodes == v.episodes,
{
    match line.speaker {
        None => {
            crate::dataset::lemma_with_line_ok(
                v,
                season_id,
                episode_id,
                None,
                number as i32,
                line.content,
            );
        },
        Some(name) => {
            crate::dataset::lemma_speaker_slot(v.speakers, name, 0);
            lemma_keys_with_speaker(v, name);
            let m = with_speaker(v, name)->0;
            let id = Some(speaker_id_of(v, name) as i64);
            assert(with_line(m, season_id, episode_id, id, number as i32, line.content) is Some);
            crate::dataset::lemma_with_line_ok(
                m,
                season_id,
                episode_id,
                id,
                number as i32,
                line.content,
            );
        },
    }
}

proof fn lemma_lines_succeed(
    v: DatasetView,
    season_id: i64,
    episode_id: i64,
    lines: Seq<SplitLineView>,
    k: nat,
)
    requires
        well_formed(v),
        1 <= episode_id <= v.episodes.len(),
        v.episodes[episode_id - 1].season_id == season_id,
        k <= lines.len(),
        k <= i32::MAX,
        has_room(v, 0, 0, k, k),
    ensures
        after_lines(v, season_id, episode_id, lines, k) is Some,
        grew_at_most(v, after_lines(v, season_id, episode_id, lines, k)->0, 0, 0, k, k),
        after_lines(v, season_id, episode_id, lines, k)->0.episodes == v.episodes,
    decreases k,
{
    if k > 0 {
        lemma_lines_succeed(v, season_id, episode_id, lines, (k - 1) as nat);
        let m = after_lines(v, season_id, episode_id, lines, (k - 1) as nat)->0;
        lemma_line_succeeds(m, season_id, episode_id, lines[k - 1], k as int);
    }
}

proof fn lemma_episode_succeeds(v: DatasetView, season_id: i64, episode: EpisodePlanView)
    requires
        well_formed(v),
        1 <= season_id <= v.seasons.len(),
        episode.lines.len() <= i32::MAX,
        has_room(v, 0, 1, episode.lines.len(), episode.lines.len()),
    ensures
        after_episode(v, season_id, episode) is Some,
        grew_at_most(
            v,
            after_episode(v, season_id, episode)->0,
            0,
            1,
            episode.lines.len(),
            episode.lines.len(),
        ),
{
    crate::dataset::lemma_episode_slot(v.episodes, season_id, episode.number, 0);
    lemma_keys_with_episode(v, season_id, episode.number, episode.title);
    let m = with_episode(v, season_id, episode.number, episode.title)->0;
    let id = episode_id_of(v, season_id, episode.number) as i64;
    lemma_lines_succeed(m, season_id, id, episode.lines, episode.lines.len());
}

proof fn lemma_episodes_succeed(
    v: DatasetView,
    season_id: i64,
    episodes: Seq<EpisodePlanView>,
    k: nat,
)
    requires
        well_formed(v),
        1 <= season_id <= v.seasons.len(),
        k <= episodes.len(),
        short_episodes(episodes),
        has_room(v, 0, k, episode_lines(episodes, k), episode_lines(episodes, k)),
    ensures
        after_episodes(v, season_id, episodes, k) is Some,
        grew_at_most(
            v,
            after_episodes(v, season_id, episodes, k)->0,
            0,
            k,
            episode_lines(episodes, k),
            episode_lines(episodes, k),
        ),
    decreases k,
{
    if k > 0 {
        lemma_episodes_succeed(v, season_id, episodes, (k - 1) as nat);
        let m = after_episodes(v, season_id, episodes, (k - 1) as nat)->0;
        assert(episodes[k - 1].lines.len() <= i32::MAX);
        lemma_episode_succeeds(m, season_id, episodes[k - 1]);
    }
}

proof fn lemma_season_succeeds(v: DatasetView, season: SeasonPlanView)
    requires
        well_formed(v),
        short_episodes(season.episodes),
        has_room(
            v,
            1,
            season.episodes.len(),
            episode_lines(season.episodes, season.episodes.len()),
            episode_lines(season.episodes, season.episodes.len()),
        ),
    ensures
        after_season(v, season) is Some,
        grew_at_most(
            v,
            after_season(v, season)->0,
            1,
            season.episodes.len(),
            episode_lines(season.episodes, season.episodes.len()),
            episode_lines(season.episodes, season.episodes.len()),
        ),
{
    crate::dataset::lemma_season_slot(v.seasons, season.number, 0);
    lemma_keys_with_season(v, season.number);
    let m = with_season(v, season.number)->0;
    let id = season_id_of(v, season.number) as i64;
    lemma_episodes_succeed(m, id, season.episodes, season.episodes.len());
}

proof fn lemma_seasons_succeed(v: DatasetView, seasons: Seq<SeasonPlanView>, k: nat)
    requires
        well_formed(v),
        k <= seasons.len(),
        short_files(seasons),
        has_room(v, k, episodes_before(seasons, k), plan_lines(seasons, k), plan_lines(seasons, k)),
    ensures
        after_seasons(v, seasons, k) is Some,
        grew_at_most(
            v,
            after_seasons(v, seasons, k)->0,
            k,
            episodes_before(seasons, k),
            plan_lines(seasons, k),
            plan_lines(seasons, k),
        ),
    decreases k,
{
    if k > 0 {
        lemma_seasons_succeed(v, seasons, (k - 1) as nat);
        let m = after_seasons(v, seasons, (k - 1) as nat)->0;
        assert(short_episodes(seasons[k - 1].episodes));
        lemma_season_succeeds(m, seasons[k - 1]);
    }
}

/// A plan can be carried out whenever the dataset has ids left for one
/// season to each season of the plan, one episode to each episode, and one
/// speaker and one line to each line, and no file of the plan has more
/// lines than an `i32` can number.
pub proof fn lemma_plan_succeeds(v: DatasetView, plan: ImportPlanView)
    requires
        well_formed(v),
        short_files(plan.seasons),
        has_room(
            v,
            plan.seasons.len(),
            episodes_before(plan.seasons, plan.seasons.len()),
            plan_lines(plan.seasons, plan.seasons.len()),
            plan_lines(plan.seasons, plan.seasons.len()),
        ),
    ensures
        after_plan(v, plan) is Some,
{
    lemma_seasons_succeed(v, plan.seasons, plan.seasons.len());
}

/// The import of a corpus without a malformed episode name and without an
/// unreadable directory or file succeeds whenever the dataset has ids left
/// for what the corpus may add and no file has more lines than an `i32`
/// can number.
pub proof fn lemma_import_succeeds(v: DatasetView, corpus: CorpusView)
    requires
        well_formed(v),
        planned(corpus) is Ok,
        short_files(planned(corpus)->Ok_0.seasons),
        ({
            let seasons = planned(corpus)->Ok_0.seasons;
            has_room(
                v,
                seasons.len(),
                episodes_before(seasons, seasons.len()),
                plan_lines(seasons, seasons.len()),
                plan_lines(seasons, seasons.len()),
            )
        }),
    ensures
        import_outcome(v, corpus) is Ok,
{
    lemma_plan_succeeds(v, planned(corpus)->Ok_0);
}

} // verus!
