//! The import of a corpus into a dataset, as one unit of work: all of it is
//! stored, or nothing.

use crate::corpus::{texts, Corpus, CorpusView};
use crate::dataset::{
    episode_id_of, season_id_of, speaker_id_of, with_episode, with_line, with_season,
    with_speaker, Dataset, DatasetView,
};
use crate::error::{ImportError, ImportErrorView};
use crate::plan::{
    episode_plan_views, plan_import, planned, season_plan_views, split_views, EpisodePlan,
    EpisodePlanView, ImportPlan, ImportPlanView, SeasonPlan, SeasonPlanView,
};
use crate::splitter::{SplitLine, SplitLineView};
use vstd::prelude::*;

verus! {

/// The dataset once `line` is stored under `number`: its speaker, where it
/// has one, is resolved first. `None` where the number does not fit an
/// `i32` or the dataset refuses a row.
pub open spec fn after_line(
    v: DatasetView,
    season_id: i64,
    episode_id: i64,
    line: SplitLineView,
    number: int,
) -> Option<DatasetView> {
    if number > i32::MAX {
        None
    } else {
        match line.speaker {
            None => with_line(v, season_id, episode_id, None, number as i32, line.content),
            Some(name) => match with_speaker(v, name) {
                None => None,
                Some(w) => with_line(
                    w,
                    season_id,
                    episode_id,
                    Some(speaker_id_of(v, name) as i64),
                    number as i32,
                    line.content,
                ),
            },
        }
    }
}

/// The dataset once the first `k` lines of an episode are stored, numbered
/// from 1 in the order of the file.
pub open spec fn after_lines(
    v: DatasetView,
    season_id: i64,
    episode_id: i64,
    lines: Seq<SplitLineView>,
    k: nat,
) -> Option<DatasetView>
    decreases k,
{
    if k == 0 {
        Some(v)
    } else {
        match after_lines(v, season_id, episode_id, lines, (k - 1) as nat) {
            None => None,
            Some(w) => after_line(w, season_id, episode_id, lines[k - 1], k as int),
        }
    }
}

/// The dataset once an episode of the season is resolved and its lines are
/// stored.
pub open spec fn after_episode(v: DatasetView, season_id: i64, episode: EpisodePlanView) -> Option<
    DatasetView,
> {
    match with_episode(v, season_id, episode.number, episode.title) {
        None => None,
        Some(w) => after_lines(
            w,
            season_id,
            episode_id_of(v, season_id, episode.number) as i64,
            episode.lines,
            episode.lines.len(),
        ),
    }
}

/// The dataset once the first `k` episodes of a season are imported, in
/// their order.
pub open spec fn after_episodes(
    v: DatasetView,
    season_id: i64,
    episodes: Seq<EpisodePlanView>,
    k: nat,
) -> Option<DatasetView>
    decreases k,
{
    if k == 0 {
        Some(v)
    } else {
        match after_episodes(v, season_id, episodes, (k - 1) as nat) {
            None => None,
            Some(w) => after_episode(w, season_id, episodes[k - 1]),
        }
    }
}

/// The dataset once a season is resolved and its episodes are imported.
pub open spec fn after_season(v: DatasetView, season: SeasonPlanView) -> Option<DatasetView> {
    match with_season(v, season.number) {
        None => None,
        Some(w) => after_episodes(
            w,
            season_id_of(v, season.number) as i64,
            season.episodes,
            season.episodes.len(),
        ),
    }
}

/// The dataset once the first `k` seasons of a plan are imported, in
/// their order.
pub open spec fn after_seasons(v: DatasetView, seasons: Seq<SeasonPlanView>, k: nat) -> Option<
    DatasetView,
>
    decreases k,
{
    if k == 0 {
        Some(v)
    } else {
        match after_seasons(v, seasons, (k - 1) as nat) {
            None => None,
            Some(w) => after_season(w, seasons[k - 1]),
        }
    }
}

/// The dataset once the whole plan is carried out, or `None` where the
/// dataset refuses a row on the way.
pub open spec fn after_plan(v: DatasetView, plan: ImportPlanView) -> Option<DatasetView> {
    after_seasons(v, plan.seasons, plan.seasons.len())
}

/// What the import of `corpus` makes of the dataset `v`, or why it fails.
pub open spec fn import_outcome(v: DatasetView, corpus: CorpusView) -> Result<
    DatasetView,
    ImportErrorView,
> {
    match planned(corpus) {
        Err(e) => Err(e),
        Ok(plan) => match after_plan(v, plan) {
            Some(w) => Ok(w),
            None => Err(ImportErrorView::Resolution),
        },
    }
}

proof fn lemma_line_fault_stays(
    v: DatasetView,
    season_id: i64,
    episode_id: i64,
    lines: Seq<SplitLineView>,
    k: nat,
    m: nat,
)
    requires
        k <= m,
        after_lines(v, season_id, episode_id, lines, k) is None,
    ensures
        after_lines(v, season_id, episode_id, lines, m) is None,
    decreases m - k,
{
    if k < m {
        lemma_line_fault_stays(v, season_id, episode_id, lines, k, (m - 1) as nat);
    }
}

proof fn lemma_episode_fault_stays(
    v: DatasetView,
    season_id: i64,
    episodes: Seq<EpisodePlanView>,
    k: nat,
    m: nat,
)
    requires
        k <= m,
        after_episodes(v, season_id, episodes, k) is None,
    ensures
        after_episodes(v, season_id, episodes, m) is None,
    decreases m - k,
{
    if k < m {
        lemma_episode_fault_stays(v, season_id, episodes, k, (m - 1) as nat);
    }
}

proof fn lemma_season_fault_stays(v: DatasetView, seasons: Seq<SeasonPlanView>, k: nat, m: nat)
    requires
        k <= m,
        after_seasons(v, seasons, k) is None,
    ensures
        after_seasons(v, seasons, m) is None,
    decreases m - k,
{
    if k < m {
        lemma_season_fault_stays(v, seasons, k, (m - 1) as nat);
    }
}

/// The number of the line at `position` of its file, counted from 0: one
/// more than the position. `None` where that does not fit an `i32`.
pub fn line_number_at(position: usize) -> (r: Option<i32>)
    ensures
        r == (if position < i32::MAX {
            Some((position + 1) as i32)
        } else {
            None
        }),
{
    if position < 0x7fff_ffff {
        Some((position + 1) as i32)
    } else {
        None
    }
}

/// Stores the lines of one episode. After a fault the dataset holds the
/// lines before it.
fn store_lines(dataset: &mut Dataset, season_id: i64, episode_id: i64, lines: &Vec<SplitLine>) -> (r:
    Result<(), ImportError>)
    requires
        old(dataset).wf(),
    ensures
        final(dataset).wf(),
        match r {
            Ok(_) => after_lines(
                old(dataset)@,
                season_id,
                episode_id,
                split_views(lines@),
                lines@.len(),
            ) == Some(final(dataset)@),
            Err(e) => e@ == ImportErrorView::Resolution && after_lines(
                old(dataset)@,
                season_id,
                episode_id,
                split_views(lines@),
                lines@.len(),
            ) is None,
        },
{
    let ghost start = dataset@;
    let ghost views = split_views(lines@);
    let n = lines.len();
    let mut k: usize = 0;
    while k < n
        invariant
            k <= n,
            n == lines@.len(),
            views == split_views(lines@),
            dataset.wf(),
            start == old(dataset)@,
            after_lines(start, season_id, episode_id, views, k as nat) == Some(dataset@),
        decreases n - k,
    {
        let line = &lines[k];
        assert(views[k as int] == line@);
        let number = match line_number_at(k) {
            Some(number) => number,
            None => {
                proof {
                    lemma_line_fault_stays(
                        start,
                        season_id,
                        episode_id,
                        views,
                        (k + 1) as nat,
                        n as nat,
                    );
                }
                return Err(ImportError::Resolution);
            },
        };
        let speaker_id = match &line.speaker {
            None => None,
            Some(name) => match dataset.resolve_speaker(name.as_str()) {
                Ok(id) => Some(id),
                Err(e) => {
                    proof {
                        lemma_line_fault_stays(
                            start,
                            season_id,
                            episode_id,
                            views,
                            (k + 1) as nat,
                            n as nat,
                        );
                    }
                    return Err(e);
                },
            },
        };
        match dataset.insert_line(season_id, episode_id, speaker_id, number, line.content.as_str()) {
            Ok(_) => {},
            Err(e) => {
                proof {
                    lemma_line_fault_stays(
                        start,
                        season_id,
                        episode_id,
                        views,
                        (k + 1) as nat,
                        n as nat,
                    );
                }
                return Err(e);
            },
        }
        k += 1;
    }
    Ok(())
}

/// Resolves the episodes of one season and stores their lines.
fn store_episodes(dataset: &mut Dataset, season_id: i64, episodes: &Vec<EpisodePlan>) -> (r: Result<
    (),
    ImportError,
>)
    requires
        old(dataset).wf(),
    ensures
        final(dataset).wf(),
        match r {
            Ok(_) => after_episodes(
                old(dataset)@,
                season_id,
                episode_plan_views(episodes@),
                episodes@.len(),
            ) == Some(final(dataset)@),
            Err(e) => e@ == ImportErrorView::Resolution && after_episodes(
                old(dataset)@,
                season_id,
                episode_plan_views(episodes@),
                episodes@.len(),
            ) is None,
        },
{
    let ghost start = dataset@;
    let ghost views = episode_plan_views(episodes@);
    let n = episodes.len();
    let mut k: usize = 0;
    while k < n
        invariant
            k <= n,
            n == episodes@.len(),
            views == episode_plan_views(episodes@),
            dataset.wf(),
            start == old(dataset)@,
            after_episodes(start, season_id, views, k as nat) == Some(dataset@),
        decreases n - k,
    {
        let episode = &episodes[k];
        assert(views[k as int] == episode@);
        let stored = match dataset.resolve_episode(season_id, episode.number, episode.title.as_str()) {
            Ok(episode_id) => store_lines(dataset, season_id, episode_id, &episode.lines),
            Err(e) => Err(e),
        };
        match stored {
            Ok(_) => {},
            Err(e) => {
                proof {
                    lemma_episode_fault_stays(start, season_id, views, (k + 1) as nat, n as nat);
                }
                return Err(e);
            },
        }
        k += 1;
    }
    Ok(())
}

/// Carries a plan out, season by season. After a fault the dataset holds
/// what was stored before it.
fn store_seasons(dataset: &mut Dataset, seasons: &Vec<SeasonPlan>) -> (r: Result<(), ImportError>)
    requires
        old(dataset).wf(),
    ensures
        final(dataset).wf(),
        match r {
            Ok(_) => after_seasons(old(dataset)@, season_plan_views(seasons@), seasons@.len())
                == Some(final(dataset)@),
            Err(e) => e@ == ImportErrorView::Resolution && after_seasons(
                old(dataset)@,
                season_plan_views(seasons@),
                seasons@.len(),
            ) is None,
        },
{
    let ghost start = dataset@;
    let ghost views = season_plan_views(seasons@);
    let n = seasons.len();
    let mut k: usize = 0;
    while k < n
        invariant
            k <= n,
            n == seasons@.len(),
            views == season_plan_views(seasons@),
            dataset.wf(),
            start == old(dataset)@,
            after_seasons(start, views, k as nat) == Some(dataset@),
        decreases n - k,
    {
        let season = &seasons[k];
        assert(views[k as int] == season@);
        let stored = match dataset.resolve_season(season.number) {
            Ok(season_id) => store_episodes(dataset, season_id, &season.episodes),
            Err(e) => Err(e),
        };
        match stored {
            Ok(_) => {},
            Err(e) => {
                proof {
                    lemma_season_fault_stays(start, views, (k + 1) as nat, n as nat);
                }
                return Err(e);
            },
        }
        k += 1;
    }
    Ok(())
}

impl Dataset {
    /// Carries `plan` out as one unit of work: every season, episode,
    /// speaker and line of it is stored, or, on a fault, nothing is.
    pub fn apply_plan(&mut self, plan: &ImportPlan) -> (r: Result<(), ImportError>)
        requires
            old(self).wf(),
        ensures
            final(self).wf(),
            match r {
                Ok(_) => after_plan(old(self)@, plan@) == Some(final(self)@),
                Err(e) => e@ == ImportErrorView::Resolution && after_plan(old(self)@, plan@)
                    is None && final(self)@ == old(self)@,
            },
    {
        let mut work = self.snapshot();
        match store_seasons(&mut work, &plan.seasons) {
            Ok(_) => {
                *self = work;
                Ok(())
            },
            Err(e) => Err(e),
        }
    }

    /// Imports `corpus` as one unit of work and returns the names of the
    /// season entries that were skipped. On any fault the dataset is left
    /// as it was.
    pub fn import(&mut self, corpus: &Corpus) -> (r: Result<Vec<String>, ImportError>)
        requires
            old(self).wf(),
        ensures
            final(self).wf(),
            match r {
                Ok(skipped) => import_outcome(old(self)@, corpus@) == Ok::<_, ImportErrorView>(
                    final(self)@,
                ) && planned(corpus@) is Ok && texts(skipped@) == planned(corpus@)->Ok_0.skipped,
                Err(e) => import_outcome(old(self)@, corpus@) == Err::<DatasetView, _>(e@)
                    && final(self)@ == old(self)@,
            },
    {
        let plan = match plan_import(corpus) {
            Ok(plan) => plan,
            Err(e) => {
                return Err(e);
            },
        };
        match self.apply_plan(&plan) {
            Ok(_) => Ok(plan.skipped),
            Err(e) => Err(e),
        }
    }
}

} // verus!
