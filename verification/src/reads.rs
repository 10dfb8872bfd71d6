//! The plain reads: the episodes of a season, and the transcript of one
//! episode.

use crate::dataset::{line_ok, Dataset, DatasetView};
use crate::models::{
    episode_views, line_views, Episode, EpisodeView, Line, LineView, Season,
};
use vstd::prelude::*;

verus! {

/// Why there is no transcript.
#[derive(Debug, Clone, Copy, PartialEq, Eq, Structural)]
pub enum TranscriptError {
    /// No season has the number.
    SeasonNotFound,
    /// No episode, of whatever season, has the number.
    EpisodeNotFound,
}

/// Some season has the number.
pub open spec fn has_season_number(seasons: Seq<Season>, number: i64) -> bool {
    exists|i: int| 0 <= i < seasons.len() && (#[trigger] seasons[i]).number == number
}

/// Some episode, of whatever season, has the number.
pub open spec fn has_episode_number(episodes: Seq<EpisodeView>, number: i32) -> bool {
    exists|i: int| 0 <= i < episodes.len() && (#[trigger] episodes[i]).number == number
}

/// The line belongs to an episode of this number in a season of this
/// number.
pub open spec fn in_transcript(
    v: DatasetView,
    line: LineView,
    season_number: i64,
    episode_number: i32,
) -> bool {
    let episode = v.episodes[line.episode_id - 1];
    episode.number == episode_number && v.seasons[episode.season_id - 1].number == season_number
}

/// The test for the lines of one transcript.
pub open spec fn transcript_test(v: DatasetView, season_number: i64, episode_number: i32) -> spec_fn(
    LineView,
) -> bool {
    |line: LineView| in_transcript(v, line, season_number, episode_number)
}

/// The lines of the episode, in the order of their ids.
pub open spec fn transcript_of(v: DatasetView, season_number: i64, episode_number: i32) -> Seq<
    LineView,
> {
    v.lines.filter(transcript_test(v, season_number, episode_number))
}

/// Where an episode of this number goes among `rows`: the first position
/// at or after `i` that holds a greater number, or the length.
pub open spec fn episode_row_place(rows: Seq<EpisodeView>, number: i32, i: int) -> int
    decreases rows.len() - i,
{
    if 0 <= i < rows.len() && rows[i].number <= number {
        episode_row_place(rows, number, i + 1)
    } else {
        i
    }
}

/// Those of the first `k` episodes that belong to the season, in ascending
/// order of their numbers.
pub open spec fn season_episodes(episodes: Seq<EpisodeView>, season_id: i64, k: nat) -> Seq<
    EpisodeView,
>
    decreases k,
{
    if k == 0 {
        Seq::empty()
    } else {
        let before = season_episodes(episodes, season_id, (k - 1) as nat);
        let row = episodes[k - 1];
        if row.season_id == season_id {
            before.insert(episode_row_place(before, row.number, 0), row)
        } else {
            before
        }
    }
}

fn find_episode_row_place(rows: &Vec<Episode>, number: i32) -> (p: usize)
    ensures
        p == episode_row_place(episode_views(rows@), number, 0),
        p <= rows@.len(),
{
    let n = rows.len();
    let mut p: usize = 0;
    while p < n && rows[p].number <= number
        invariant
            p <= n,
            n == rows@.len(),
            episode_row_place(episode_views(rows@), number, p as int) == episode_row_place(
                episode_views(rows@),
                number,
                0,
            ),
        decreases n - p,
    {
        p += 1;
    }
    p
}

fn knows_season_number(seasons: &Vec<Season>, number: i64) -> (b: bool)
    ensures
        b == has_season_number(seasons@, number),
{
    let n = seasons.len();
    let mut k: usize = 0;
    while k < n
        invariant
            k <= n,
            n == seasons@.len(),
            forall|i: int| 0 <= i < k ==> (#[trigger] seasons@[i]).number != number,
        decreases n - k,
    {
        if seasons[k].number as i64 == number {
            return true;
        }
        k += 1;
    }
    false
}

fn knows_episode_number(episodes: &Vec<Episode>, number: i32) -> (b: bool)
    ensures
        b == has_episode_number(episode_views(episodes@), number),
{
    let ghost views = episode_views(episodes@);
    let n = episodes.len();
    let mut k: usize = 0;
    while k < n
        invariant
            k <= n,
            n == episodes@.len(),
            views == episode_views(episodes@),
            forall|i: int| 0 <= i < k ==> (#[trigger] views[i]).number != number,
        decreases n - k,
    {
        assert(views[k as int] == episodes@[k as int]@);
        if episodes[k].number == number {
            return true;
        }
        k += 1;
    }
    false
}

impl Dataset {
    /// The episodes of a season, copied, in ascending order of their
    /// numbers.
    pub fn episodes_of(&self, season_id: i64) -> (r: Vec<Episode>)
        ensures
            episode_views(r@) == season_episodes(
                self@.episodes,
                season_id,
                self@.episodes.len(),
            ),
    {
        let episodes = self.episodes();
        let ghost all = episode_views(episodes@);
        let mut out: Vec<Episode> = Vec::new();
        let n = episodes.len();
        let mut k: usize = 0;
        assert(episode_views(out@) =~= Seq::empty());
        while k < n
            invariant
                k <= n,
                n == episodes@.len(),
                all == episode_views(episodes@),
                episode_views(out@) == season_episodes(all, season_id, k as nat),
            decreases n - k,
        {
            let row = &episodes[k];
            assert(all[k as int] == row@);
            if row.season_id == season_id {
                let ghost before = episode_views(out@);
                let at = find_episode_row_place(&out, row.number);
                out.insert(at, row.duplicate());
                assert(episode_views(out@) =~= before.insert(at as int, row@));
            }
            k += 1;
        }
        out
    }

    /// The lines of the episode of this number in the season of this
    /// number, copied, in the order of their ids. Fails where no season has
    /// the season number, and else where no episode at all has the episode
    /// number.
    pub fn transcript(&self, season_number: i64, episode_number: i32) -> (r: Result<
        Vec<Line>,
        TranscriptError,
    >)
        requires
            self.wf(),
        ensures
            match r {
                Ok(lines) => {
                    &&& has_season_number(self@.seasons, season_number)
                    &&& has_episode_number(self@.episodes, episode_number)
                    &&& line_views(lines@) == transcript_of(self@, season_number, episode_number)
                },
                Err(TranscriptError::SeasonNotFound) => !has_season_number(
                    self@.seasons,
                    season_number,
                ),
                Err(TranscriptError::EpisodeNotFound) => has_season_number(
                    self@.seasons,
                    season_number,
                ) && !has_episode_number(self@.episodes, episode_number),
            },
    {
        let seasons = self.seasons();
        let episodes = self.episodes();
        let lines = self.lines();
        if !knows_season_number(seasons, season_number) {
            return Err(TranscriptError::SeasonNotFound);
        }
        if !knows_episode_number(episodes, episode_number) {
            return Err(TranscriptError::EpisodeNotFound);
        }
        let ghost all = line_views(lines@);
        let ghost test = transcript_test(self@, season_number, episode_number);
        let mut out: Vec<Line> = Vec::new();
        let n = lines.len();
        let episode_count = episodes.len();
        let season_count = seasons.len();
        let mut k: usize = 0;
        proof {
            reveal(Seq::filter);
            assert(all.take(0) =~= Seq::empty());
            assert(line_views(out@) =~= Seq::empty());
        }
        while k < n
            invariant
                k <= n,
                n == lines@.len(),
                episode_count == episodes@.len(),
                season_count == seasons@.len(),
                self.wf(),
                all == line_views(lines@),
                all == self@.lines,
                seasons@ == self@.seasons,
                episode_views(episodes@) == self@.episodes,
                test == transcript_test(self@, season_number, episode_number),
                line_views(out@) == all.take(k as int).filter(test),
            decreases n - k,
        {
            let line = &lines[k];
            let ghost before = line_views(out@);
            proof {
                reveal(Seq::filter);
                assert(all.take(k + 1).drop_last() =~= all.take(k as int));
                assert(all.take(k + 1).last() == line@);
                assert(all[k as int] == line@);
            }
            proof {
                assert(self@.lines[k as int] == line@);
                assert(line_ok(self@.episodes, self@.speakers, self@.lines[k as int]));
                assert(1 <= line.episode_id <= episodes@.len());
            }
            let episode = &episodes[(line.episode_id - 1) as usize];
            proof {
                assert(episode@ == self@.episodes[line.episode_id - 1]);
                assert(1 <= episode.season_id <= seasons@.len());
            }
            let season = &seasons[(episode.season_id - 1) as usize];
            if episode.number == episode_number && season.number as i64 == season_number {
                out.push(line.duplicate());
                assert(line_views(out@) =~= before.push(line@));
            }
            k += 1;
        }
        assert(all.take(n as int) =~= all);
        Ok(out)
    }
}

} // verus!
