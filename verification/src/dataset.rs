//! The relational dataset: seasons, episodes, speakers and lines, with the
//! lookup-or-insert operations that resolve natural keys to surrogate ids.

use crate::error::{ImportError, ImportErrorView};
use crate::models::{
    episode_views, line_views, speaker_views, Episode, EpisodeView, Line, LineView, Season,
    Speaker, SpeakerView,
};
use vstd::prelude::*;

verus! {

/// The content of a dataset. A row's id is its position in its table plus
/// one: rows are only ever appended.
pub struct DatasetView {
    pub seasons: Seq<Season>,
    pub episodes: Seq<EpisodeView>,
    pub speakers: Seq<SpeakerView>,
    pub lines: Seq<LineView>,
}

/// The ids of the seasons are their positions plus one, and no number
/// occurs twice.
pub open spec fn seasons_ok(seasons: Seq<Season>) -> bool {
    &&& forall|i: int| 0 <= i < seasons.len() ==> (#[trigger] seasons[i]).id == i + 1
    &&& forall|i: int, j: int|
        0 <= i < j < seasons.len() ==> (#[trigger] seasons[i]).number != (
        #[trigger] seasons[j]).number
}

/// The ids of the episodes are their positions plus one, every episode
/// belongs to a season, and no season has an episode number twice.
pub open spec fn episodes_ok(seasons: Seq<Season>, episodes: Seq<EpisodeView>) -> bool {
    &&& forall|i: int|
        0 <= i < episodes.len() ==> {
            &&& (#[trigger] episodes[i]).id == i + 1
            &&& 1 <= episodes[i].season_id <= seasons.len()
        }
    &&& forall|i: int, j: int|
        0 <= i < j < episodes.len() ==> !((#[trigger] episodes[i]).season_id == (
        #[trigger] episodes[j]).season_id && episodes[i].number == episodes[j].number)
}

/// The ids of the speakers are their positions plus one, and no name occurs
/// twice.
pub open spec fn speakers_ok(speakers: Seq<SpeakerView>) -> bool {
    &&& forall|i: int| 0 <= i < speakers.len() ==> (#[trigger] speakers[i]).id == i + 1
    &&& forall|i: int, j: int|
        0 <= i < j < speakers.len() ==> (#[trigger] speakers[i]).name != (
        #[trigger] speakers[j]).name
}

/// The line refers to an episode of its season and, where it has a speaker,
/// to that speaker by id and name.
pub open spec fn line_ok(
    episodes: Seq<EpisodeView>,
    speakers: Seq<SpeakerView>,
    line: LineView,
) -> bool {
    &&& 1 <= line.episode_id <= episodes.len()
    &&& episodes[line.episode_id - 1].season_id == line.season_id
    &&& line.line_number >= 1
    &&& match line.speaker_id {
        Some(s) => 1 <= s <= speakers.len() && line.speaker_name == Some(speakers[s - 1].name),
        None => line.speaker_name is None,
    }
}

/// The ids of the lines are their positions plus one, and every line is
/// well referenced.
pub open spec fn lines_ok(
    episodes: Seq<EpisodeView>,
    speakers: Seq<SpeakerView>,
    lines: Seq<LineView>,
) -> bool {
    forall|i: int|
        0 <= i < lines.len() ==> {
            &&& (#[trigger] lines[i]).id == i + 1
            &&& line_ok(episodes, speakers, lines[i])
        }
}

/// Ids are positions plus one, natural keys are unique, and every reference
/// leads to a row.
pub open spec fn well_formed(v: DatasetView) -> bool {
    &&& seasons_ok(v.seasons)
    &&& episodes_ok(v.seasons, v.episodes)
    &&& speakers_ok(v.speakers)
    &&& lines_ok(v.episodes, v.speakers, v.lines)
}

/// The dataset without rows.
pub open spec fn empty_dataset() -> DatasetView {
    DatasetView {
        seasons: Seq::empty(),
        episodes: Seq::empty(),
        speakers: Seq::empty(),
        lines: Seq::empty(),
    }
}

/// The first position at or after `i` of a season with this number, or the
/// length.
pub open spec fn season_slot(seasons: Seq<Season>, number: i32, i: int) -> int
    decreases seasons.len() - i,
{
    if 0 <= i < seasons.len() && seasons[i].number != number {
        season_slot(seasons, number, i + 1)
    } else {
        i
    }
}

/// The first position at or after `i` of an episode of this number in this
/// season, or the length.
pub open spec fn episode_slot(
    episodes: Seq<EpisodeView>,
    season_id: i64,
    number: i32,
    i: int,
) -> int
    decreases episodes.len() - i,
{
    if 0 <= i < episodes.len() && !(episodes[i].season_id == season_id && episodes[i].number
        == number) {
        episode_slot(episodes, season_id, number, i + 1)
    } else {
        i
    }
}

/// The first position at or after `i` of a speaker of this name, or the
/// length.
pub open spec fn speaker_slot(speakers: Seq<SpeakerView>, name: Seq<char>, i: int) -> int
    decreases speakers.len() - i,
{
    if 0 <= i < speakers.len() && speakers[i].name != name {
        speaker_slot(speakers, name, i + 1)
    } else {
        i
    }
}

/// The id that the season of this number has once it is resolved.
pub open spec fn season_id_of(v: DatasetView, number: i32) -> int {
    season_slot(v.seasons, number, 0) + 1
}

/// The id that the episode of this number in this season has once it is
/// resolved.
pub open spec fn episode_id_of(v: DatasetView, season_id: i64, number: i32) -> int {
    episode_slot(v.episodes, season_id, number, 0) + 1
}

/// The id that the speaker of this name has once resolved.
pub open spec fn speaker_id_of(v: DatasetView, name: Seq<char>) -> int {
    speaker_slot(v.speakers, name, 0) + 1
}

/// The dataset once the season of this number is resolved: unchanged where
/// it has the season, else with one more row. `None` where no id is left.
pub open spec fn with_season(v: DatasetView, number: i32) -> Option<DatasetView> {
    let id = season_id_of(v, number);
    if id <= v.seasons.len() {
        Some(v)
    } else if id <= i64::MAX {
        Some(DatasetView { seasons: v.seasons.push(Season { id: id as i64, number }), ..v })
    } else {
        None
    }
}

/// The dataset once the episode is resolved: where it has the episode, with
/// that row's title replaced, else with one more row. `None` where the
/// season is missing or no id is left.
pub open spec fn with_episode(
    v: DatasetView,
    season_id: i64,
    number: i32,
    title: Seq<char>,
) -> Option<DatasetView> {
    let id = episode_id_of(v, season_id, number);
    let row = EpisodeView { id: id as i64, season_id, number, title };
    if !(1 <= season_id <= v.seasons.len()) {
        None
    } else if id <= v.episodes.len() {
        Some(DatasetView { episodes: v.episodes.update(id - 1, row), ..v })
    } else if id <= i64::MAX {
        Some(DatasetView { episodes: v.episodes.push(row), ..v })
    } else {
        None
    }
}

/// The dataset once the speaker of this name is resolved: unchanged where it
/// has the speaker, else with one more row. `None` where no id is left.
pub open spec fn with_speaker(v: DatasetView, name: Seq<char>) -> Option<DatasetView> {
    let id = speaker_id_of(v, name);
    if id <= v.speakers.len() {
        Some(v)
    } else if id <= i64::MAX {
        Some(DatasetView { speakers: v.speakers.push(SpeakerView { id: id as i64, name }), ..v })
    } else {
        None
    }
}

/// The row that a new line gets.
pub open spec fn line_row(
    v: DatasetView,
    season_id: i64,
    episode_id: i64,
    speaker_id: Option<i64>,
    line_number: i32,
    content: Seq<char>,
) -> LineView {
    LineView {
        id: (v.lines.len() + 1) as i64,
        season_id,
        episode_id,
        speaker_id,
        speaker_name: match speaker_id {
            Some(s) => Some(v.speakers[s - 1].name),
            None => None,
        },
        line_number,
        content,
    }
}

/// The dataset with one more line. `None` where the line number is not
/// positive, the episode is missing or not of that season, the speaker is
/// missing, or no id is left.
pub open spec fn with_line(
    v: DatasetView,
    season_id: i64,
    episode_id: i64,
    speaker_id: Option<i64>,
    line_number: i32,
    content: Seq<char>,
) -> Option<DatasetView> {
    let row = line_row(v, season_id, episode_id, speaker_id, line_number, content);
    if v.lines.len() < i64::MAX && line_ok(v.episodes, v.speakers, row) {
        Some(DatasetView { lines: v.lines.push(row), ..v })
    } else {
        None
    }
}

/// The slot of a season number is the first position that holds it.
pub proof fn lemma_season_slot(seasons: Seq<Season>, number: i32, i: int)
    requires
        0 <= i <= seasons.len(),
    ensures
        i <= season_slot(seasons, number, i) <= seasons.len(),
        season_slot(seasons, number, i) < seasons.len() ==> seasons[season_slot(
            seasons,
            number,
            i,
        )].number == number,
        forall|k: int| i <= k < season_slot(seasons, number, i) ==> seasons[k].number != number,
    decreases seasons.len() - i,
{
    if i < seasons.len() && seasons[i].number != number {
        lemma_season_slot(seasons, number, i + 1);
    }
}

/// The slot of an episode key is the first position that holds it.
pub proof fn lemma_episode_slot(episodes: Seq<EpisodeView>, season_id: i64, number: i32, i: int)
    requires
        0 <= i <= episodes.len(),
    ensures
        i <= episode_slot(episodes, season_id, number, i) <= episodes.len(),
        ({
            let p = episode_slot(episodes, season_id, number, i);
            p < episodes.len() ==> episodes[p].season_id == season_id && episodes[p].number
                == number
        }),
        forall|k: int|
            i <= k < episode_slot(episodes, season_id, number, i) ==> !(episodes[k].season_id
                == season_id && episodes[k].number == number),
    decreases episodes.len() - i,
{
    if i < episodes.len() && !(episodes[i].season_id == season_id && episodes[i].number == number) {
        lemma_episode_slot(episodes, season_id, number, i + 1);
    }
}

/// The slot of a speaker name is the first position that holds it.
pub proof fn lemma_speaker_slot(speakers: Seq<SpeakerView>, name: Seq<char>, i: int)
    requires
        0 <= i <= speakers.len(),
    ensures
        i <= speaker_slot(speakers, name, i) <= speakers.len(),
        speaker_slot(speakers, name, i) < speakers.len() ==> speakers[speaker_slot(
            speakers,
            name,
            i,
        )].name == name,
        forall|k: int| i <= k < speaker_slot(speakers, name, i) ==> speakers[k].name != name,
    decreases speakers.len() - i,
{
    if i < speakers.len() && speakers[i].name != name {
        lemma_speaker_slot(speakers, name, i + 1);
    }
}

/// Resolving a season keeps the dataset well formed.
pub proof fn lemma_with_season_ok(v: DatasetView, number: i32)
    requires
        well_formed(v),
        with_season(v, number) is Some,
    ensures
        well_formed(with_season(v, number)->0),
        1 <= season_id_of(v, number) <= with_season(v, number)->0.seasons.len(),
        with_season(v, number)->0.seasons[season_id_of(v, number) - 1].number == number,
{
    lemma_season_slot(v.seasons, number, 0);
}

/// Resolving an episode keeps the dataset well formed, and the row of the
/// id that is returned holds the key and the title.
pub proof fn lemma_with_episode_ok(v: DatasetView, season_id: i64, number: i32, title: Seq<char>)
    requires
        well_formed(v),
        with_episode(v, season_id, number, title) is Some,
    ensures
        well_formed(with_episode(v, season_id, number, title)->0),
        ({
            let w = with_episode(v, season_id, number, title)->0;
            let id = episode_id_of(v, season_id, number);
            &&& 1 <= id <= w.episodes.len()
            &&& w.episodes[id - 1] == EpisodeView { id: id as i64, season_id, number, title }
        }),
{
    lemma_episode_slot(v.episodes, season_id, number, 0);
}

/// Resolving a speaker keeps the dataset well formed.
pub proof fn lemma_with_speaker_ok(v: DatasetView, name: Seq<char>)
    requires
        well_formed(v),
        with_speaker(v, name) is Some,
    ensures
        well_formed(with_speaker(v, name)->0),
        1 <= speaker_id_of(v, name) <= with_speaker(v, name)->0.speakers.len(),
        with_speaker(v, name)->0.speakers[speaker_id_of(v, name) - 1].name == name,
{
    lemma_speaker_slot(v.speakers, name, 0);
}

/// Storing a line keeps the dataset well formed.
pub proof fn lemma_with_line_ok(
    v: DatasetView,
    season_id: i64,
    episode_id: i64,
    speaker_id: Option<i64>,
    line_number: i32,
    content: Seq<char>,
)
    requires
        well_formed(v),
        with_line(v, season_id, episode_id, speaker_id, line_number, content) is Some,
    ensures
        well_formed(with_line(v, season_id, episode_id, speaker_id, line_number, content)->0),
{
}

/// The id for the next row of a table of `len` rows, if one is left.
fn next_id(len: usize) -> (r: Option<i64>)
    ensures
        r == (if len < i64::MAX {
            Some((len + 1) as i64)
        } else {
            None
        }),
{
    if (len as u64) < 0x7fff_ffff_ffff_ffff {
        Some((len as u64 + 1) as i64)
    } else {
        None
    }
}

/// Whether `id` is the id of a row of a table of `len` rows.
fn is_row_id(id: i64, len: usize) -> (b: bool)
    ensures
        b == (1 <= id <= len),
{
    id >= 1 && (id as u64) <= (len as u64)
}

/// A dataset held in memory.
#[derive(Debug)]
pub struct Dataset {
    seasons: Vec<Season>,
    episodes: Vec<Episode>,
    speakers: Vec<Speaker>,
    lines: Vec<Line>,
}

impl View for Dataset {
    type V = DatasetView;

    closed spec fn view(&self) -> DatasetView {
        DatasetView {
            seasons: self.seasons@,
            episodes: episode_views(self.episodes@),
            speakers: speaker_views(self.speakers@),
            lines: line_views(self.lines@),
        }
    }
}

impl Dataset {
    /// The dataset is well formed.
    pub open spec fn wf(&self) -> bool {
        well_formed(self@)
    }

    /// A dataset without rows.
    pub fn new() -> (r: Dataset)
        ensures
            r@ == empty_dataset(),
            r.wf(),
    {
        let r = Dataset {
            seasons: Vec::new(),
            episodes: Vec::new(),
            speakers: Vec::new(),
            lines: Vec::new(),
        };
        assert(r@.episodes =~= Seq::empty());
        assert(r@.speakers =~= Seq::empty());
        assert(r@.lines =~= Seq::empty());
        r
    }

    /// The lines, in the order of their ids.
    pub fn lines(&self) -> (r: &Vec<Line>)
        ensures
            line_views(r@) == self@.lines,
    {
        &self.lines
    }

    /// The seasons, in the order of their ids.
    pub fn seasons(&self) -> (r: &Vec<Season>)
        ensures
            r@ == self@.seasons,
    {
        &self.seasons
    }

    /// The episodes, in the order of their ids.
    pub fn episodes(&self) -> (r: &Vec<Episode>)
        ensures
            episode_views(r@) == self@.episodes,
    {
        &self.episodes
    }

    /// The speakers, in the order of their ids.
    pub fn speakers(&self) -> (r: &Vec<Speaker>)
        ensures
            speaker_views(r@) == self@.speakers,
    {
        &self.speakers
    }

    /// A copy of the dataset, row for row.
    pub fn snapshot(&self) -> (r: Dataset)
        ensures
            r@ == self@,
    {
        let mut seasons: Vec<Season> = Vec::new();
        let mut i: usize = 0;
        while i < self.seasons.len()
            invariant
                i <= self.seasons@.len(),
                seasons@ == self.seasons@.take(i as int),
            decreases self.seasons@.len() - i,
        {
            seasons.push(self.seasons[i]);
            assert(seasons@ =~= self.seasons@.take(i + 1));
            i += 1;
        }
        assert(seasons@ =~= self.seasons@);
        let mut episodes: Vec<Episode> = Vec::new();
        let mut i: usize = 0;
        while i < self.episodes.len()
            invariant
                i <= self.episodes@.len(),
                episodes@.len() == i,
                forall|k: int| 0 <= k < i ==> (#[trigger] episodes@[k])@ == self.episodes@[k]@,
            decreases self.episodes@.len() - i,
        {
            episodes.push(self.episodes[i].duplicate());
            i += 1;
        }
        assert(episode_views(episodes@) =~= episode_views(self.episodes@));
        let mut speakers: Vec<Speaker> = Vec::new();
        let mut i: usize = 0;
        while i < self.speakers.len()
            invariant
                i <= self.speakers@.len(),
                speakers@.len() == i,
                forall|k: int| 0 <= k < i ==> (#[trigger] speakers@[k])@ == self.speakers@[k]@,
            decreases self.speakers@.len() - i,
        {
            speakers.push(self.speakers[i].duplicate());
            i += 1;
        }
        assert(speaker_views(speakers@) =~= speaker_views(self.speakers@));
        let mut lines: Vec<Line> = Vec::new();
        let mut i: usize = 0;
        while i < self.lines.len()
            invariant
                i <= self.lines@.len(),
                lines@.len() == i,
                forall|k: int| 0 <= k < i ==> (#[trigger] lines@[k])@ == self.lines@[k]@,
            decreases self.lines@.len() - i,
        {
            lines.push(self.lines[i].duplicate());
            i += 1;
        }
        assert(line_views(lines@) =~= line_views(self.lines@));
        Dataset { seasons, episodes, speakers, lines }
    }

    /// The id of the season of this number, which gets a row where it has
    /// none. Fails, and changes nothing, where no id is left.
    pub fn resolve_season(&mut self, number: i32) -> (r: Result<i64, ImportError>)
        requires
            old(self).wf(),
        ensures
            final(self).wf(),
            match r {
                Ok(id) => with_season(old(self)@, number) == Some(final(self)@) && id
                    == season_id_of(old(self)@, number),
                Err(e) => e@ == ImportErrorView::Resolution && with_season(old(self)@, number)
                    is None && final(self)@ == old(self)@,
            },
    {
        let n = self.seasons.len();
        let mut p: usize = 0;
        while p < n && self.seasons[p].number != number
            invariant
                p <= n,
                n == self.seasons@.len(),
                *self == *old(self),
                season_slot(self.seasons@, number, p as int) == season_slot(
                    self.seasons@,
                    number,
                    0,
                ),
            decreases n - p,
        {
            p += 1;
        }
        proof {
            lemma_season_slot(self.seasons@, number, 0);
        }
        if p < n {
            return Ok((p + 1) as i64);
        }
        let id = match next_id(n) {
            Some(id) => id,
            None => {
                return Err(ImportError::Resolution);
            },
        };
        self.seasons.push(Season { id, number });
        proof {
            lemma_with_season_ok(old(self)@, number);
        }
        Ok(id)
    }

    /// The id of the episode of this number in the season, which gets a row
    /// where it has none; the row's title becomes `title`. Fails, and
    /// changes nothing, where the season is missing or no id is left.
    pub fn resolve_episode(&mut self, season_id: i64, number: i32, title: &str) -> (r: Result<
        i64,
        ImportError,
    >)
        requires
            old(self).wf(),
        ensures
            final(self).wf(),
            match r {
                Ok(id) => with_episode(old(self)@, season_id, number, title@) == Some(
                    final(self)@,
                ) && id == episode_id_of(old(self)@, season_id, number),
                Err(e) => e@ == ImportErrorView::Resolution && with_episode(
                    old(self)@,
                    season_id,
                    number,
                    title@,
                ) is None && final(self)@ == old(self)@,
            },
    {
        if !is_row_id(season_id, self.seasons.len()) {
            return Err(ImportError::Resolution);
        }
        let n = self.episodes.len();
        let mut p: usize = 0;
        while p < n && !(self.episodes[p].season_id == season_id && self.episodes[p].number
            == number)
            invariant
                p <= n,
                n == self.episodes@.len(),
                *self == *old(self),
                episode_slot(self@.episodes, season_id, number, p as int) == episode_slot(
                    self@.episodes,
                    season_id,
                    number,
                    0,
                ),
            decreases n - p,
        {
            assert(self@.episodes[p as int] == self.episodes@[p as int]@);
            p += 1;
        }
        proof {
            lemma_episode_slot(self@.episodes, season_id, number, 0);
            if p < n {
                assert(self@.episodes[p as int] == self.episodes@[p as int]@);
            }
        }
        if p < n {
            let id = self.episodes[p].id;
            self.episodes.set(p, Episode { id, season_id, number, title: title.to_owned() });
            proof {
                let row = EpisodeView { id, season_id, number, title: title@ };
                assert(self@.episodes =~= old(self)@.episodes.update(p as int, row));
                lemma_with_episode_ok(old(self)@, season_id, number, title@);
            }
            return Ok(id);
        }
        let id = match next_id(n) {
            Some(id) => id,
            None => {
                return Err(ImportError::Resolution);
            },
        };
        self.episodes.push(Episode { id, season_id, number, title: title.to_owned() });
        proof {
            let row = EpisodeView { id, season_id, number, title: title@ };
            assert(self@.episodes =~= old(self)@.episodes.push(row));
            lemma_with_episode_ok(old(self)@, season_id, number, title@);
        }
        Ok(id)
    }

    /// The id of the speaker of this name, who gets a row where there is
    /// none. Fails, and changes nothing, where no id is left.
    pub fn resolve_speaker(&mut self, name: &str) -> (r: Result<i64, ImportError>)
        requires
            old(self).wf(),
        ensures
            final(self).wf(),
            match r {
                Ok(id) => with_speaker(old(self)@, name@) == Some(final(self)@) && id
                    == speaker_id_of(old(self)@, name@),
                Err(e) => e@ == ImportErrorView::Resolution && with_speaker(old(self)@, name@)
                    is None && final(self)@ == old(self)@,
            },
    {
        let key = name.to_owned();
        let n = self.speakers.len();
        let mut p: usize = 0;
        while p < n && self.speakers[p].name != key
            invariant
                p <= n,
                n == self.speakers@.len(),
                *self == *old(self),
                key@ == name@,
                speaker_slot(self@.speakers, name@, p as int) == speaker_slot(
                    self@.speakers,
                    name@,
                    0,
                ),
            decreases n - p,
        {
            assert(self@.speakers[p as int] == self.speakers@[p as int]@);
            p += 1;
        }
        proof {
            lemma_speaker_slot(self@.speakers, name@, 0);
            if p < n {
                assert(self@.speakers[p as int] == self.speakers@[p as int]@);
            }
        }
        if p < n {
            return Ok((p + 1) as i64);
        }
        let id = match next_id(n) {
            Some(id) => id,
            None => {
                return Err(ImportError::Resolution);
            },
        };
        self.speakers.push(Speaker { id, name: key });
        proof {
            assert(self@.speakers =~= old(self)@.speakers.push(SpeakerView { id, name: name@ }));
            lemma_with_speaker_ok(old(self)@, name@);
        }
        Ok(id)
    }

    /// Stores one more line and returns its id. Fails, and changes nothing,
    /// where the line number is not positive, the episode is missing or not
    /// of this season, the speaker is missing, or no id is left.
    pub fn insert_line(
        &mut self,
        season_id: i64,
        episode_id: i64,
        speaker_id: Option<i64>,
        line_number: i32,
        content: &str,
    ) -> (r: Result<i64, ImportError>)
        requires
            old(self).wf(),
        ensures
            final(self).wf(),
            match r {
                Ok(id) => with_line(
                    old(self)@,
                    season_id,
                    episode_id,
                    speaker_id,
                    line_number,
                    content@,
                ) == Some(final(self)@) && id == old(self)@.lines.len() + 1,
                Err(e) => e@ == ImportErrorView::Resolution && with_line(
                    old(self)@,
                    season_id,
                    episode_id,
                    speaker_id,
                    line_number,
                    content@,
                ) is None && final(self)@ == old(self)@,
            },
    {
        let n = self.lines.len();
        let id = match next_id(n) {
            Some(id) => id,
            None => {
                return Err(ImportError::Resolution);
            },
        };
        if line_number < 1 || !is_row_id(episode_id, self.episodes.len()) {
            return Err(ImportError::Resolution);
        }
        let at = (episode_id - 1) as usize;
        assert(self@.episodes[at as int] == self.episodes@[at as int]@);
        if self.episodes[at].season_id != season_id {
            return Err(ImportError::Resolution);
        }
        let speaker_name = match speaker_id {
            Some(s) => {
                if !is_row_id(s, self.speakers.len()) {
                    return Err(ImportError::Resolution);
                }
                let who = (s - 1) as usize;
                assert(self@.speakers[who as int] == self.speakers@[who as int]@);
                Some(self.speakers[who].name.clone())
            },
            None => None,
        };
        let line = Line {
            id,
            season_id,
            episode_id,
            speaker_id,
            speaker_name,
            line_number,
            content: content.to_owned(),
        };
        proof {
            let row = line_row(old(self)@, season_id, episode_id, speaker_id, line_number, content@);
            assert(line@ == row);
        }
        self.lines.push(line);
        proof {
            let row = line_row(old(self)@, season_id, episode_id, speaker_id, line_number, content@);
            assert(self@.lines =~= old(self)@.lines.push(row));
            lemma_with_line_ok(
                old(self)@,
                season_id,
                episode_id,
                speaker_id,
                line_number,
                content@,
            );
        }
        Ok(id)
    }
}

} // verus!
