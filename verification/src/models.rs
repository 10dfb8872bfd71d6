//! The rows of the dataset and the read requests.

use vstd::prelude::*;

verus! {

/// The session on whose dataset a request works.
#[derive(Debug, Clone)]
pub struct UserQuery {
    pub user_id: String,
}

impl UserQuery {
    /// The session id, unless it is empty.
    pub fn session_id(&self) -> (r: Option<String>)
        ensures
            match r {
                Some(id) => id@ == self.user_id@ && self.user_id@.len() > 0,
                None => self.user_id@.len() == 0,
            },
    {
        if self.user_id.as_str().unicode_len() == 0 {
            None
        } else {
            Some(self.user_id.clone())
        }
    }
}

/// A season: its surrogate id and its number, the natural key.
#[derive(Clone, Copy, Debug, PartialEq, Eq, Structural)]
pub struct Season {
    pub id: i64,
    pub number: i32,
}

/// An episode of a season; `(season_id, number)` is its natural key.
#[derive(Clone, Debug)]
pub struct Episode {
    pub id: i64,
    pub season_id: i64,
    pub number: i32,
    pub title: String,
}

/// An episode row, its title as characters.
pub struct EpisodeView {
    pub id: i64,
    pub season_id: i64,
    pub number: i32,
    pub title: Seq<char>,
}

impl View for Episode {
    type V = EpisodeView;

    open spec fn view(&self) -> EpisodeView {
        EpisodeView {
            id: self.id,
            season_id: self.season_id,
            number: self.number,
            title: self.title@,
        }
    }
}

impl Episode {
    /// A copy of the row.
    pub fn duplicate(&self) -> (r: Episode)
        ensures
            r@ == self@,
    {
        Episode {
            id: self.id,
            season_id: self.season_id,
            number: self.number,
            title: self.title.clone(),
        }
    }
}

/// A speaker; the name is the natural key.
#[derive(Clone, Debug)]
pub struct Speaker {
    pub id: i64,
    pub name: String,
}

/// A speaker row, the name as characters.
pub struct SpeakerView {
    pub id: i64,
    pub name: Seq<char>,
}

impl View for Speaker {
    type V = SpeakerView;

    open spec fn view(&self) -> SpeakerView {
        SpeakerView { id: self.id, name: self.name@ }
    }
}

impl Speaker {
    /// A copy of the row.
    pub fn duplicate(&self) -> (r: Speaker)
        ensures
            r@ == self@,
    {
        Speaker { id: self.id, name: self.name.clone() }
    }
}

/// One line of a transcript, with the name of its speaker joined in.
#[derive(Clone, Debug)]
pub struct Line {
    pub id: i64,
    pub season_id: i64,
    pub episode_id: i64,
    pub speaker_id: Option<i64>,
    pub speaker_name: Option<String>,
    pub line_number: i32,
    pub content: String,
}

/// A line, its texts as characters.
pub struct LineView {
    pub id: i64,
    pub season_id: i64,
    pub episode_id: i64,
    pub speaker_id: Option<i64>,
    pub speaker_name: Option<Seq<char>>,
    pub line_number: i32,
    pub content: Seq<char>,
}

impl View for Line {
    type V = LineView;

    open spec fn view(&self) -> LineView {
        LineView {
            id: self.id,
            season_id: self.season_id,
            episode_id: self.episode_id,
            speaker_id: self.speaker_id,
            speaker_name: match self.speaker_name {
                Some(n) => Some(n@),
                None => None,
            },
            line_number: self.line_number,
            content: self.content@,
        }
    }
}

impl Line {
    /// A copy of the line.
    pub fn duplicate(&self) -> (r: Line)
        ensures
            r@ == self@,
    {
        Line {
            id: self.id,
            season_id: self.season_id,
            episode_id: self.episode_id,
            speaker_id: self.speaker_id,
            speaker_name: match &self.speaker_name {
                Some(n) => Some(n.clone()),
                None => None,
            },
            line_number: self.line_number,
            content: self.content.clone(),
        }
    }
}

/// The rows, each by its view.
pub open spec fn episode_views(rows: Seq<Episode>) -> Seq<EpisodeView> {
    rows.map_values(|e: Episode| e@)
}

/// The rows, each by its view.
pub open spec fn speaker_views(rows: Seq<Speaker>) -> Seq<SpeakerView> {
    rows.map_values(|s: Speaker| s@)
}

/// The lines, each by its view.
pub open spec fn line_views(rows: Seq<Line>) -> Seq<LineView> {
    rows.map_values(|l: Line| l@)
}

/// The mood of a line. No import fills it in.
#[derive(Debug, Clone, Copy, PartialEq, Eq, Structural)]
pub enum Sentiment {
    Positive,
    Neutral,
    Negative,
}

/// Annotations of a line. No import fills them in.
#[derive(Clone, Debug)]
pub struct Metadata {
    pub id: i64,
    pub line_id: i64,
    pub sentiment: Sentiment,
    pub tone: String,
    pub primary_emotion: String,
}

/// A search for a phrase, narrowed by any of three ids, with a context
/// radius.
#[derive(Clone, Debug)]
pub struct SearchPhrasesQuery {
    pub phrase: Option<String>,
    pub season: Option<i64>,
    pub episode: Option<i64>,
    pub speaker: Option<i64>,
    pub context: Option<i32>,
}

/// A request for one random line, narrowed by any of three ids.
#[derive(Clone, Copy, Debug)]
pub struct RandomLineQuery {
    pub season: Option<i64>,
    pub episode: Option<i64>,
    pub speaker: Option<i64>,
}

} // verus!
