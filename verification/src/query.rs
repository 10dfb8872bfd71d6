//! Composing the reads: the predicates that the optional filters give, the
//! statement text and parameters for a relational store, and the same reads
//! carried out on the rows of a dataset.

use crate::dataset::Dataset;
use crate::models::{line_views, Line, LineView, RandomLineQuery, SearchPhrasesQuery};
use crate::text::chars_of;
use vstd::prelude::*;

verus! {

/// A column of a line that a filter can name.
#[derive(Debug, Clone, Copy, PartialEq, Eq, Structural)]
pub enum Field {
    Season,
    Episode,
    Speaker,
}

/// `field = value`.
#[derive(Debug, Clone, Copy, PartialEq, Eq, Structural)]
pub struct Predicate {
    pub field: Field,
    pub value: i64,
}

/// The predicate that a filter gives: none where the filter is absent.
pub open spec fn optional(field: Field, value: Option<i64>) -> Seq<Predicate> {
    match value {
        Some(v) => seq![Predicate { field, value: v }],
        None => Seq::empty(),
    }
}

/// One predicate for each filter that is given, in the order season,
/// episode, speaker.
pub open spec fn predicates_of(
    season: Option<i64>,
    episode: Option<i64>,
    speaker: Option<i64>,
) -> Seq<Predicate> {
    optional(Field::Season, season) + optional(Field::Episode, episode) + optional(
        Field::Speaker,
        speaker,
    )
}

/// What a line holds in a column.
pub open spec fn field_of(line: LineView, field: Field) -> Option<i64> {
    match field {
        Field::Season => Some(line.season_id),
        Field::Episode => Some(line.episode_id),
        Field::Speaker => line.speaker_id,
    }
}

/// The line holds the value of the predicate in its column. A line without
/// a speaker meets no predicate on the speaker.
pub open spec fn holds(line: LineView, predicate: Predicate) -> bool {
    field_of(line, predicate.field) == Some(predicate.value)
}

/// The line meets every predicate.
pub open spec fn satisfies(line: LineView, predicates: Seq<Predicate>) -> bool {
    forall|i: int| 0 <= i < predicates.len() ==> holds(line, #[trigger] predicates[i])
}

/// The test for the lines that meet every predicate.
pub open spec fn passes(predicates: Seq<Predicate>) -> spec_fn(LineView) -> bool {
    |line: LineView| satisfies(line, predicates)
}

/// The lines that meet every predicate, in the order of their ids.
pub open spec fn matching(lines: Seq<LineView>, predicates: Seq<Predicate>) -> Seq<LineView> {
    lines.filter(passes(predicates))
}

/// The predicates of the given filters are met exactly by the lines whose
/// columns equal each filter that is given.
pub proof fn lemma_predicates_mean_filters(
    line: LineView,
    season: Option<i64>,
    episode: Option<i64>,
    speaker: Option<i64>,
)
    ensures
        satisfies(line, predicates_of(season, episode, speaker)) <==> {
            &&& season matches Some(s) ==> line.season_id == s
            &&& episode matches Some(e) ==> line.episode_id == e
            &&& speaker matches Some(p) ==> line.speaker_id == Some(p)
        },
{
    let a = optional(Field::Season, season);
    let b = optional(Field::Episode, episode);
    let c = optional(Field::Speaker, speaker);
    let all = predicates_of(season, episode, speaker);
    assert(all == a + b + c);
    if satisfies(line, all) {
        if season is Some {
            assert(holds(line, all[0]));
        }
        if episode is Some {
            assert(holds(line, all[a.len() as int]));
        }
        if speaker is Some {
            assert(holds(line, all[(a.len() + b.len()) as int]));
        }
    }
}

/// No filter, no predicate: every line passes.
pub proof fn lemma_no_filter_keeps_all(lines: Seq<LineView>)
    ensures
        matching(lines, predicates_of(None, None, None)) == lines,
    decreases lines.len(),
{
    reveal(Seq::filter);
    let p = predicates_of(None, None, None);
    assert(p.len() == 0);
    if lines.len() > 0 {
        lemma_no_filter_keeps_all(lines.drop_last());
        assert(satisfies(lines.last(), p));
        assert(lines.drop_last().push(lines.last()) =~= lines);
    }
}

/// The predicates of the given filters, in the order season, episode,
/// speaker.
pub fn compose(season: Option<i64>, episode: Option<i64>, speaker: Option<i64>) -> (r: Vec<
    Predicate,
>)
    ensures
        r@ == predicates_of(season, episode, speaker),
{
    let mut out: Vec<Predicate> = Vec::new();
    if let Some(value) = season {
        out.push(Predicate { field: Field::Season, value });
    }
    if let Some(value) = episode {
        out.push(Predicate { field: Field::Episode, value });
    }
    if let Some(value) = speaker {
        out.push(Predicate { field: Field::Speaker, value });
    }
    assert(out@ =~= predicates_of(season, episode, speaker));
    out
}

impl RandomLineQuery {
    /// The predicates of the filters that the request gives.
    pub open spec fn spec_predicates(&self) -> Seq<Predicate> {
        predicates_of(self.season, self.episode, self.speaker)
    }

    /// The predicates of the filters that the request gives, in the order
    /// season, episode, speaker.
    pub fn predicates(&self) -> (r: Vec<Predicate>)
        ensures
            r@ == self.spec_predicates(),
    {
        compose(self.season, self.episode, self.speaker)
    }
}

/// The radius that a request asks for: its `context` where that is
/// positive, else 0.
pub open spec fn radius_of(context: Option<i32>) -> i32 {
    match context {
        Some(r) => if r > 0 {
            r
        } else {
            0
        },
        None => 0,
    }
}

impl SearchPhrasesQuery {
    /// The predicates of the filters that the request gives.
    pub open spec fn spec_predicates(&self) -> Seq<Predicate> {
        predicates_of(self.season, self.episode, self.speaker)
    }

    /// The phrase to look for; the empty phrase where none is given.
    pub open spec fn spec_phrase(&self) -> Seq<char> {
        match self.phrase {
            Some(p) => p@,
            None => Seq::empty(),
        }
    }

    /// The predicates of the filters that the request gives, in the order
    /// season, episode, speaker.
    pub fn predicates(&self) -> (r: Vec<Predicate>)
        ensures
            r@ == self.spec_predicates(),
    {
        compose(self.season, self.episode, self.speaker)
    }

    /// The phrase to look for; the empty phrase where none is given.
    pub fn phrase_text(&self) -> (r: String)
        ensures
            r@ == self.spec_phrase(),
    {
        match &self.phrase {
            Some(p) => p.clone(),
            None => String::new(),
        }
    }

    /// The context radius: the one asked for where it is positive, else 0.
    pub fn radius(&self) -> (r: i32)
        ensures
            r == radius_of(self.context),
            r >= 0,
    {
        match self.context {
            Some(r) => if r > 0 {
                r
            } else {
                0
            },
            None => 0,
        }
    }
}

/// Whether the line meets the predicate.
pub fn line_holds(line: &Line, predicate: &Predicate) -> (b: bool)
    ensures
        b == holds(line@, *predicate),
{
    match predicate.field {
        Field::Season => line.season_id == predicate.value,
        Field::Episode => line.episode_id == predicate.value,
        Field::Speaker => match line.speaker_id {
            Some(s) => s == predicate.value,
            None => false,
        },
    }
}

/// Whether the line meets every predicate.
pub fn line_satisfies(line: &Line, predicates: &Vec<Predicate>) -> (b: bool)
    ensures
        b == satisfies(line@, predicates@),
{
    let n = predicates.len();
    let mut k: usize = 0;
    while k < n
        invariant
            k <= n,
            n == predicates@.len(),
            forall|i: int| 0 <= i < k ==> holds(line@, #[trigger] predicates@[i]),
        decreases n - k,
    {
        if !line_holds(line, &predicates[k]) {
            return false;
        }
        k += 1;
    }
    true
}

/// The code of `c`, with `A` to `Z` counted as `a` to `z`.
pub open spec fn folded(c: char) -> u32 {
    if 'A' <= c <= 'Z' {
        (c as u32 + 32) as u32
    } else {
        c as u32
    }
}

/// `phrase` stands in `content` at position `i`, the case of the letters
/// `A` to `Z` set aside.
pub open spec fn phrase_at(content: Seq<char>, phrase: Seq<char>, i: int) -> bool {
    &&& 0 <= i
    &&& i + phrase.len() <= content.len()
    &&& forall|j: int| 0 <= j < phrase.len() ==> folded(#[trigger] content[i + j]) == folded(phrase[j])
}

/// `content` contains `phrase`. Matching sets the case of the letters `A`
/// to `Z` aside, and of no other character. The empty phrase is contained
/// in every content.
pub open spec fn contains_phrase(content: Seq<char>, phrase: Seq<char>) -> bool {
    exists|i: int| phrase_at(content, phrase, i)
}

/// The code of `c`, with `A` to `Z` counted as `a` to `z`.
pub fn fold_char(c: char) -> (r: u32)
    ensures
        r == folded(c),
{
    if 'A' <= c && c <= 'Z' {
        c as u32 + 32
    } else {
        c as u32
    }
}

fn phrase_stands_at(content: &Vec<char>, phrase: &Vec<char>, i: usize) -> (b: bool)
    requires
        i + phrase.len() <= content.len(),
    ensures
        b == phrase_at(content@, phrase@, i as int),
{
    let m = phrase.len();
    let mut j: usize = 0;
    while j < m
        invariant
            j <= m,
            m == phrase@.len(),
            i + m <= content.len(),
            forall|k: int| 0 <= k < j ==> folded(#[trigger] content@[i + k]) == folded(phrase@[k]),
        decreases m - j,
    {
        if fold_char(content[i + j]) != fold_char(phrase[j]) {
            assert(folded(content@[i + j]) != folded(phrase@[j as int]));
            return false;
        }
        j += 1;
    }
    true
}

/// Whether `content` contains `phrase`, the case of `A` to `Z` set aside.
pub fn has_phrase(content: &str, phrase: &str) -> (b: bool)
    ensures
        b == contains_phrase(content@, phrase@),
{
    let hay = chars_of(content);
    let needle = chars_of(phrase);
    if needle.len() > hay.len() {
        assert forall|i: int| !phrase_at(content@, phrase@, i) by {}
        return false;
    }
    if needle.len() == 0 {
        assert(phrase_at(content@, phrase@, 0));
        return true;
    }
    let last = hay.len() - needle.len();
    let mut i: usize = 0;
    while i <= last
        invariant
            i <= last + 1,
            last < hay.len(),
            last == hay@.len() - needle@.len(),
            hay@ == content@,
            needle@ == phrase@,
            forall|k: int| 0 <= k < i ==> !phrase_at(content@, phrase@, k),
        decreases last + 1 - i,
    {
        if phrase_stands_at(&hay, &needle, i) {
            return true;
        }
        i += 1;
    }
    assert forall|k: int| !phrase_at(content@, phrase@, k) by {
        if 0 <= k && k + phrase@.len() <= content@.len() {
            assert(k < i);
        }
    }
    false
}

/// A line contains the phrase and meets every predicate.
pub open spec fn is_hit(line: LineView, phrase: Seq<char>, predicates: Seq<Predicate>) -> bool {
    contains_phrase(line.content, phrase) && satisfies(line, predicates)
}

/// The test for the hits of a search.
pub open spec fn hit_test(phrase: Seq<char>, predicates: Seq<Predicate>) -> spec_fn(LineView) -> bool {
    |line: LineView| is_hit(line, phrase, predicates)
}

/// The lines that contain the phrase and meet every predicate, in the order
/// of their ids.
pub open spec fn hits(lines: Seq<LineView>, phrase: Seq<char>, predicates: Seq<Predicate>) -> Seq<
    LineView,
> {
    lines.filter(hit_test(phrase, predicates))
}

/// The line belongs to the episode and its number lies in `lo..=hi`.
pub open spec fn in_window(line: LineView, episode_id: i64, lo: int, hi: int) -> bool {
    line.episode_id == episode_id && lo <= line.line_number <= hi
}

/// Where a line of this number goes among `rows`: the first position at or
/// after `i` that holds a greater number, or the length.
pub open spec fn line_place(rows: Seq<LineView>, number: i32, i: int) -> int
    decreases rows.len() - i,
{
    if 0 <= i < rows.len() && rows[i].line_number <= number {
        line_place(rows, number, i + 1)
    } else {
        i
    }
}

/// Those of the first `k` lines that lie in the window, in ascending order
/// of line number, equal numbers in the order of their ids.
pub open spec fn window_rows(lines: Seq<LineView>, episode_id: i64, lo: int, hi: int, k: nat) -> Seq<
    LineView,
>
    decreases k,
{
    if k == 0 {
        Seq::empty()
    } else {
        let before = window_rows(lines, episode_id, lo, hi, (k - 1) as nat);
        let line = lines[k - 1];
        if in_window(line, episode_id, lo, hi) {
            before.insert(line_place(before, line.line_number, 0), line)
        } else {
            before
        }
    }
}

/// The context of a hit: the lines of its episode whose numbers lie within
/// `radius` of its own, the hit among them.
pub open spec fn context_of(lines: Seq<LineView>, hit: LineView, radius: int) -> Seq<LineView> {
    window_rows(
        lines,
        hit.episode_id,
        hit.line_number - radius,
        hit.line_number + radius,
        lines.len(),
    )
}

/// One line that a search found, with its context where one was asked for.
#[derive(Debug)]
pub struct SearchHit {
    pub line: Line,
    pub context: Option<Vec<Line>>,
}

/// A hit, by the views of its lines.
pub struct SearchHitView {
    pub line: LineView,
    pub context: Option<Seq<LineView>>,
}

impl View for SearchHit {
    type V = SearchHitView;

    open spec fn view(&self) -> SearchHitView {
        SearchHitView {
            line: self.line@,
            context: match self.context {
                Some(rows) => Some(line_views(rows@)),
                None => None,
            },
        }
    }
}

/// The hits, each by its view.
pub open spec fn hit_views(found: Seq<SearchHit>) -> Seq<SearchHitView> {
    found.map_values(|h: SearchHit| h@)
}

/// What a search returns for one hit: no context for radius 0.
pub open spec fn hit_with_context(lines: Seq<LineView>, hit: LineView, radius: int) -> SearchHitView {
    SearchHitView {
        line: hit,
        context: if radius > 0 {
            Some(context_of(lines, hit, radius))
        } else {
            None
        },
    }
}

/// What a search returns.
pub open spec fn search_result(
    lines: Seq<LineView>,
    phrase: Seq<char>,
    predicates: Seq<Predicate>,
    radius: int,
) -> Seq<SearchHitView> {
    hits(lines, phrase, predicates).map_values(|h: LineView| hit_with_context(lines, h, radius))
}

/// The lines that meet every predicate, copied, in the order of their ids.
pub fn matching_lines(lines: &Vec<Line>, predicates: &Vec<Predicate>) -> (r: Vec<Line>)
    ensures
        line_views(r@) == matching(line_views(lines@), predicates@),
{
    let ghost all = line_views(lines@);
    let mut out: Vec<Line> = Vec::new();
    let n = lines.len();
    let mut k: usize = 0;
    proof {
        reveal(Seq::filter);
        assert(all.take(0) =~= Seq::empty());
        assert(line_views(out@) =~= Seq::empty());
    }
    while k < n
        invariant
            k <= n,
            n == lines@.len(),
            all == line_views(lines@),
            line_views(out@) == matching(all.take(k as int), predicates@),
        decreases n - k,
    {
        let line = &lines[k];
        let ghost before = line_views(out@);
        proof {
            reveal(Seq::filter);
            assert(all.take(k + 1).drop_last() =~= all.take(k as int));
            assert(all.take(k + 1).last() == line@);
        }
        if line_satisfies(line, predicates) {
            out.push(line.duplicate());
            assert(line_views(out@) =~= before.push(line@));
        }
        k += 1;
    }
    assert(all.take(n as int) =~= all);
    out
}

/// The lines of the episode whose numbers lie in `lo..=hi`, copied, in
/// ascending order of line number.
pub fn window(lines: &Vec<Line>, episode_id: i64, lo: i64, hi: i64) -> (r: Vec<Line>)
    ensures
        line_views(r@) == window_rows(
            line_views(lines@),
            episode_id,
            lo as int,
            hi as int,
            lines@.len(),
        ),
{
    let ghost all = line_views(lines@);
    let mut out: Vec<Line> = Vec::new();
    let n = lines.len();
    let mut k: usize = 0;
    assert(line_views(out@) =~= Seq::empty());
    while k < n
        invariant
            k <= n,
            n == lines@.len(),
            all == line_views(lines@),
            line_views(out@) == window_rows(all, episode_id, lo as int, hi as int, k as nat),
        decreases n - k,
    {
        let line = &lines[k];
        assert(all[k as int] == line@);
        if line.episode_id == episode_id && lo <= line.line_number as i64 && line.line_number as i64
            <= hi {
            let ghost before = line_views(out@);
            let at = find_line_place(&out, line.line_number);
            out.insert(at, line.duplicate());
            assert(line_views(out@) =~= before.insert(at as int, line@));
        }
        k += 1;
    }
    out
}

fn find_line_place(rows: &Vec<Line>, number: i32) -> (p: usize)
    ensures
        p == line_place(line_views(rows@), number, 0),
        p <= rows@.len(),
{
    let n = rows.len();
    let mut p: usize = 0;
    while p < n && rows[p].line_number <= number
        invariant
            p <= n,
            n == rows@.len(),
            line_place(line_views(rows@), number, p as int) == line_place(
                line_views(rows@),
                number,
                0,
            ),
        decreases n - p,
    {
        p += 1;
    }
    p
}

/// The hit with the context that the radius asks for.
pub fn with_context(lines: &Vec<Line>, hit: &Line, radius: i32) -> (r: SearchHit)
    ensures
        r@ == hit_with_context(line_views(lines@), hit@, radius as int),
{
    let context = if radius > 0 {
        Some(
            window(
                lines,
                hit.episode_id,
                hit.line_number as i64 - radius as i64,
                hit.line_number as i64 + radius as i64,
            ),
        )
    } else {
        None
    };
    SearchHit { line: hit.duplicate(), context }
}

/// What a hit becomes once its context was fetched from a store, or could
/// not be: for a positive radius the fetched lines, and no line at all
/// where the fetch failed; for radius 0 no context.
pub open spec fn hit_after_fetch(hit: LineView, radius: int, fetched: Option<Seq<LineView>>) -> SearchHitView {
    SearchHitView {
        line: hit,
        context: if radius > 0 {
            match fetched {
                Some(rows) => Some(rows),
                None => Some(Seq::empty()),
            }
        } else {
            None
        },
    }
}

/// Joins a hit and the context that a store gave for it. A fetch that
/// failed, `None`, leaves the hit with an empty context and fails nothing.
pub fn attach_context(hit: Line, radius: i32, fetched: Option<Vec<Line>>) -> (r: SearchHit)
    ensures
        r@ == hit_after_fetch(
            hit@,
            radius as int,
            match fetched {
                Some(rows) => Some(line_views(rows@)),
                None => None,
            },
        ),
{
    let context = if radius > 0 {
        match fetched {
            Some(rows) => Some(rows),
            None => {
                let rows: Vec<Line> = Vec::new();
                assert(line_views(rows@) =~= Seq::empty());
                Some(rows)
            },
        }
    } else {
        None
    };
    SearchHit { line: hit, context }
}

/// Picks the line that a draw selects among the candidates: the one at
/// position `draw` modulo their number. `None` where there is no candidate.
pub fn pick(candidates: &Vec<Line>, draw: u64) -> (r: Option<Line>)
    ensures
        match r {
            Some(line) => candidates@.len() > 0 && line@ == candidates@[(draw as int)
                % (candidates@.len() as int)]@,
            None => candidates@.len() == 0,
        },
{
    let n = candidates.len();
    if n == 0 {
        return None;
    }
    let at = (draw % (n as u64)) as usize;
    Some(candidates[at].duplicate())
}

impl Dataset {
    /// One line among those that meet the filters of `query`: the one that
    /// `draw` selects. `None` where no line meets them.
    pub fn sample(&self, query: &RandomLineQuery, draw: u64) -> (r: Option<Line>)
        ensures
            ({
                let candidates = matching(self@.lines, query.spec_predicates());
                match r {
                    Some(line) => candidates.len() > 0 && line@ == candidates[(draw as int) % (
                    candidates.len() as int)],
                    None => candidates.len() == 0,
                }
            }),
            query.season is None && query.episode is None && query.speaker is None
                && self@.lines.len() > 0 ==> r is Some,
    {
        proof {
            if query.season is None && query.episode is None && query.speaker is None {
                lemma_no_filter_keeps_all(self@.lines);
            }
        }
        let predicates = query.predicates();
        let candidates = matching_lines(self.lines(), &predicates);
        let r = pick(&candidates, draw);
        proof {
            if candidates@.len() > 0 {
                let at = (draw as int) % (candidates@.len() as int);
                assert(line_views(candidates@)[at] == candidates@[at]@);
            }
        }
        r
    }

    /// The lines that contain the phrase of `query` and meet its filters,
    /// in the order of their ids, each with its context where the radius is
    /// positive.
    pub fn search(&self, query: &SearchPhrasesQuery) -> (r: Vec<SearchHit>)
        ensures
            hit_views(r@) == search_result(
                self@.lines,
                query.spec_phrase(),
                query.spec_predicates(),
                radius_of(query.context) as int,
            ),
    {
        let predicates = query.predicates();
        let phrase = query.phrase_text();
        let radius = query.radius();
        let lines = self.lines();
        let ghost all = line_views(lines@);
        let ghost test = hit_test(phrase@, predicates@);
        let mut out: Vec<SearchHit> = Vec::new();
        let n = lines.len();
        let mut k: usize = 0;
        proof {
            reveal(Seq::filter);
            assert(all.take(0) =~= Seq::empty());
            assert(hit_views(out@) =~= search_result(
                all.take(0),
                phrase@,
                predicates@,
                radius as int,
            ));
        }
        while k < n
            invariant
                k <= n,
                n == lines@.len(),
                all == line_views(lines@),
                test == hit_test(phrase@, predicates@),
                hit_views(out@) == all.take(k as int).filter(test).map_values(
                    |h: LineView| hit_with_context(all, h, radius as int),
                ),
            decreases n - k,
        {
            let line = &lines[k];
            let ghost before = hit_views(out@);
            proof {
                reveal(Seq::filter);
                assert(all.take(k + 1).drop_last() =~= all.take(k as int));
                assert(all.take(k + 1).last() == line@);
            }
            if has_phrase(line.content.as_str(), phrase.as_str()) && line_satisfies(
                line,
                &predicates,
            ) {
                let hit = with_context(lines, line, radius);
                out.push(hit);
                assert(hit_views(out@) =~= before.push(hit_with_context(all, line@, radius as int)));
                assert(hit_views(out@) =~= all.take(k + 1).filter(test).map_values(
                    |h: LineView| hit_with_context(all, h, radius as int),
                ));
            }
            k += 1;
        }
        assert(all.take(n as int) =~= all);
        out
    }
}

/// The line numbers do not fall from one row to the next.
pub open spec fn lines_ascending(rows: Seq<LineView>) -> bool {
    forall|a: int, b: int|
        0 <= a < b < rows.len() ==> (#[trigger] rows[a]).line_number <= (
        #[trigger] rows[b]).line_number
}

proof fn lemma_line_place(rows: Seq<LineView>, number: i32, i: int)
    requires
        0 <= i <= rows.len(),
    ensures
        i <= line_place(rows, number, i) <= rows.len(),
        forall|k: int| i <= k < line_place(rows, number, i) ==> rows[k].line_number <= number,
        line_place(rows, number, i) < rows.len() ==> rows[line_place(rows, number, i)].line_number
            > number,
    decreases rows.len() - i,
{
    if i < rows.len() && rows[i].line_number <= number {
        lemma_line_place(rows, number, i + 1);
    }
}

/// The rows of a window stand in ascending order of line number.
pub proof fn lemma_window_ascending(
    lines: Seq<LineView>,
    episode_id: i64,
    lo: int,
    hi: int,
    k: nat,
)
    ensures
        lines_ascending(window_rows(lines, episode_id, lo, hi, k)),
    decreases k,
{
    if k > 0 {
        lemma_window_ascending(lines, episode_id, lo, hi, (k - 1) as nat);
        let before = window_rows(lines, episode_id, lo, hi, (k - 1) as nat);
        let after = window_rows(lines, episode_id, lo, hi, k);
        let line = lines[k - 1];
        if in_window(line, episode_id, lo, hi) {
            let at = line_place(before, line.line_number, 0);
            lemma_line_place(before, line.line_number, 0);
            assert forall|a: int, b: int| 0 <= a < b < after.len() implies (
            #[trigger] after[a]).line_number <= (#[trigger] after[b]).line_number by {
                if b < at {
                    assert(after[a] == before[a] && after[b] == before[b]);
                } else if b == at {
                    assert(after[a] == before[a]);
                } else if a < at {
                    assert(after[a] == before[a] && after[b] == before[b - 1]);
                    assert(before[at].line_number <= before[b - 1].line_number || at == b - 1);
                } else if a == at {
                    assert(after[b] == before[b - 1]);
                    assert(before[at].line_number <= before[b - 1].line_number || at == b - 1);
                } else {
                    assert(after[a] == before[a - 1] && after[b] == before[b - 1]);
                }
            }
        }
    }
}

/// A window holds exactly those of the first `k` lines that belong to the
/// episode and whose numbers lie in `lo..=hi`.
pub proof fn lemma_window_members(
    lines: Seq<LineView>,
    episode_id: i64,
    lo: int,
    hi: int,
    k: nat,
    row: LineView,
)
    requires
        k <= lines.len(),
    ensures
        window_rows(lines, episode_id, lo, hi, k).contains(row) <==> in_window(
            row,
            episode_id,
            lo,
            hi,
        ) && exists|i: int| 0 <= i < k && lines[i] == row,
    decreases k,
{
    if k > 0 {
        lemma_window_members(lines, episode_id, lo, hi, (k - 1) as nat, row);
        let before = window_rows(lines, episode_id, lo, hi, (k - 1) as nat);
        let after = window_rows(lines, episode_id, lo, hi, k);
        let line = lines[k - 1];
        if in_window(line, episode_id, lo, hi) {
            let at = line_place(before, line.line_number, 0);
            lemma_line_place(before, line.line_number, 0);
            if after.contains(row) {
                let j = choose|j: int| 0 <= j < after.len() && after[j] == row;
                if j < at {
                    assert(before[j] == row);
                } else if j == at {
                    assert(lines[k - 1] == row);
                } else {
                    assert(before[j - 1] == row);
                }
            }
            if before.contains(row) {
                let j = choose|j: int| 0 <= j < before.len() && before[j] == row;
                if j < at {
                    assert(after[j] == row);
                } else {
                    assert(after[j + 1] == row);
                }
            }
            if line == row {
                assert(after[at] == row);
            }
        }
    }
}

/// The context of a hit is in ascending order of line number, holds only
/// lines of the hit's episode within the radius, and holds the hit itself.
pub proof fn lemma_context_holds_hit(lines: Seq<LineView>, at: int, radius: int)
    requires
        0 <= at < lines.len(),
        radius >= 0,
    ensures
        lines_ascending(context_of(lines, lines[at], radius)),
        context_of(lines, lines[at], radius).contains(lines[at]),
        forall|j: int|
            0 <= j < context_of(lines, lines[at], radius).len() ==> in_window(
                #[trigger] context_of(lines, lines[at], radius)[j],
                lines[at].episode_id,
                lines[at].line_number - radius,
                lines[at].line_number + radius,
            ),
{
    let hit = lines[at];
    let lo = hit.line_number - radius;
    let hi = hit.line_number + radius;
    let rows = context_of(lines, hit, radius);
    lemma_window_ascending(lines, hit.episode_id, lo, hi, lines.len());
    lemma_window_members(lines, hit.episode_id, lo, hi, lines.len(), hit);
    assert forall|j: int| 0 <= j < rows.len() implies in_window(
        #[trigger] rows[j],
        hit.episode_id,
        lo,
        hi,
    ) by {
        lemma_window_members(lines, hit.episode_id, lo, hi, lines.len(), rows[j]);
        assert(rows.contains(rows[j]));
    }
}

} // verus!
