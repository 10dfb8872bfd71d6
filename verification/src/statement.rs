//! The reads as statements for a relational store: the text, with one `?`
//! for each parameter, and the parameters in the order of their `?`.

use crate::models::{Line, LineView, RandomLineQuery, SearchPhrasesQuery};
use crate::query::{compose, predicates_of, Field, Predicate};
use crate::text::chars_of;
use vstd::prelude::*;

verus! {

/// A value bound to one `?` of a statement.
#[derive(Debug, Clone, PartialEq, Eq)]
pub enum Param {
    Int(i64),
    Text(String),
}

/// A parameter, a text as its characters.
pub enum ParamView {
    Int(i64),
    Text(Seq<char>),
}

impl View for Param {
    type V = ParamView;

    open spec fn view(&self) -> ParamView {
        match self {
            Param::Int(v) => ParamView::Int(*v),
            Param::Text(t) => ParamView::Text(t@),
        }
    }
}

/// The parameters, each by its view.
pub open spec fn param_views(params: Seq<Param>) -> Seq<ParamView> {
    params.map_values(|p: Param| p@)
}

/// A statement and the values for its `?`, in order.
#[derive(Debug)]
pub struct Statement {
    pub sql: String,
    pub params: Vec<Param>,
}

/// A statement, its text as characters.
pub struct StatementView {
    pub sql: Seq<char>,
    pub params: Seq<ParamView>,
}

impl View for Statement {
    type V = StatementView;

    open spec fn view(&self) -> StatementView {
        StatementView { sql: self.sql@, params: param_views(self.params@) }
    }
}

/// Selects lines with the name of the speaker joined in; lines without a
/// speaker are kept.
pub open spec fn select_lines_text() -> Seq<char> {
    "SELECT l.id, l.season_id, l.episode_id, l.speaker_id, s.name AS speaker_name, l.line_number, l.content FROM lines l LEFT JOIN speakers s ON l.speaker_id = s.id"@
}

/// The text that selects lines with the name of the speaker joined in.
pub fn select_lines() -> (r: &'static str)
    ensures
        r@ == select_lines_text(),
{
    "SELECT l.id, l.season_id, l.episode_id, l.speaker_id, s.name AS speaker_name, l.line_number, l.content FROM lines l LEFT JOIN speakers s ON l.speaker_id = s.id"
}

/// The condition that a predicate on this column becomes.
pub open spec fn condition_text(field: Field) -> Seq<char> {
    match field {
        Field::Season => "l.season_id = ?"@,
        Field::Episode => "l.episode_id = ?"@,
        Field::Speaker => "l.speaker_id = ?"@,
    }
}

/// The condition that a predicate on this column becomes.
pub fn condition(field: Field) -> (r: &'static str)
    ensures
        r@ == condition_text(field),
{
    match field {
        Field::Season => "l.season_id = ?",
        Field::Episode => "l.episode_id = ?",
        Field::Speaker => "l.speaker_id = ?",
    }
}

/// The conditions of the first `k` predicates, joined by ` AND `.
pub open spec fn joined_conditions(predicates: Seq<Predicate>, k: nat) -> Seq<char>
    decreases k,
{
    if k == 0 {
        Seq::empty()
    } else if k == 1 {
        condition_text(predicates[0].field)
    } else {
        joined_conditions(predicates, (k - 1) as nat) + " AND "@ + condition_text(
            predicates[k - 1].field,
        )
    }
}

/// The conditions of the first `k` predicates, each behind ` AND `.
pub open spec fn added_conditions(predicates: Seq<Predicate>, k: nat) -> Seq<char>
    decreases k,
{
    if k == 0 {
        Seq::empty()
    } else {
        added_conditions(predicates, (k - 1) as nat) + " AND "@ + condition_text(
            predicates[k - 1].field,
        )
    }
}

/// The values of the predicates, in their order.
pub open spec fn values_of(predicates: Seq<Predicate>) -> Seq<ParamView> {
    predicates.map_values(|p: Predicate| ParamView::Int(p.value))
}

/// The statement that draws one random line among those that meet the
/// predicates: no `WHERE` without predicates.
pub open spec fn sampling_statement(predicates: Seq<Predicate>) -> StatementView {
    StatementView {
        sql: select_lines_text() + (if predicates.len() == 0 {
            Seq::empty()
        } else {
            " WHERE "@ + joined_conditions(predicates, predicates.len())
        }) + " ORDER BY RANDOM() LIMIT 1;"@,
        params: values_of(predicates),
    }
}

/// `%`, `_` and `\` have a meaning of their own in a `LIKE` pattern.
pub open spec fn is_pattern_char(c: char) -> bool {
    c == '%' || c == '_' || c == '\\'
}

/// The first `k` characters of `phrase`, each pattern character behind a
/// `\`.
pub open spec fn escaped(phrase: Seq<char>, k: nat) -> Seq<char>
    decreases k,
{
    if k == 0 {
        Seq::empty()
    } else {
        let before = escaped(phrase, (k - 1) as nat);
        let c = phrase[k - 1];
        if is_pattern_char(c) {
            before.push('\\').push(c)
        } else {
            before.push(c)
        }
    }
}

/// The `LIKE` pattern that matches the contents which contain `phrase` as
/// it is written.
pub open spec fn like_pattern_of(phrase: Seq<char>) -> Seq<char> {
    seq!['%'] + escaped(phrase, phrase.len()) + seq!['%']
}

/// The statement that finds the lines which contain a phrase and meet the
/// predicates, in the order of their ids. The pattern is bound first, then
/// the values of the predicates.
pub open spec fn search_statement(phrase: Seq<char>, predicates: Seq<Predicate>) -> StatementView {
    StatementView {
        sql: select_lines_text() + " WHERE l.content LIKE ? ESCAPE '\\'"@ + added_conditions(
            predicates,
            predicates.len(),
        ) + " ORDER BY l.id;"@,
        params: seq![ParamView::Text(like_pattern_of(phrase))] + values_of(predicates),
    }
}

/// The statement that fetches the context of a hit: the lines of its
/// episode whose numbers lie within `radius` of its own, in ascending order
/// of line number.
pub open spec fn context_statement(hit: LineView, radius: int) -> StatementView {
    StatementView {
        sql: select_lines_text()
            + " WHERE l.episode_id = ? AND l.line_number BETWEEN ? AND ? ORDER BY l.line_number, l.id;"@,
        params: seq![
            ParamView::Int(hit.episode_id),
            ParamView::Int((hit.line_number - radius) as i64),
            ParamView::Int((hit.line_number + radius) as i64),
        ],
    }
}

/// The values of the predicates, as parameters, in their order.
pub fn bind_values(predicates: &Vec<Predicate>, params: &mut Vec<Param>)
    ensures
        param_views(final(params)@) == param_views(old(params)@) + values_of(predicates@),
{
    let ghost start = param_views(params@);
    let n = predicates.len();
    let mut k: usize = 0;
    assert(values_of(predicates@.take(0)) =~= Seq::empty());
    while k < n
        invariant
            k <= n,
            n == predicates@.len(),
            param_views(params@) == start + values_of(predicates@.take(k as int)),
        decreases n - k,
    {
        let ghost before = param_views(params@);
        params.push(Param::Int(predicates[k].value));
        proof {
            assert(param_views(params@) =~= before.push(ParamView::Int(predicates@[k as int].value)));
            assert(values_of(predicates@.take(k + 1)) =~= values_of(predicates@.take(k as int)).push(
                ParamView::Int(predicates@[k as int].value),
            ));
        }
        k += 1;
    }
    assert(predicates@.take(n as int) =~= predicates@);
}

/// Composes the statement for a sampling read.
pub fn compose_sampling(predicates: &Vec<Predicate>) -> (r: Statement)
    ensures
        r@ == sampling_statement(predicates@),
{
    let mut sql = String::from_str(select_lines());
    let n = predicates.len();
    if n > 0 {
        sql.append(" WHERE ");
        let ghost head = select_lines_text() + " WHERE "@;
        let mut k: usize = 0;
        while k < n
            invariant
                k <= n,
                n == predicates@.len(),
                sql@ == head + joined_conditions(predicates@, k as nat),
            decreases n - k,
        {
            let ghost before = joined_conditions(predicates@, k as nat);
            if k > 0 {
                sql.append(" AND ");
            }
            sql.append(condition(predicates[k].field));
            proof {
                let c = condition_text(predicates@[k as int].field);
                if k > 0 {
                    assert(sql@ =~= head + (before + " AND "@ + c));
                } else {
                    assert(sql@ =~= head + c);
                }
            }
            k += 1;
        }
        proof {
            assert(sql@ =~= select_lines_text() + (" WHERE "@ + joined_conditions(
                predicates@,
                n as nat,
            )));
        }
    } else {
        assert(sql@ =~= select_lines_text() + Seq::<char>::empty());
    }
    sql.append(" ORDER BY RANDOM() LIMIT 1;");
    let mut params: Vec<Param> = Vec::new();
    assert(param_views(params@) =~= Seq::empty());
    bind_values(predicates, &mut params);
    assert(param_views(params@) =~= values_of(predicates@));
    Statement { sql, params }
}

/// `phrase` with each pattern character behind a `\`.
pub fn escape_like(phrase: &str) -> (r: String)
    ensures
        r@ == escaped(phrase@, phrase@.len()),
{
    let v = chars_of(phrase);
    let n = v.len();
    let mut out = String::new();
    let mut k: usize = 0;
    proof {
        reveal_strlit("\\");
    }
    while k < n
        invariant
            k <= n,
            n == v@.len(),
            v@ == phrase@,
            "\\"@ =~= seq!['\\'],
            out@ == escaped(phrase@, k as nat),
        decreases n - k,
    {
        let ghost before = out@;
        let c = v[k];
        if c == '%' || c == '_' || c == '\\' {
            out.append("\\");
        }
        out.append(phrase.substring_char(k, k + 1));
        proof {
            assert(phrase@.subrange(k as int, k + 1) =~= seq![c]);
            if is_pattern_char(c) {
                assert(out@ =~= before.push('\\').push(c));
            } else {
                assert(out@ =~= before.push(c));
            }
        }
        k += 1;
    }
    out
}

/// The `LIKE` pattern for the contents that contain `phrase`.
pub fn like_pattern(phrase: &str) -> (r: String)
    ensures
        r@ == like_pattern_of(phrase@),
{
    proof {
        reveal_strlit("%");
    }
    assert("%"@ =~= seq!['%']);
    let mut out = String::from_str("%");
    out.append(escape_like(phrase).as_str());
    out.append("%");
    out
}

/// Composes the statement for a search.
pub fn compose_search(phrase: &str, predicates: &Vec<Predicate>) -> (r: Statement)
    ensures
        r@ == search_statement(phrase@, predicates@),
{
    let mut sql = String::from_str(select_lines());
    sql.append(" WHERE l.content LIKE ? ESCAPE '\\'");
    let ghost head = select_lines_text() + " WHERE l.content LIKE ? ESCAPE '\\'"@;
    let n = predicates.len();
    let mut k: usize = 0;
    assert(sql@ =~= head + added_conditions(predicates@, 0));
    while k < n
        invariant
            k <= n,
            n == predicates@.len(),
            sql@ == head + added_conditions(predicates@, k as nat),
        decreases n - k,
    {
        let ghost before = added_conditions(predicates@, k as nat);
        sql.append(" AND ");
        sql.append(condition(predicates[k].field));
        assert(sql@ =~= head + (before + " AND "@ + condition_text(predicates@[k as int].field)));
        k += 1;
    }
    sql.append(" ORDER BY l.id;");
    let mut params: Vec<Param> = Vec::new();
    params.push(Param::Text(like_pattern(phrase)));
    assert(param_views(params@) =~= seq![ParamView::Text(like_pattern_of(phrase@))]);
    bind_values(predicates, &mut params);
    Statement { sql, params }
}

/// Composes the statement that fetches the context of a hit.
pub fn compose_context(hit: &Line, radius: i32) -> (r: Statement)
    ensures
        r@ == context_statement(hit@, radius as int),
{
    let mut sql = String::from_str(select_lines());
    sql.append(
        " WHERE l.episode_id = ? AND l.line_number BETWEEN ? AND ? ORDER BY l.line_number, l.id;",
    );
    let mut params: Vec<Param> = Vec::new();
    params.push(Param::Int(hit.episode_id));
    params.push(Param::Int(hit.line_number as i64 - radius as i64));
    params.push(Param::Int(hit.line_number as i64 + radius as i64));
    assert(param_views(params@) =~= context_statement(hit@, radius as int).params);
    Statement { sql, params }
}

impl RandomLineQuery {
    /// The statement of this request.
    pub fn statement(&self) -> (r: Statement)
        ensures
            r@ == sampling_statement(predicates_of(self.season, self.episode, self.speaker)),
    {
        compose_sampling(&compose(self.season, self.episode, self.speaker))
    }
}

impl SearchPhrasesQuery {
    /// The statement of this request.
    pub fn statement(&self) -> (r: Statement)
        ensures
            r@ == search_statement(
                self.spec_phrase(),
                predicates_of(self.season, self.episode, self.speaker),
            ),
    {
        let phrase = self.phrase_text();
        compose_search(phrase.as_str(), &compose(self.season, self.episode, self.speaker))
    }
}

} // verus!
