//! From a corpus to the plan of an import: the seasons in ascending order,
//! in each its episodes in ascending order, in each its lines, split, in the
//! order of the file.

use crate::classify::{
    classify_season, episode_number, episode_number_of, episode_title, episode_title_of,
    is_episode_entry, is_episode_name, season_entry, season_number_of, SeasonEntry,
};
use crate::corpus::{
    dir_views, file_views, texts, Corpus, CorpusView, EpisodeFile, EpisodeFileView, SeasonDir,
    SeasonDirView,
};
use crate::error::{ImportError, ImportErrorView};
use crate::splitter::{split_line, split_of, SplitLine, SplitLineView};
use vstd::prelude::*;

verus! {

/// An episode to import.
#[derive(Debug)]
pub struct EpisodePlan {
    pub number: i32,
    pub title: String,
    pub lines: Vec<SplitLine>,
}

/// An episode to import, its texts as characters.
pub struct EpisodePlanView {
    pub number: i32,
    pub title: Seq<char>,
    pub lines: Seq<SplitLineView>,
}

/// The split lines, each by its view.
pub open spec fn split_views(lines: Seq<SplitLine>) -> Seq<SplitLineView> {
    lines.map_values(|l: SplitLine| l@)
}

impl View for EpisodePlan {
    type V = EpisodePlanView;

    open spec fn view(&self) -> EpisodePlanView {
        EpisodePlanView { number: self.number, title: self.title@, lines: split_views(self.lines@) }
    }
}

/// The plans, each by its view.
pub open spec fn episode_plan_views(plans: Seq<EpisodePlan>) -> Seq<EpisodePlanView> {
    plans.map_values(|p: EpisodePlan| p@)
}

/// A season to import.
#[derive(Debug)]
pub struct SeasonPlan {
    pub number: i32,
    pub episodes: Vec<EpisodePlan>,
}

/// A season to import, by the views of its episodes.
pub struct SeasonPlanView {
    pub number: i32,
    pub episodes: Seq<EpisodePlanView>,
}

impl View for SeasonPlan {
    type V = SeasonPlanView;

    open spec fn view(&self) -> SeasonPlanView {
        SeasonPlanView { number: self.number, episodes: episode_plan_views(self.episodes@) }
    }
}

/// The plans, each by its view.
pub open spec fn season_plan_views(plans: Seq<SeasonPlan>) -> Seq<SeasonPlanView> {
    plans.map_values(|p: SeasonPlan| p@)
}

/// What an import will do, and the names of the season entries that it
/// skips because their digits spell no season number.
#[derive(Debug)]
pub struct ImportPlan {
    pub seasons: Vec<SeasonPlan>,
    pub skipped: Vec<String>,
}

/// A plan, by the views of its parts.
pub struct ImportPlanView {
    pub seasons: Seq<SeasonPlanView>,
    pub skipped: Seq<Seq<char>>,
}

impl View for ImportPlan {
    type V = ImportPlanView;

    open spec fn view(&self) -> ImportPlanView {
        ImportPlanView { seasons: season_plan_views(self.seasons@), skipped: texts(self.skipped@) }
    }
}

/// Every line of a file, split.
pub open spec fn split_all(lines: Seq<Seq<char>>) -> Seq<SplitLineView> {
    lines.map_values(|l: Seq<char>| split_of(l))
}

/// Where an episode of this number goes among `plans`: the first position
/// at or after `i` that holds a greater number, or the length.
pub open spec fn episode_place(plans: Seq<EpisodePlanView>, number: i32, i: int) -> int
    decreases plans.len() - i,
{
    if 0 <= i < plans.len() && plans[i].number <= number {
        episode_place(plans, number, i + 1)
    } else {
        i
    }
}

/// Where a season of this number goes among `plans`: the first position at
/// or after `i` that holds a greater number, or the length.
pub open spec fn season_place(plans: Seq<SeasonPlanView>, number: i32, i: int) -> int
    decreases plans.len() - i,
{
    if 0 <= i < plans.len() && plans[i].number <= number {
        season_place(plans, number, i + 1)
    } else {
        i
    }
}

/// The plans of the first `k` entries of a season directory, in ascending
/// order of episode number, equal numbers in the order of the entries.
/// Entries that do not start with `E` are passed over. The first entry, in
/// the order of the directory, that starts with `E` and carries no number,
/// or that could not be read, fails the whole.
pub open spec fn episode_plans(files: Seq<EpisodeFileView>, k: nat) -> Result<
    Seq<EpisodePlanView>,
    ImportErrorView,
>
    decreases k,
{
    if k == 0 {
        Ok(Seq::empty())
    } else {
        let file = files[k - 1];
        match episode_plans(files, (k - 1) as nat) {
            Err(e) => Err(e),
            Ok(plans) => if !is_episode_entry(file.name) {
                Ok(plans)
            } else {
                match (episode_number_of(file.name), file.lines) {
                    (None, _) => Err(ImportErrorView::Classification { name: file.name }),
                    (Some(_), None) => Err(ImportErrorView::Read { name: file.name }),
                    (Some(number), Some(lines)) => Ok(
                        plans.insert(
                            episode_place(plans, number, 0),
                            EpisodePlanView {
                                number,
                                title: episode_title_of(file.name),
                                lines: split_all(lines),
                            },
                        ),
                    ),
                }
            },
        }
    }
}

/// The plan of the season directory `dir`, which carries `number`.
pub open spec fn season_plan(dir: SeasonDirView, number: i32) -> Result<
    SeasonPlanView,
    ImportErrorView,
> {
    match dir.entries {
        None => Err(ImportErrorView::Read { name: dir.name }),
        Some(files) => match episode_plans(files, files.len()) {
            Err(e) => Err(e),
            Ok(episodes) => Ok(SeasonPlanView { number, episodes }),
        },
    }
}

/// The plans of the first `k` entries of the season listing, in ascending
/// order of season number, equal numbers in the order of the entries.
/// Entries that carry no season number are passed over. The first fault, in
/// the order of the listing, fails the whole.
pub open spec fn season_plans(listing: Seq<SeasonDirView>, k: nat) -> Result<
    Seq<SeasonPlanView>,
    ImportErrorView,
>
    decreases k,
{
    if k == 0 {
        Ok(Seq::empty())
    } else {
        let dir = listing[k - 1];
        match season_plans(listing, (k - 1) as nat) {
            Err(e) => Err(e),
            Ok(plans) => match season_entry(dir.name) {
                SeasonEntry::Numbered(number) => match season_plan(dir, number) {
                    Err(e) => Err(e),
                    Ok(plan) => Ok(plans.insert(season_place(plans, number, 0), plan)),
                },
                _ => Ok(plans),
            },
        }
    }
}

/// The names, among the first `k` entries of the listing, of those that
/// have the shape of a season name and spell no season number.
pub open spec fn skipped_names(listing: Seq<SeasonDirView>, k: nat) -> Seq<Seq<char>>
    decreases k,
{
    if k == 0 {
        Seq::empty()
    } else {
        let before = skipped_names(listing, (k - 1) as nat);
        if season_entry(listing[k - 1].name) == SeasonEntry::Unparsable {
            before.push(listing[k - 1].name)
        } else {
            before
        }
    }
}

/// The plan of the import of `corpus`, or the fault that forbids it.
pub open spec fn planned(corpus: CorpusView) -> Result<ImportPlanView, ImportErrorView> {
    match season_plans(corpus.listing, corpus.listing.len()) {
        Err(e) => Err(e),
        Ok(seasons) => Ok(
            ImportPlanView {
                seasons,
                skipped: skipped_names(corpus.listing, corpus.listing.len()),
            },
        ),
    }
}

/// A fault among the first entries is the fault of the whole directory.
pub proof fn lemma_episode_fault_stays(files: Seq<EpisodeFileView>, k: nat, m: nat)
    requires
        k <= m,
        episode_plans(files, k) is Err,
    ensures
        episode_plans(files, m) == episode_plans(files, k),
    decreases m - k,
{
    if k < m {
        lemma_episode_fault_stays(files, k, (m - 1) as nat);
    }
}

/// A fault among the first entries is the fault of the whole listing.
pub proof fn lemma_season_fault_stays(listing: Seq<SeasonDirView>, k: nat, m: nat)
    requires
        k <= m,
        season_plans(listing, k) is Err,
    ensures
        season_plans(listing, m) == season_plans(listing, k),
    decreases m - k,
{
    if k < m {
        lemma_season_fault_stays(listing, k, (m - 1) as nat);
    }
}

/// Splits every line of a file.
pub fn split_lines(lines: &Vec<String>) -> (r: Vec<SplitLine>)
    ensures
        split_views(r@) == split_all(texts(lines@)),
{
    let mut out: Vec<SplitLine> = Vec::new();
    let n = lines.len();
    let mut k: usize = 0;
    while k < n
        invariant
            k <= n,
            n == lines@.len(),
            out@.len() == k,
            forall|i: int| 0 <= i < k ==> (#[trigger] out@[i])@ == split_of(lines@[i]@),
        decreases n - k,
    {
        let line = split_line(lines[k].as_str());
        out.push(line);
        k += 1;
    }
    assert(split_views(out@) =~= split_all(texts(lines@)));
    out
}

/// Plans the episodes of a season directory.
pub fn plan_episodes(files: &Vec<EpisodeFile>) -> (r: Result<Vec<EpisodePlan>, ImportError>)
    ensures
        match r {
            Ok(plans) => episode_plans(file_views(files@), files@.len()) == Ok::<
                _,
                ImportErrorView,
            >(episode_plan_views(plans@)),
            Err(e) => episode_plans(file_views(files@), files@.len()) == Err::<
                Seq<EpisodePlanView>,
                _,
            >(e@),
        },
{
    let ghost views = file_views(files@);
    let mut plans: Vec<EpisodePlan> = Vec::new();
    let n = files.len();
    let mut k: usize = 0;
    assert(episode_plan_views(plans@) =~= Seq::empty());
    while k < n
        invariant
            k <= n,
            n == files@.len(),
            views == file_views(files@),
            episode_plans(views, k as nat) == Ok::<_, ImportErrorView>(
                episode_plan_views(plans@),
            ),
        decreases n - k,
    {
        let file = &files[k];
        assert(views[k as int] == file@);
        if is_episode_name(file.name.as_str()) {
            let number = match episode_number(file.name.as_str()) {
                Some(number) => number,
                None => {
                    proof {
                        lemma_episode_fault_stays(views, (k + 1) as nat, n as nat);
                    }
                    return Err(ImportError::Classification { name: file.name.clone() });
                },
            };
            let lines = match &file.lines {
                Some(lines) => lines,
                None => {
                    proof {
                        lemma_episode_fault_stays(views, (k + 1) as nat, n as nat);
                    }
                    return Err(ImportError::Read { name: file.name.clone() });
                },
            };
            let plan = EpisodePlan {
                number,
                title: episode_title(file.name.as_str()),
                lines: split_lines(lines),
            };
            let ghost before = episode_plan_views(plans@);
            let at = find_episode_place(&plans, number);
            plans.insert(at, plan);
            assert(episode_plan_views(plans@) =~= before.insert(at as int, plan@));
        }
        k += 1;
    }
    Ok(plans)
}

fn find_episode_place(plans: &Vec<EpisodePlan>, number: i32) -> (p: usize)
    ensures
        p == episode_place(episode_plan_views(plans@), number, 0),
        p <= plans@.len(),
{
    let n = plans.len();
    let mut p: usize = 0;
    while p < n && plans[p].number <= number
        invariant
            p <= n,
            n == plans@.len(),
            episode_place(episode_plan_views(plans@), number, p as int) == episode_place(
                episode_plan_views(plans@),
                number,
                0,
            ),
        decreases n - p,
    {
        p += 1;
    }
    p
}

fn find_season_place(plans: &Vec<SeasonPlan>, number: i32) -> (p: usize)
    ensures
        p == season_place(season_plan_views(plans@), number, 0),
        p <= plans@.len(),
{
    let n = plans.len();
    let mut p: usize = 0;
    while p < n && plans[p].number <= number
        invariant
            p <= n,
            n == plans@.len(),
            season_place(season_plan_views(plans@), number, p as int) == season_place(
                season_plan_views(plans@),
                number,
                0,
            ),
        decreases n - p,
    {
        p += 1;
    }
    p
}

/// Plans one season directory that carries `number`.
pub fn plan_season(dir: &SeasonDir, number: i32) -> (r: Result<SeasonPlan, ImportError>)
    ensures
        match r {
            Ok(plan) => season_plan(dir@, number) == Ok::<_, ImportErrorView>(plan@),
            Err(e) => season_plan(dir@, number) == Err::<SeasonPlanView, _>(e@),
        },
{
    match &dir.entries {
        None => Err(ImportError::Read { name: dir.name.clone() }),
        Some(files) => match plan_episodes(files) {
            Err(e) => Err(e),
            Ok(episodes) => Ok(SeasonPlan { number, episodes }),
        },
    }
}

/// Plans the import of a corpus: classifies the entries of the listing and
/// of each season directory, orders seasons and episodes by number, and
/// splits every line. Fails on the first episode file, in the order of the
/// listing, whose name carries no number, and on the first season directory
/// or episode file that could not be read.
pub fn plan_import(corpus: &Corpus) -> (r: Result<ImportPlan, ImportError>)
    ensures
        match r {
            Ok(plan) => planned(corpus@) == Ok::<_, ImportErrorView>(plan@),
            Err(e) => planned(corpus@) == Err::<ImportPlanView, _>(e@),
        },
{
    let ghost views = dir_views(corpus.listing@);
    let mut seasons: Vec<SeasonPlan> = Vec::new();
    let mut skipped: Vec<String> = Vec::new();
    let n = corpus.listing.len();
    let mut k: usize = 0;
    assert(season_plan_views(seasons@) =~= Seq::empty());
    assert(texts(skipped@) =~= Seq::empty());
    while k < n
        invariant
            k <= n,
            n == corpus.listing@.len(),
            views == dir_views(corpus.listing@),
            season_plans(views, k as nat) == Ok::<_, ImportErrorView>(
                season_plan_views(seasons@),
            ),
            texts(skipped@) == skipped_names(views, k as nat),
        decreases n - k,
    {
        let dir = &corpus.listing[k];
        assert(views[k as int] == dir@);
        match classify_season(dir.name.as_str()) {
            SeasonEntry::Other => {},
            SeasonEntry::Unparsable => {
                let ghost before = texts(skipped@);
                skipped.push(dir.name.clone());
                assert(texts(skipped@) =~= before.push(dir.name@));
            },
            SeasonEntry::Numbered(number) => {
                let plan = match plan_season(dir, number) {
                    Ok(plan) => plan,
                    Err(e) => {
                        proof {
                            lemma_season_fault_stays(views, (k + 1) as nat, n as nat);
                        }
                        return Err(e);
                    },
                };
                let ghost before = season_plan_views(seasons@);
                let at = find_season_place(&seasons, number);
                seasons.insert(at, plan);
                assert(season_plan_views(seasons@) =~= before.insert(at as int, plan@));
            },
        }
        k += 1;
    }
    Ok(ImportPlan { seasons, skipped })
}

/// The episode numbers do not fall from one plan to the next.
pub open spec fn episodes_ascending(plans: Seq<EpisodePlanView>) -> bool {
    forall|a: int, b: int|
        0 <= a < b < plans.len() ==> (#[trigger] plans[a]).number <= (#[trigger] plans[b]).number
}

/// The season numbers do not fall from one plan to the next.
pub open spec fn seasons_ascending(plans: Seq<SeasonPlanView>) -> bool {
    forall|a: int, b: int|
        0 <= a < b < plans.len() ==> (#[trigger] plans[a]).number <= (#[trigger] plans[b]).number
}

proof fn lemma_episode_place(plans: Seq<EpisodePlanView>, number: i32, i: int)
    requires
        0 <= i <= plans.len(),
    ensures
        i <= episode_place(plans, number, i) <= plans.len(),
        forall|k: int| i <= k < episode_place(plans, number, i) ==> plans[k].number <= number,
        episode_place(plans, number, i) < plans.len() ==> plans[episode_place(
            plans,
            number,
            i,
        )].number > number,
    decreases plans.len() - i,
{
    if i < plans.len() && plans[i].number <= number {
        lemma_episode_place(plans, number, i + 1);
    }
}

proof fn lemma_season_place(plans: Seq<SeasonPlanView>, number: i32, i: int)
    requires
        0 <= i <= plans.len(),
    ensures
        i <= season_place(plans, number, i) <= plans.len(),
        forall|k: int| i <= k < season_place(plans, number, i) ==> plans[k].number <= number,
        season_place(plans, number, i) < plans.len() ==> plans[season_place(
            plans,
            number,
            i,
        )].number > number,
    decreases plans.len() - i,
{
    if i < plans.len() && plans[i].number <= number {
        lemma_season_place(plans, number, i + 1);
    }
}

/// The episodes of a season are planned in ascending order of their
/// numbers.
pub proof fn lemma_episode_plans_ascending(files: Seq<EpisodeFileView>, k: nat)
    ensures
        episode_plans(files, k) matches Ok(plans) ==> episodes_ascending(plans),
    decreases k,
{
    if k > 0 {
        lemma_episode_plans_ascending(files, (k - 1) as nat);
        match (episode_plans(files, (k - 1) as nat), episode_plans(files, k)) {
            (Ok(before), Ok(after)) => {
                let file = files[k - 1];
                if is_episode_entry(file.name) {
                    let number = episode_number_of(file.name)->0;
                    let at = episode_place(before, number, 0);
                    lemma_episode_place(before, number, 0);
                    assert forall|a: int, b: int| 0 <= a < b < after.len() implies (
                    #[trigger] after[a]).number <= (#[trigger] after[b]).number by {
                        if b < at {
                            assert(after[a] == before[a] && after[b] == before[b]);
                        } else if b == at {
                            assert(after[a] == before[a]);
                        } else if a < at {
                            assert(after[a] == before[a] && after[b] == before[b - 1]);
                            assert(before[at].number <= before[b - 1].number || at == b - 1);
                        } else if a == at {
                            assert(after[b] == before[b - 1]);
                            assert(before[at].number <= before[b - 1].number || at == b - 1);
                        } else {
                            assert(after[a] == before[a - 1] && after[b] == before[b - 1]);
                        }
                    }
                }
            },
            _ => {},
        }
    }
}

/// The seasons are planned in ascending order of their numbers, and in
/// each its episodes in ascending order of theirs.
pub proof fn lemma_season_plans_ascending(listing: Seq<SeasonDirView>, k: nat)
    ensures
        season_plans(listing, k) matches Ok(plans) ==> seasons_ascending(plans) && forall|i: int|
            0 <= i < plans.len() ==> episodes_ascending((#[trigger] plans[i]).episodes),
    decreases k,
{
    if k > 0 {
        lemma_season_plans_ascending(listing, (k - 1) as nat);
        match (season_plans(listing, (k - 1) as nat), season_plans(listing, k)) {
            (Ok(before), Ok(after)) => {
                let dir = listing[k - 1];
                match season_entry(dir.name) {
                    SeasonEntry::Numbered(number) => {
                        let plan = season_plan(dir, number)->Ok_0;
                        let files = dir.entries->0;
                        lemma_episode_plans_ascending(files, files.len());
                        let at = season_place(before, number, 0);
                        lemma_season_place(before, number, 0);
                        assert forall|a: int, b: int| 0 <= a < b < after.len() implies (
                        #[trigger] after[a]).number <= (#[trigger] after[b]).number by {
                            if b < at {
                                assert(after[a] == before[a] && after[b] == before[b]);
                            } else if b == at {
                                assert(after[a] == before[a]);
                            } else if a < at {
                                assert(after[a] == before[a] && after[b] == before[b - 1]);
                                assert(before[at].number <= before[b - 1].number || at == b - 1);
                            } else if a == at {
                                assert(after[b] == before[b - 1]);
                                assert(before[at].number <= before[b - 1].number || at == b - 1);
                            } else {
                                assert(after[a] == before[a - 1] && after[b] == before[b - 1]);
                            }
                        }
                        assert forall|i: int| 0 <= i < after.len() implies episodes_ascending(
                            (#[trigger] after[i]).episodes,
                        ) by {
                            if i < at {
                                assert(after[i] == before[i]);
                            } else if i == at {
                                assert(after[i] == plan);
                            } else {
                                assert(after[i] == before[i - 1]);
                            }
                        }
                    },
                    _ => {},
                }
            },
            _ => {},
        }
    }
}

/// A plan lists the seasons in ascending order of their numbers, and in
/// each season the episodes in ascending order of theirs.
pub proof fn lemma_planned_ascending(corpus: CorpusView)
    ensures
        planned(corpus) matches Ok(plan) ==> seasons_ascending(plan.seasons) && forall|i: int|
            0 <= i < plan.seasons.len() ==> episodes_ascending(
                (#[trigger] plan.seasons[i]).episodes,
            ),
{
    lemma_season_plans_ascending(corpus.listing, corpus.listing.len());
}

/// The plan of one episode file.
pub open spec fn episode_plan_of(file: EpisodeFileView) -> EpisodePlanView {
    EpisodePlanView {
        number: episode_number_of(file.name)->0,
        title: episode_title_of(file.name),
        lines: split_all(file.lines->0),
    }
}

/// The plans of a season directory are the plans of its episode files,
/// each file planned once.
pub proof fn lemma_episode_plans_members(files: Seq<EpisodeFileView>, k: nat, plan: EpisodePlanView)
    requires
        k <= files.len(),
        episode_plans(files, k) is Ok,
    ensures
        episode_plans(files, k)->Ok_0.contains(plan) <==> exists|j: int|
            0 <= j < k && is_episode_entry(#[trigger] files[j].name) && episode_plan_of(files[j])
                == plan,
    decreases k,
{
    if k > 0 {
        lemma_episode_plans_members(files, (k - 1) as nat, plan);
        let before = episode_plans(files, (k - 1) as nat)->Ok_0;
        let after = episode_plans(files, k)->Ok_0;
        let file = files[k - 1];
        if is_episode_entry(file.name) {
            let new = episode_plan_of(file);
            let at = episode_place(before, new.number, 0);
            lemma_episode_place(before, new.number, 0);
            assert(after == before.insert(at, new));
            if after.contains(plan) {
                let q = choose|q: int| 0 <= q < after.len() && after[q] == plan;
                if q < at {
                    assert(before[q] == plan);
                } else if q == at {
                    assert(is_episode_entry(files[k - 1].name) && episode_plan_of(files[k - 1])
                        == plan);
                } else {
                    assert(before[q - 1] == plan);
                }
            }
            if before.contains(plan) {
                let q = choose|q: int| 0 <= q < before.len() && before[q] == plan;
                if q < at {
                    assert(after[q] == plan);
                } else {
                    assert(after[q + 1] == plan);
                }
            }
            if new == plan {
                assert(after[at] == plan);
            }
        }
    }
}

/// Entry `i` of the listing carries a season number, and `plan` is the
/// plan of that season directory.
pub open spec fn is_plan_of_entry(listing: Seq<SeasonDirView>, i: int, plan: SeasonPlanView) -> bool {
    season_entry(listing[i].name) matches SeasonEntry::Numbered(number) && season_plan(
        listing[i],
        number,
    ) == Ok::<SeasonPlanView, ImportErrorView>(plan)
}

/// The plans of a listing are the plans of its entries that carry a season
/// number, each entry planned once.
pub proof fn lemma_season_plans_members(listing: Seq<SeasonDirView>, k: nat, plan: SeasonPlanView)
    requires
        k <= listing.len(),
        season_plans(listing, k) is Ok,
    ensures
        season_plans(listing, k)->Ok_0.contains(plan) <==> exists|i: int|
            0 <= i < k && #[trigger] is_plan_of_entry(listing, i, plan),
    decreases k,
{
    if k > 0 {
        lemma_season_plans_members(listing, (k - 1) as nat, plan);
        let before = season_plans(listing, (k - 1) as nat)->Ok_0;
        let after = season_plans(listing, k)->Ok_0;
        let dir = listing[k - 1];
        match season_entry(dir.name) {
            SeasonEntry::Numbered(number) => {
                let new = season_plan(dir, number)->Ok_0;
                let at = season_place(before, number, 0);
                lemma_season_place(before, number, 0);
                assert(after == before.insert(at, new));
                if after.contains(plan) {
                    let q = choose|q: int| 0 <= q < after.len() && after[q] == plan;
                    if q < at {
                        assert(before[q] == plan);
                    } else if q == at {
                        assert(is_plan_of_entry(listing, k - 1, plan));
                    } else {
                        assert(before[q - 1] == plan);
                    }
                }
                if before.contains(plan) {
                    let q = choose|q: int| 0 <= q < before.len() && before[q] == plan;
                    if q < at {
                        assert(after[q] == plan);
                    } else {
                        assert(after[q + 1] == plan);
                    }
                }
                if is_plan_of_entry(listing, k - 1, plan) {
                    assert(after[at] == plan);
                }
            },
            _ => {
                assert(!is_plan_of_entry(listing, k - 1, plan));
            },
        }
    }
}

/// Every one of the first `k` entries that starts with `E` carries an
/// episode number and was read.
pub open spec fn sound_files(files: Seq<EpisodeFileView>, k: nat) -> bool {
    forall|j: int|
        0 <= j < k && is_episode_entry(#[trigger] files[j].name) ==> episode_number_of(
            files[j].name,
        ) is Some && files[j].lines is Some
}

/// Every one of the first `k` entries that carries a season number was
/// listed, and its files are sound.
pub open spec fn sound_listing(listing: Seq<SeasonDirView>, k: nat) -> bool {
    forall|i: int|
        0 <= i < k && season_number_of(#[trigger] listing[i].name) is Some ==> listing[i].entries
            is Some && sound_files(listing[i].entries->0, listing[i].entries->0.len())
}

/// The episodes of a directory can be planned exactly when its files are
/// sound.
pub proof fn lemma_episode_plans_exist(files: Seq<EpisodeFileView>, k: nat)
    requires
        k <= files.len(),
    ensures
        episode_plans(files, k) is Ok <==> sound_files(files, k),
    decreases k,
{
    if k > 0 {
        lemma_episode_plans_exist(files, (k - 1) as nat);
        if sound_files(files, k) {
            assert(sound_files(files, (k - 1) as nat));
        }
        if episode_plans(files, k) is Ok {
            assert forall|j: int| 0 <= j < k && is_episode_entry(
                #[trigger] files[j].name,
            ) implies episode_number_of(files[j].name) is Some && files[j].lines is Some by {
                if j < k - 1 {
                    assert(sound_files(files, (k - 1) as nat));
                }
            }
        }
    }
}

/// The seasons of a listing can be planned exactly when the listing is
/// sound.
pub proof fn lemma_season_plans_exist(listing: Seq<SeasonDirView>, k: nat)
    requires
        k <= listing.len(),
    ensures
        season_plans(listing, k) is Ok <==> sound_listing(listing, k),
    decreases k,
{
    if k > 0 {
        lemma_season_plans_exist(listing, (k - 1) as nat);
        let dir = listing[k - 1];
        if dir.entries is Some {
            lemma_episode_plans_exist(dir.entries->0, dir.entries->0.len());
        }
        if sound_listing(listing, k) {
            assert(sound_listing(listing, (k - 1) as nat));
        }
        if season_plans(listing, k) is Ok {
            assert forall|i: int| 0 <= i < k && season_number_of(
                #[trigger] listing[i].name,
            ) is Some implies listing[i].entries is Some && sound_files(
                listing[i].entries->0,
                listing[i].entries->0.len(),
            ) by {
                if i < k - 1 {
                    assert(sound_listing(listing, (k - 1) as nat));
                }
            }
        }
    }
}

/// A corpus can be planned exactly when every season directory of it was
/// listed and every episode file in these carries a number and was read.
pub proof fn lemma_planned_exists(corpus: CorpusView)
    ensures
        planned(corpus) is Ok <==> sound_listing(corpus.listing, corpus.listing.len()),
{
    lemma_season_plans_exist(corpus.listing, corpus.listing.len());
}

} // verus!
