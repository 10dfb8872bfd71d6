use transcripts::corpus::{Corpus, EpisodeFile, SeasonDir};
use transcripts::dataset::Dataset;
use transcripts::error::ImportError;
use transcripts::importer::line_number_at;
use transcripts::plan::{plan_episodes, plan_import, plan_season, split_lines};
use transcripts::reads::TranscriptError;

fn file(name: &str, lines: &[&str]) -> EpisodeFile {
    EpisodeFile { name: name.to_string(), lines: Some(lines.iter().map(|l| l.to_string()).collect()) }
}

fn season(name: &str, files: Vec<EpisodeFile>) -> SeasonDir {
    SeasonDir { name: name.to_string(), entries: Some(files) }
}

#[test]
fn new_dataset_is_empty() {
    let ds = Dataset::new();
    assert!(ds.seasons().is_empty());
    assert!(ds.episodes().is_empty());
    assert!(ds.speakers().is_empty());
    assert!(ds.lines().is_empty());
}

#[test]
fn resolve_season_inserts_once() {
    let mut ds = Dataset::new();
    assert_eq!(ds.resolve_season(3).unwrap(), 1);
    assert_eq!(ds.resolve_season(1).unwrap(), 2);
    assert_eq!(ds.resolve_season(3).unwrap(), 1);
    assert_eq!(ds.resolve_season(1).unwrap(), 2);
    let rows: Vec<(i64, i32)> = ds.seasons().iter().map(|s| (s.id, s.number)).collect();
    assert_eq!(rows, vec![(1, 3), (2, 1)]);
}

#[test]
fn resolve_episode_updates_title_on_conflict() {
    let mut ds = Dataset::new();
    let s1 = ds.resolve_season(1).unwrap();
    let s2 = ds.resolve_season(2).unwrap();
    assert_eq!(ds.resolve_episode(s1, 1, "Pilot").unwrap(), 1);
    assert_eq!(ds.resolve_episode(s2, 1, "Other").unwrap(), 2);
    assert_eq!(ds.resolve_episode(s1, 2, "Second").unwrap(), 3);
    assert_eq!(ds.resolve_episode(s1, 1, "Pilot, recut").unwrap(), 1);
    let rows: Vec<(i64, i64, i32, String)> =
        ds.episodes().iter().map(|e| (e.id, e.season_id, e.number, e.title.clone())).collect();
    assert_eq!(
        rows,
        vec![
            (1, 1, 1, "Pilot, recut".to_string()),
            (2, 2, 1, "Other".to_string()),
            (3, 1, 2, "Second".to_string()),
        ]
    );
}

#[test]
fn resolve_episode_needs_its_season() {
    let mut ds = Dataset::new();
    assert!(matches!(ds.resolve_episode(1, 1, "x"), Err(ImportError::Resolution)));
    ds.resolve_season(1).unwrap();
    assert!(matches!(ds.resolve_episode(0, 1, "x"), Err(ImportError::Resolution)));
    assert!(matches!(ds.resolve_episode(2, 1, "x"), Err(ImportError::Resolution)));
    assert!(matches!(ds.resolve_episode(-1, 1, "x"), Err(ImportError::Resolution)));
    assert!(ds.episodes().is_empty());
    assert_eq!(ds.resolve_episode(1, 1, "x").unwrap(), 1);
}

#[test]
fn resolve_speaker_is_case_sensitive() {
    let mut ds = Dataset::new();
    assert_eq!(ds.resolve_speaker("Alice").unwrap(), 1);
    assert_eq!(ds.resolve_speaker("alice").unwrap(), 2);
    assert_eq!(ds.resolve_speaker("Alice").unwrap(), 1);
    assert_eq!(ds.resolve_speaker("ALICE").unwrap(), 3);
    assert_eq!(ds.resolve_speaker("Alice ").unwrap(), 4);
    let names: Vec<&str> = ds.speakers().iter().map(|s| s.name.as_str()).collect();
    assert_eq!(names, vec!["Alice", "alice", "ALICE", "Alice "]);
}

#[test]
fn insert_line_joins_the_speaker_name() {
    let mut ds = Dataset::new();
    let s = ds.resolve_season(1).unwrap();
    let e = ds.resolve_episode(s, 1, "Pilot").unwrap();
    let who = ds.resolve_speaker("Alice").unwrap();
    assert_eq!(ds.insert_line(s, e, Some(who), 1, "hello").unwrap(), 1);
    assert_eq!(ds.insert_line(s, e, None, 2, "(pause)").unwrap(), 2);
    assert_eq!(ds.insert_line(s, e, None, 2, "(pause)").unwrap(), 3);
    let first = &ds.lines()[0];
    assert_eq!(first.speaker_name.as_deref(), Some("Alice"));
    assert_eq!((first.season_id, first.episode_id, first.line_number), (1, 1, 1));
    assert_eq!(ds.lines()[1].speaker_name, None);
    assert_eq!(ds.lines()[2].id, 3);
}

#[test]
fn insert_line_refuses_dangling_references() {
    let mut ds = Dataset::new();
    let s1 = ds.resolve_season(1).unwrap();
    let s2 = ds.resolve_season(2).unwrap();
    let e = ds.resolve_episode(s1, 1, "Pilot").unwrap();
    assert!(matches!(ds.insert_line(s1, e + 1, None, 1, "x"), Err(ImportError::Resolution)));
    assert!(matches!(ds.insert_line(s1, 0, None, 1, "x"), Err(ImportError::Resolution)));
    assert!(matches!(ds.insert_line(s2, e, None, 1, "x"), Err(ImportError::Resolution)));
    assert!(matches!(ds.insert_line(s1, e, Some(1), 1, "x"), Err(ImportError::Resolution)));
    assert!(matches!(ds.insert_line(s1, e, Some(0), 1, "x"), Err(ImportError::Resolution)));
    assert!(matches!(ds.insert_line(s1, e, None, 0, "x"), Err(ImportError::Resolution)));
    assert!(matches!(ds.insert_line(s1, e, None, -4, "x"), Err(ImportError::Resolution)));
    assert!(ds.lines().is_empty());
    assert_eq!(ds.insert_line(s1, e, None, 1, "x").unwrap(), 1);
}

#[test]
fn snapshot_is_independent() {
    let mut ds = Dataset::new();
    let s = ds.resolve_season(1).unwrap();
    let e = ds.resolve_episode(s, 1, "Pilot").unwrap();
    ds.insert_line(s, e, None, 1, "x").unwrap();
    let copy = ds.snapshot();
    ds.resolve_season(2).unwrap();
    ds.resolve_episode(s, 1, "Changed").unwrap();
    ds.insert_line(s, e, None, 2, "y").unwrap();
    assert_eq!(copy.seasons().len(), 1);
    assert_eq!(copy.episodes()[0].title, "Pilot");
    assert_eq!(copy.lines().len(), 1);
    assert_eq!(copy.lines()[0].content, "x");
}

#[test]
fn line_numbers_count_from_one() {
    assert_eq!(line_number_at(0), Some(1));
    assert_eq!(line_number_at(41), Some(42));
    assert_eq!(line_number_at(2147483646), Some(2147483647));
    assert_eq!(line_number_at(2147483647), None);
    assert_eq!(line_number_at(usize::MAX), None);
}

#[test]
fn error_messages() {
    assert_eq!(
        ImportError::Classification { name: "Extras.txt".to_string() }.message(),
        "Invalid episode file name: Extras.txt"
    );
    assert_eq!(ImportError::Resolution.message(), "Storage fault while importing");
    assert_eq!(ImportError::Read { name: "S1".to_string() }.message(), "Could not read: S1");
}

#[test]
fn split_lines_splits_each() {
    let lines = vec!["A: b".to_string(), "c".to_string(), "".to_string()];
    let split = split_lines(&lines);
    assert_eq!(split.len(), 3);
    assert_eq!(split[0].speaker.as_deref(), Some("A"));
    assert_eq!(split[0].content, "b");
    assert_eq!(split[1].speaker, None);
    assert_eq!(split[2].content, "");
}

#[test]
fn plan_orders_episodes_and_keeps_ties_in_listing_order() {
    let files = vec![
        file("E03 - C.txt", &["x"]),
        file("E01 - A.txt", &[]),
        file("notes.txt", &["ignored"]),
        file("E02 - B.txt", &["y", "z"]),
        file("E1 - A again.txt", &["w"]),
    ];
    let plans = plan_episodes(&files).unwrap();
    let got: Vec<(i32, &str, usize)> =
        plans.iter().map(|p| (p.number, p.title.as_str(), p.lines.len())).collect();
    assert_eq!(got, vec![(1, "A", 0), (1, "A again", 1), (2, "B", 2), (3, "C", 1)]);
}

#[test]
fn plan_reports_the_first_fault_in_listing_order() {
    let files = vec![
        file("E01.txt", &[]),
        EpisodeFile { name: "E02.txt".to_string(), lines: None },
        file("Eh.txt", &[]),
    ];
    assert!(matches!(plan_episodes(&files), Err(ImportError::Read { ref name }) if name == "E02.txt"));
    let files = vec![file("Eh.txt", &[]), EpisodeFile { name: "E02.txt".to_string(), lines: None }];
    assert!(
        matches!(plan_episodes(&files), Err(ImportError::Classification { ref name }) if name == "Eh.txt")
    );
    let files = vec![EpisodeFile { name: "Eh.txt".to_string(), lines: None }];
    assert!(
        matches!(plan_episodes(&files), Err(ImportError::Classification { ref name }) if name == "Eh.txt")
    );
    let files = vec![EpisodeFile { name: "readme".to_string(), lines: None }];
    assert!(plan_episodes(&files).unwrap().is_empty());
    let dir = SeasonDir { name: "S4".to_string(), entries: None };
    assert!(matches!(plan_season(&dir, 4), Err(ImportError::Read { ref name }) if name == "S4"));
}

#[test]
fn plan_orders_seasons_by_number() {
    let corpus = Corpus {
        listing: vec![
            season("S10", vec![file("E01.txt", &["a"])]),
            season("S2", vec![file("E01.txt", &["b"])]),
            season("extras", vec![file("Ex.txt", &["never read"])]),
            season("S02", vec![file("E02.txt", &["c"])]),
            season("S00", vec![]),
            SeasonDir { name: "Sx".to_string(), entries: None },
            season("S1", vec![]),
        ],
    };
    let plan = plan_import(&corpus).unwrap();
    let got: Vec<(i32, i32)> =
        plan.seasons.iter().map(|s| (s.number, s.episodes.first().map(|e| e.number).unwrap_or(-1))).collect();
    assert_eq!(got, vec![(1, -1), (2, 1), (2, 2), (10, 1)]);
    assert_eq!(plan.skipped, vec!["S00".to_string()]);
}

#[test]
fn apply_plan_is_all_or_nothing_and_repeatable() {
    let corpus = Corpus {
        listing: vec![season("S1", vec![file("E01 - One.txt", &["A: x", "B: y"]), file("E1 - Uno.txt", &["A: z"])])],
    };
    let plan = plan_import(&corpus).unwrap();
    let mut ds = Dataset::new();
    ds.apply_plan(&plan).unwrap();
    assert_eq!(ds.episodes().len(), 1);
    assert_eq!(ds.episodes()[0].title, "Uno");
    let numbers: Vec<i32> = ds.lines().iter().map(|l| l.line_number).collect();
    assert_eq!(numbers, vec![1, 2, 1]);
    ds.apply_plan(&plan).unwrap();
    assert_eq!(ds.seasons().len(), 1);
    assert_eq!(ds.episodes().len(), 1);
    assert_eq!(ds.speakers().len(), 2);
    assert_eq!(ds.lines().len(), 6);
}

#[test]
fn episodes_of_a_season_in_ascending_order() {
    let mut ds = Dataset::new();
    let s1 = ds.resolve_season(1).unwrap();
    let s2 = ds.resolve_season(2).unwrap();
    ds.resolve_episode(s1, 3, "c").unwrap();
    ds.resolve_episode(s2, 1, "other").unwrap();
    ds.resolve_episode(s1, 1, "a").unwrap();
    ds.resolve_episode(s1, 2, "b").unwrap();
    let got: Vec<(i64, i32)> = ds.episodes_of(s1).iter().map(|e| (e.id, e.number)).collect();
    assert_eq!(got, vec![(3, 1), (4, 2), (1, 3)]);
    assert_eq!(ds.episodes_of(s2).len(), 1);
    assert!(ds.episodes_of(9).is_empty());
}

#[test]
fn transcript_of_one_episode() {
    let mut ds = Dataset::new();
    let corpus = Corpus {
        listing: vec![
            season("S1", vec![file("E01.txt", &["A: one", "two"]), file("E02.txt", &["B: three"])]),
            season("S2", vec![file("E01.txt", &["C: four"]), file("E05.txt", &[])]),
        ],
    };
    ds.import(&corpus).unwrap();
    let got: Vec<String> = ds.transcript(1, 1).unwrap().iter().map(|l| l.content.clone()).collect();
    assert_eq!(got, vec!["one".to_string(), "two".to_string()]);
    let got: Vec<String> = ds.transcript(2, 1).unwrap().iter().map(|l| l.content.clone()).collect();
    assert_eq!(got, vec!["four".to_string()]);
    assert!(ds.transcript(1, 5).unwrap().is_empty());
    assert_eq!(ds.transcript(3, 1).unwrap_err(), TranscriptError::SeasonNotFound);
    assert_eq!(ds.transcript(1, 9).unwrap_err(), TranscriptError::EpisodeNotFound);
    assert_eq!(ds.transcript(9, 9).unwrap_err(), TranscriptError::SeasonNotFound);
    assert_eq!(ds.transcript(4294967297, 1).unwrap_err(), TranscriptError::SeasonNotFound);
}
