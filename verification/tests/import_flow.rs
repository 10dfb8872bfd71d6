use transcripts::corpus::{Corpus, EpisodeFile, SeasonDir};
use transcripts::dataset::Dataset;
use transcripts::error::ImportError;
use transcripts::models::{RandomLineQuery, SearchPhrasesQuery};
use transcripts::splitter::split_line;

fn file(name: &str, lines: &[&str]) -> EpisodeFile {
    EpisodeFile {
        name: name.to_string(),
        lines: Some(lines.iter().map(|l| l.to_string()).collect()),
    }
}

fn season(name: &str, files: Vec<EpisodeFile>) -> SeasonDir {
    SeasonDir { name: name.to_string(), entries: Some(files) }
}

fn small_corpus() -> Corpus {
    Corpus {
        listing: vec![
            season("S2", vec![file("E01 - Return.txt", &["Alice: back again", "Bob: so it seems", ""])]),
            season("notes", vec![]),
            season(
                "S1",
                vec![
                    file("E02 - Second.txt", &["Bob: hello there", "(door slams)"]),
                    file("E01 - Pilot.txt", &["Alice: hello", ": hi", "Carol : what now?"]),
                    file("readme.md", &["not an episode"]),
                ],
            ),
        ],
    }
}

#[test]
fn split_line_with_speaker() {
    let s = split_line("Alice: hello");
    assert_eq!(s.speaker.as_deref(), Some("Alice"));
    assert_eq!(s.content, "hello");
}

#[test]
fn split_line_without_colon() {
    let s = split_line("  (door slams)  ");
    assert_eq!(s.speaker, None);
    assert_eq!(s.content, "(door slams)");
}

#[test]
fn split_line_with_empty_label() {
    let s = split_line(": hi");
    assert_eq!(s.speaker, None);
    assert_eq!(s.content, "hi");
}

#[test]
fn split_line_at_first_colon_only() {
    let s = split_line("Bob: time: 10:30");
    assert_eq!(s.speaker.as_deref(), Some("Bob"));
    assert_eq!(s.content, "time: 10:30");
}

#[test]
fn import_counts_distinct_keys_and_all_lines() {
    let mut ds = Dataset::new();
    let skipped = ds.import(&small_corpus()).unwrap();
    assert!(skipped.is_empty());
    assert_eq!(ds.seasons().len(), 2);
    assert_eq!(ds.episodes().len(), 3);
    assert_eq!(ds.speakers().len(), 3);
    assert_eq!(ds.lines().len(), 8);
}

#[test]
fn import_orders_seasons_and_episodes_by_number() {
    let mut ds = Dataset::new();
    ds.import(&small_corpus()).unwrap();
    let seasons: Vec<(i64, i32)> = ds.seasons().iter().map(|s| (s.id, s.number)).collect();
    assert_eq!(seasons, vec![(1, 1), (2, 2)]);
    let episodes: Vec<(i64, i64, i32, String)> =
        ds.episodes().iter().map(|e| (e.id, e.season_id, e.number, e.title.clone())).collect();
    assert_eq!(
        episodes,
        vec![
            (1, 1, 1, "Pilot".to_string()),
            (2, 1, 2, "Second".to_string()),
            (3, 2, 1, "Return".to_string()),
        ]
    );
}

#[test]
fn line_numbers_run_from_one_in_each_episode() {
    let mut ds = Dataset::new();
    ds.import(&small_corpus()).unwrap();
    for episode in ds.episodes().iter() {
        let numbers: Vec<i32> = ds
            .lines()
            .iter()
            .filter(|l| l.episode_id == episode.id)
            .map(|l| l.line_number)
            .collect();
        let expected: Vec<i32> = (1..=numbers.len() as i32).collect();
        assert_eq!(numbers, expected);
    }
    let third: Vec<i32> =
        ds.lines().iter().filter(|l| l.episode_id == 3).map(|l| l.line_number).collect();
    assert_eq!(third, vec![1, 2, 3]);
}

#[test]
fn blank_lines_take_a_number() {
    let mut ds = Dataset::new();
    ds.import(&small_corpus()).unwrap();
    let last = ds.lines().last().unwrap();
    assert_eq!(last.line_number, 3);
    assert_eq!(last.content, "");
    assert_eq!(last.speaker_id, None);
}

#[test]
fn unparsable_episode_leaves_dataset_untouched() {
    let mut ds = Dataset::new();
    ds.import(&small_corpus()).unwrap();
    let bad = Corpus {
        listing: vec![
            season("S3", vec![file("E01 - Fine.txt", &["Dave: new speaker"])]),
            season("S4", vec![file("Extras.txt", &["Eve: never stored"])]),
        ],
    };
    let err = ds.import(&bad).unwrap_err();
    assert!(matches!(err, ImportError::Classification { ref name } if name == "Extras.txt"));
    assert_eq!(ds.seasons().len(), 2);
    assert_eq!(ds.episodes().len(), 3);
    assert_eq!(ds.speakers().len(), 3);
    assert_eq!(ds.lines().len(), 8);
}

#[test]
fn unparsable_episode_leaves_fresh_dataset_empty() {
    let mut ds = Dataset::new();
    let bad = Corpus { listing: vec![season("S1", vec![file("Ex.txt", &["A: b"])])] };
    assert!(ds.import(&bad).is_err());
    assert_eq!(ds.seasons().len(), 0);
    assert_eq!(ds.episodes().len(), 0);
    assert_eq!(ds.speakers().len(), 0);
    assert_eq!(ds.lines().len(), 0);
}

#[test]
fn malformed_season_entries_are_skipped() {
    let mut ds = Dataset::new();
    let corpus = Corpus {
        listing: vec![
            season("S99999999999", vec![file("E01.txt", &["A: b"])]),
            season("S0", vec![file("E01.txt", &["A: b"])]),
            season("Sx", vec![file("bad", &[])]),
            season("S7", vec![file("E03.txt", &["A: b"])]),
        ],
    };
    let skipped = ds.import(&corpus).unwrap();
    assert_eq!(skipped, vec!["S99999999999".to_string(), "S0".to_string()]);
    assert_eq!(ds.seasons().len(), 1);
    assert_eq!(ds.seasons()[0].number, 7);
    assert_eq!(ds.episodes()[0].number, 3);
    assert_eq!(ds.episodes()[0].title, "");
}

#[test]
fn unreadable_file_aborts_import() {
    let mut ds = Dataset::new();
    let corpus = Corpus {
        listing: vec![season(
            "S1",
            vec![file("E01.txt", &["A: b"]), EpisodeFile { name: "E02.txt".to_string(), lines: None }],
        )],
    };
    let err = ds.import(&corpus).unwrap_err();
    assert!(matches!(err, ImportError::Read { ref name } if name == "E02.txt"));
    assert_eq!(ds.lines().len(), 0);
    let corpus = Corpus { listing: vec![SeasonDir { name: "S1".to_string(), entries: None }] };
    let err = ds.import(&corpus).unwrap_err();
    assert!(matches!(err, ImportError::Read { ref name } if name == "S1"));
}

#[test]
fn second_import_keeps_keys_and_doubles_lines() {
    let mut ds = Dataset::new();
    ds.import(&small_corpus()).unwrap();
    ds.import(&small_corpus()).unwrap();
    assert_eq!(ds.seasons().len(), 2);
    assert_eq!(ds.episodes().len(), 3);
    assert_eq!(ds.speakers().len(), 3);
    assert_eq!(ds.lines().len(), 16);
}

#[test]
fn sample_without_match_is_none() {
    let mut ds = Dataset::new();
    ds.import(&small_corpus()).unwrap();
    let q = RandomLineQuery { season: Some(9), episode: None, speaker: None };
    assert!(ds.sample(&q, 5).is_none());
    let q = RandomLineQuery { season: Some(1), episode: Some(3), speaker: None };
    assert!(ds.sample(&q, 0).is_none());
}

#[test]
fn sample_without_filters_always_finds_a_line() {
    let mut ds = Dataset::new();
    ds.import(&small_corpus()).unwrap();
    let q = RandomLineQuery { season: None, episode: None, speaker: None };
    for draw in 0..40u64 {
        let line = ds.sample(&q, draw).unwrap();
        assert_eq!(line.id, (draw % 8) as i64 + 1);
    }
    assert!(Dataset::new().sample(&q, 3).is_none());
}

#[test]
fn sample_respects_combined_filters() {
    let mut ds = Dataset::new();
    ds.import(&small_corpus()).unwrap();
    let q = RandomLineQuery { season: Some(1), episode: None, speaker: Some(3) };
    let line = ds.sample(&q, 17).unwrap();
    assert_eq!(line.speaker_name.as_deref(), Some("Bob"));
    assert_eq!(line.content, "hello there");
    assert_eq!(line.season_id, 1);
}

#[test]
fn search_with_context_radius_one() {
    let mut ds = Dataset::new();
    let corpus =
        Corpus { listing: vec![season("S1", vec![file("E01.txt", &["a", "hello world", "c"])])] };
    ds.import(&corpus).unwrap();
    let q = SearchPhrasesQuery {
        phrase: Some("hello".to_string()),
        season: None,
        episode: None,
        speaker: None,
        context: Some(1),
    };
    let found = ds.search(&q);
    assert_eq!(found.len(), 1);
    assert_eq!(found[0].line.line_number, 2);
    assert_eq!(found[0].line.content, "hello world");
    let context: Vec<(i32, String)> = found[0]
        .context
        .as_ref()
        .unwrap()
        .iter()
        .map(|l| (l.line_number, l.content.clone()))
        .collect();
    assert_eq!(
        context,
        vec![(1, "a".to_string()), (2, "hello world".to_string()), (3, "c".to_string())]
    );
}

#[test]
fn search_without_radius_has_no_context() {
    let mut ds = Dataset::new();
    ds.import(&small_corpus()).unwrap();
    let mut q = SearchPhrasesQuery {
        phrase: Some("HELLO".to_string()),
        season: None,
        episode: None,
        speaker: None,
        context: None,
    };
    let found = ds.search(&q);
    let ids: Vec<i64> = found.iter().map(|h| h.line.id).collect();
    assert_eq!(ids, vec![1, 4]);
    assert!(found.iter().all(|h| h.context.is_none()));
    q.context = Some(-3);
    assert!(ds.search(&q).iter().all(|h| h.context.is_none()));
    q.speaker = Some(3);
    let found = ds.search(&q);
    assert_eq!(found.len(), 1);
    assert_eq!(found[0].line.content, "hello there");
}

#[test]
fn context_after_second_import_is_sorted_by_number() {
    let mut ds = Dataset::new();
    let corpus =
        Corpus { listing: vec![season("S1", vec![file("E01.txt", &["a", "hello world", "c"])])] };
    ds.import(&corpus).unwrap();
    ds.import(&corpus).unwrap();
    let q = SearchPhrasesQuery {
        phrase: Some("world".to_string()),
        season: None,
        episode: None,
        speaker: None,
        context: Some(1),
    };
    let found = ds.search(&q);
    assert_eq!(found.len(), 2);
    let context: Vec<(i32, i64)> =
        found[1].context.as_ref().unwrap().iter().map(|l| (l.line_number, l.id)).collect();
    assert_eq!(context, vec![(1, 1), (1, 4), (2, 2), (2, 5), (3, 3), (3, 6)]);
}
