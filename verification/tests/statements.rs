use transcripts::models::{Line, RandomLineQuery, SearchPhrasesQuery, UserQuery};
use transcripts::query::{
    attach_context, compose, has_phrase, line_holds, line_satisfies, matching_lines, pick, window,
    with_context, Field, Predicate,
};
use transcripts::session::{
    database_path, database_url, extract_dir, path_inside, session_files, upload_path,
    upload_target,
};
use uuid::Uuid;
use transcripts::statement::{
    compose_context, compose_sampling, compose_search, escape_like, like_pattern, Param,
};

const SELECT: &str = "SELECT l.id, l.season_id, l.episode_id, l.speaker_id, s.name AS speaker_name, l.line_number, l.content FROM lines l LEFT JOIN speakers s ON l.speaker_id = s.id";

fn line(id: i64, episode_id: i64, speaker_id: Option<i64>, number: i32, content: &str) -> Line {
    Line {
        id,
        season_id: 1,
        episode_id,
        speaker_id,
        speaker_name: speaker_id.map(|s| format!("speaker{}", s)),
        line_number: number,
        content: content.to_string(),
    }
}

#[test]
fn predicates_follow_the_declared_order() {
    assert_eq!(compose(None, None, None), vec![]);
    assert_eq!(
        compose(Some(4), Some(5), Some(6)),
        vec![
            Predicate { field: Field::Season, value: 4 },
            Predicate { field: Field::Episode, value: 5 },
            Predicate { field: Field::Speaker, value: 6 },
        ]
    );
    assert_eq!(
        compose(None, Some(5), Some(6)),
        vec![
            Predicate { field: Field::Episode, value: 5 },
            Predicate { field: Field::Speaker, value: 6 },
        ]
    );
    assert_eq!(compose(Some(-1), None, None), vec![Predicate { field: Field::Season, value: -1 }]);
}

#[test]
fn sampling_statement_without_filters() {
    let st = RandomLineQuery { season: None, episode: None, speaker: None }.statement();
    assert_eq!(st.sql, format!("{} ORDER BY RANDOM() LIMIT 1;", SELECT));
    assert!(st.params.is_empty());
}

#[test]
fn sampling_statement_with_filters() {
    let st = RandomLineQuery { season: Some(2), episode: None, speaker: Some(9) }.statement();
    assert_eq!(
        st.sql,
        format!("{} WHERE l.season_id = ? AND l.speaker_id = ? ORDER BY RANDOM() LIMIT 1;", SELECT)
    );
    assert_eq!(st.params, vec![Param::Int(2), Param::Int(9)]);
    let st = compose_sampling(&compose(Some(1), Some(2), Some(3)));
    assert_eq!(
        st.sql,
        format!(
            "{} WHERE l.season_id = ? AND l.episode_id = ? AND l.speaker_id = ? ORDER BY RANDOM() LIMIT 1;",
            SELECT
        )
    );
    assert_eq!(st.params, vec![Param::Int(1), Param::Int(2), Param::Int(3)]);
    let st = compose_sampling(&compose(None, Some(2), None));
    assert_eq!(st.sql, format!("{} WHERE l.episode_id = ? ORDER BY RANDOM() LIMIT 1;", SELECT));
    assert_eq!(st.sql.matches('?').count(), st.params.len());
}

#[test]
fn search_statement_binds_pattern_first() {
    let q = SearchPhrasesQuery {
        phrase: Some("hello".to_string()),
        season: None,
        episode: Some(3),
        speaker: Some(4),
        context: Some(2),
    };
    let st = q.statement();
    assert_eq!(
        st.sql,
        format!(
            "{} WHERE l.content LIKE ? ESCAPE '\\' AND l.episode_id = ? AND l.speaker_id = ? ORDER BY l.id;",
            SELECT
        )
    );
    assert_eq!(st.params, vec![Param::Text("%hello%".to_string()), Param::Int(3), Param::Int(4)]);
    assert_eq!(st.sql.matches('?').count(), st.params.len());
    assert_eq!(q.radius(), 2);
    assert_eq!(q.phrase_text(), "hello");
}

#[test]
fn search_statement_without_phrase_or_filters() {
    let q = SearchPhrasesQuery { phrase: None, season: None, episode: None, speaker: None, context: None };
    let st = q.statement();
    assert_eq!(st.sql, format!("{} WHERE l.content LIKE ? ESCAPE '\\' ORDER BY l.id;", SELECT));
    assert_eq!(st.params, vec![Param::Text("%%".to_string())]);
    assert_eq!(q.radius(), 0);
    assert_eq!(q.phrase_text(), "");
    let st = compose_search("x", &compose(Some(8), None, None));
    assert_eq!(st.params, vec![Param::Text("%x%".to_string()), Param::Int(8)]);
}

#[test]
fn radius_is_never_negative() {
    let mut q = SearchPhrasesQuery { phrase: None, season: None, episode: None, speaker: None, context: Some(-5) };
    assert_eq!(q.radius(), 0);
    q.context = Some(0);
    assert_eq!(q.radius(), 0);
    q.context = Some(i32::MAX);
    assert_eq!(q.radius(), i32::MAX);
}

#[test]
fn like_patterns_escape_wildcards() {
    assert_eq!(escape_like("plain"), "plain");
    assert_eq!(escape_like("100%"), "100\\%");
    assert_eq!(escape_like("a_b"), "a\\_b");
    assert_eq!(escape_like("c:\\dir"), "c:\\\\dir");
    assert_eq!(escape_like("%_\\"), "\\%\\_\\\\");
    assert_eq!(escape_like(""), "");
    assert_eq!(escape_like("é%日"), "é\\%日");
    assert_eq!(like_pattern("hello"), "%hello%");
    assert_eq!(like_pattern("50%"), "%50\\%%");
    assert_eq!(like_pattern(""), "%%");
}

#[test]
fn context_statement_binds_episode_and_bounds() {
    let hit = line(10, 7, None, 5, "x");
    let st = compose_context(&hit, 2);
    assert_eq!(
        st.sql,
        format!(
            "{} WHERE l.episode_id = ? AND l.line_number BETWEEN ? AND ? ORDER BY l.line_number, l.id;",
            SELECT
        )
    );
    assert_eq!(st.params, vec![Param::Int(7), Param::Int(3), Param::Int(7)]);
    let hit = line(10, 7, None, i32::MAX, "x");
    let st = compose_context(&hit, i32::MAX);
    assert_eq!(st.params, vec![Param::Int(7), Param::Int(0), Param::Int(4294967294)]);
    let hit = line(10, 7, None, 1, "x");
    let st = compose_context(&hit, 3);
    assert_eq!(st.params, vec![Param::Int(7), Param::Int(-2), Param::Int(4)]);
}

#[test]
fn phrase_matching_ignores_ascii_case_only() {
    assert!(has_phrase("Hello World", "hello"));
    assert!(has_phrase("hello world", "O W"));
    assert!(has_phrase("hello world", "WORLD"));
    assert!(has_phrase("abc", ""));
    assert!(has_phrase("", ""));
    assert!(has_phrase("abc", "abc"));
    assert!(!has_phrase("abc", "abcd"));
    assert!(!has_phrase("", "a"));
    assert!(!has_phrase("hello", "help"));
    assert!(has_phrase("Étude", "étude") == false);
    assert!(has_phrase("Étude", "Étude"));
    assert!(has_phrase("100% sure", "0%"));
    assert!(!has_phrase("100 sure", "0%"));
    assert!(!has_phrase("a_b", "a.b"));
    assert!(!has_phrase("@", "`"));
    assert!(!has_phrase("[", "{"));
}

#[test]
fn predicates_on_lines() {
    let l = line(1, 7, Some(3), 1, "x");
    assert!(line_holds(&l, &Predicate { field: Field::Season, value: 1 }));
    assert!(!line_holds(&l, &Predicate { field: Field::Season, value: 2 }));
    assert!(line_holds(&l, &Predicate { field: Field::Episode, value: 7 }));
    assert!(line_holds(&l, &Predicate { field: Field::Speaker, value: 3 }));
    assert!(!line_holds(&l, &Predicate { field: Field::Speaker, value: 4 }));
    let silent = line(2, 7, None, 2, "y");
    assert!(!line_holds(&silent, &Predicate { field: Field::Speaker, value: 3 }));
    assert!(line_satisfies(&silent, &vec![]));
    assert!(line_satisfies(&l, &compose(Some(1), Some(7), Some(3))));
    assert!(!line_satisfies(&l, &compose(Some(1), Some(8), Some(3))));
    assert!(!line_satisfies(&silent, &compose(Some(1), Some(7), Some(3))));
}

#[test]
fn matching_lines_keep_their_order() {
    let lines = vec![
        line(1, 1, Some(1), 1, "a"),
        line(2, 2, Some(2), 1, "b"),
        line(3, 1, None, 2, "c"),
        line(4, 1, Some(1), 3, "d"),
    ];
    let ids: Vec<i64> = matching_lines(&lines, &compose(None, Some(1), None)).iter().map(|l| l.id).collect();
    assert_eq!(ids, vec![1, 3, 4]);
    let ids: Vec<i64> = matching_lines(&lines, &compose(None, Some(1), Some(1))).iter().map(|l| l.id).collect();
    assert_eq!(ids, vec![1, 4]);
    assert_eq!(matching_lines(&lines, &vec![]).len(), 4);
    assert_eq!(matching_lines(&lines, &compose(Some(5), None, None)).len(), 0);
}

#[test]
fn pick_wraps_the_draw() {
    let lines = vec![line(1, 1, None, 1, "a"), line(2, 1, None, 2, "b"), line(3, 1, None, 3, "c")];
    assert_eq!(pick(&lines, 0).unwrap().id, 1);
    assert_eq!(pick(&lines, 2).unwrap().id, 3);
    assert_eq!(pick(&lines, 3).unwrap().id, 1);
    assert_eq!(pick(&lines, u64::MAX).unwrap().id, 1);
    assert_eq!(pick(&lines, 10).unwrap().content, "b");
    assert!(pick(&vec![], 7).is_none());
}

#[test]
fn window_is_sorted_and_bounded() {
    let lines = vec![
        line(1, 1, None, 3, "c"),
        line(2, 1, None, 1, "a"),
        line(3, 2, None, 2, "other"),
        line(4, 1, None, 2, "b"),
        line(5, 1, None, 4, "d"),
        line(6, 1, None, 2, "b again"),
    ];
    let got: Vec<(i32, i64)> = window(&lines, 1, 2, 3).iter().map(|l| (l.line_number, l.id)).collect();
    assert_eq!(got, vec![(2, 4), (2, 6), (3, 1)]);
    let got: Vec<i64> = window(&lines, 1, -10, 10).iter().map(|l| l.id).collect();
    assert_eq!(got, vec![2, 4, 6, 1, 5]);
    assert!(window(&lines, 1, 5, 9).is_empty());
    assert!(window(&lines, 1, 3, 2).is_empty());
    assert!(window(&lines, 3, 0, 9).is_empty());
}

#[test]
fn context_is_attached_for_positive_radius_only() {
    let lines = vec![line(1, 1, None, 1, "a"), line(2, 1, None, 2, "b"), line(3, 1, None, 3, "c")];
    let hit = with_context(&lines, &lines[0], 1);
    let ids: Vec<i64> = hit.context.unwrap().iter().map(|l| l.id).collect();
    assert_eq!(ids, vec![1, 2]);
    assert!(with_context(&lines, &lines[0], 0).context.is_none());
    assert!(with_context(&lines, &lines[0], -1).context.is_none());
    let hit = with_context(&lines, &lines[1], i32::MAX);
    assert_eq!(hit.context.unwrap().len(), 3);
}

#[test]
fn failed_context_fetch_degrades_to_empty() {
    let hit = attach_context(line(1, 1, None, 1, "a"), 2, None);
    assert_eq!(hit.line.id, 1);
    assert_eq!(hit.context.map(|c| c.len()), Some(0));
    let hit = attach_context(line(1, 1, None, 1, "a"), 2, Some(vec![line(2, 1, None, 2, "b")]));
    assert_eq!(hit.context.unwrap()[0].id, 2);
    let hit = attach_context(line(1, 1, None, 1, "a"), 0, Some(vec![line(2, 1, None, 2, "b")]));
    assert!(hit.context.is_none());
    let hit = attach_context(line(1, 1, None, 1, "a"), 0, None);
    assert!(hit.context.is_none());
}

#[test]
fn session_id_is_absent_when_empty() {
    assert_eq!(UserQuery { user_id: String::new() }.session_id(), None);
    assert_eq!(UserQuery { user_id: "abc".to_string() }.session_id(), Some("abc".to_string()));
    assert_eq!(UserQuery { user_id: " ".to_string() }.session_id(), Some(" ".to_string()));
}

#[test]
fn session_paths() {
    assert_eq!(database_path("abc-123"), "./temp_dbs/abc-123.sqlite");
    assert_eq!(database_url("./temp_dbs/abc-123.sqlite"), "sqlite://./temp_dbs/abc-123.sqlite");
    assert_eq!(extract_dir("./temp_uploads"), "./temp_uploads/extracted");
    assert_eq!(path_inside("a", "b"), "a/b");
    assert_eq!(upload_target("./temp_uploads", None), "./temp_uploads/upload.zip");
    assert_eq!(upload_target("./temp_uploads", Some("show.zip")), "./temp_uploads/show.zip");
}

#[test]
fn upload_path_keeps_the_file_in_the_directory() {
    assert_eq!(upload_path("./temp_uploads", None), "./temp_uploads/upload.zip");
    assert_eq!(upload_path("./temp_uploads", Some("show.zip")), "./temp_uploads/show.zip");
    assert_eq!(upload_path("./temp_uploads", Some("../../etc/passwd")), "./temp_uploads/....etcpasswd");
    assert_eq!(upload_path("up", Some("a/b\\c:d*e?f\"g<h>i|j")), "up/abcdefghij");
    assert_eq!(upload_path("up", Some("tab\there\u{0}\u{85}.zip")), "up/tabhere.zip");
    let long = "x".repeat(400);
    let path = upload_path("up", Some(&long));
    assert_eq!(path.len(), 3 + 255);
    for given in ["..", "a/../b", "/abs", "c:\\x", "\u{1f}", "ok.zip"] {
        let path = upload_path("up", Some(given));
        let name = path.strip_prefix("up/").unwrap();
        assert!(name.chars().count() <= 255);
        assert!(!name.chars().any(|c| "/?<>\\:*|\"".contains(c) || (c as u32) < 0x20 || (0x80..0xa0).contains(&(c as u32))));
    }
}

#[test]
fn session_files_are_named_by_the_hyphenated_id() {
    let files = session_files(&Uuid::from_u128(0x0123456789abcdef0123456789abcdef));
    assert_eq!(files.user_id, "01234567-89ab-cdef-0123-456789abcdef");
    assert_eq!(files.db_path, "./temp_dbs/01234567-89ab-cdef-0123-456789abcdef.sqlite");
    assert_eq!(files.db_url, "sqlite://./temp_dbs/01234567-89ab-cdef-0123-456789abcdef.sqlite");
    let files = session_files(&Uuid::from_u128(u128::MAX));
    assert_eq!(files.user_id, "ffffffff-ffff-ffff-ffff-ffffffffffff");
    let files = session_files(&Uuid::nil());
    assert_eq!(files.user_id, "00000000-0000-0000-0000-000000000000");
}
