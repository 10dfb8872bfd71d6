use transcripts::classify::{
    classify_season, episode_number, episode_title, is_episode_name, locate_listing,
    season_number, DirEntry, SeasonEntry,
};
use transcripts::text::{chars_of, is_digit_char, is_whitespace_char, trim};

fn entry(name: &str, is_dir: bool) -> DirEntry {
    DirEntry { name: name.to_string(), is_dir }
}

#[test]
fn season_names_with_numbers() {
    assert_eq!(classify_season("S1"), SeasonEntry::Numbered(1));
    assert_eq!(classify_season("S01"), SeasonEntry::Numbered(1));
    assert_eq!(classify_season("S12"), SeasonEntry::Numbered(12));
    assert_eq!(classify_season("S2147483647"), SeasonEntry::Numbered(2147483647));
    assert_eq!(classify_season("S0000000000000000000042"), SeasonEntry::Numbered(42));
    assert_eq!(season_number("S07"), Some(7));
}

#[test]
fn season_names_that_spell_no_number() {
    assert_eq!(classify_season("S2147483648"), SeasonEntry::Unparsable);
    assert_eq!(classify_season("S99999999999999999999999"), SeasonEntry::Unparsable);
    assert_eq!(classify_season("S0"), SeasonEntry::Unparsable);
    assert_eq!(classify_season("S000"), SeasonEntry::Unparsable);
    assert_eq!(season_number("S0"), None);
}

#[test]
fn names_that_are_no_season() {
    for name in ["", "S", "s1", "Season 1", "S1x", "S 1", "S-1", "S+1", "E01", "1", "S1 ", "Ｓ1", "S１"] {
        assert_eq!(classify_season(name), SeasonEntry::Other, "{:?}", name);
        assert_eq!(season_number(name), None);
    }
}

#[test]
fn episode_numbers_are_the_leading_digits() {
    assert_eq!(episode_number("E01 - Pilot.txt"), Some(1));
    assert_eq!(episode_number("E12.txt"), Some(12));
    assert_eq!(episode_number("E7"), Some(7));
    assert_eq!(episode_number("E00 - Prologue.txt"), Some(0));
    assert_eq!(episode_number("E03abc.txt"), Some(3));
    assert_eq!(episode_number("E2147483647.txt"), Some(2147483647));
}

#[test]
fn episode_names_without_a_number() {
    assert_eq!(episode_number("Extras.txt"), None);
    assert_eq!(episode_number("E"), None);
    assert_eq!(episode_number("E - Pilot.txt"), None);
    assert_eq!(episode_number("E 01.txt"), None);
    assert_eq!(episode_number("E2147483648.txt"), None);
    assert_eq!(episode_number("e01.txt"), None);
    assert_eq!(episode_number("01.txt"), None);
    assert_eq!(episode_number(""), None);
}

#[test]
fn episode_entries_start_with_the_marker() {
    assert!(is_episode_name("E01 - Pilot.txt"));
    assert!(is_episode_name("Extras.txt"));
    assert!(is_episode_name("E"));
    assert!(!is_episode_name("readme.txt"));
    assert!(!is_episode_name("e01.txt"));
    assert!(!is_episode_name(""));
}

#[test]
fn episode_titles() {
    assert_eq!(episode_title("E01 - Pilot.txt"), "Pilot");
    assert_eq!(episode_title("E01 - The Long Night.txt"), "The Long Night");
    assert_eq!(episode_title("E01 - A - B.txt"), "A");
    assert_eq!(episode_title("E01 -  Spaced .txt"), " Spaced ");
    assert_eq!(episode_title("E01 - .txt"), "");
    assert_eq!(episode_title("E01 - Ünïcödé.txt"), "Ünïcödé");
}

#[test]
fn episode_titles_are_empty_without_separator_or_extension() {
    assert_eq!(episode_title("E01.txt"), "");
    assert_eq!(episode_title("E01-Pilot.txt"), "");
    assert_eq!(episode_title("E01 - Pilot"), "");
    assert_eq!(episode_title("E01 - Pilot.md"), "");
    assert_eq!(episode_title("E01 - Pilot.TXT"), "");
    assert_eq!(episode_title(".txt"), "");
    assert_eq!(episode_title(""), "");
}

#[test]
fn trim_removes_whitespace_on_both_sides() {
    assert_eq!(trim("  hello  "), "hello");
    assert_eq!(trim("\t\r\nhello world\n"), "hello world");
    assert_eq!(trim("\u{a0}\u{2003}x y\u{3000}\u{85}"), "x y");
    assert_eq!(trim("hello"), "hello");
    assert_eq!(trim("   "), "");
    assert_eq!(trim(""), "");
    assert_eq!(trim("\u{200b}x"), "\u{200b}x");
}

#[test]
fn trim_agrees_with_std() {
    for s in [" a ", "\u{1680}b\u{2028}", "\u{2029}\u{202f}\u{205f}c", "\u{b}\u{c}d\u{1c}", "é ", " 日本語 "] {
        assert_eq!(trim(s), s.trim());
    }
    for code in 0u32..0x3100 {
        if let Some(c) = char::from_u32(code) {
            assert_eq!(is_whitespace_char(c), c.is_whitespace(), "{:x}", code);
        }
    }
}

#[test]
fn digits_are_ascii_digits() {
    assert!(is_digit_char('0'));
    assert!(is_digit_char('9'));
    assert!(!is_digit_char('a'));
    assert!(!is_digit_char('/'));
    assert!(!is_digit_char(':'));
    assert!(!is_digit_char('٣'));
}

#[test]
fn chars_of_keeps_every_character() {
    assert_eq!(chars_of("aé日"), vec!['a', 'é', '日']);
    assert_eq!(chars_of(""), Vec::<char>::new());
}

#[test]
fn listing_is_the_sole_directory() {
    let entries = vec![entry("__MACOSX.txt", false), entry("show", true), entry("notes", false)];
    assert_eq!(locate_listing(&entries), Some(1));
    let entries = vec![entry("Scripts", true)];
    assert_eq!(locate_listing(&entries), Some(0));
}

#[test]
fn listing_is_the_root() {
    assert_eq!(locate_listing(&vec![]), None);
    let entries = vec![entry("S1", true), entry("S2", true)];
    assert_eq!(locate_listing(&entries), None);
    let entries = vec![entry("S1", true)];
    assert_eq!(locate_listing(&entries), None);
    let entries = vec![entry("show", true), entry("S3", false)];
    assert_eq!(locate_listing(&entries), None);
    let entries = vec![entry("a", true), entry("b", true)];
    assert_eq!(locate_listing(&entries), None);
    let entries = vec![entry("a.txt", false)];
    assert_eq!(locate_listing(&entries), None);
    let entries = vec![entry("show", true), entry("S0", false)];
    assert_eq!(locate_listing(&entries), None);
}
