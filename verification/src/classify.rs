//! Reading season and episode numbers and episode titles from directory and
//! file names, and choosing the directory that lists the seasons.

use crate::text::{
    all_digits, chars_of, digits_end, find_digits_end, find_sub, index_of_sub, parse_digits,
    parsed_number,
};
use vstd::prelude::*;

verus! {

/// What a name in the season listing stands for.
#[derive(Debug, Clone, Copy, PartialEq, Eq)]
pub enum SeasonEntry {
    /// Not of the form `S` followed by digits: passed over in silence.
    Other,
    /// `S` followed by digits that spell no season number: skipped, with a
    /// warning.
    Unparsable,
    /// Season of this number, which is positive.
    Numbered(i32),
}

/// `S` followed by one or more decimal digits and nothing else.
pub open spec fn has_season_shape(name: Seq<char>) -> bool {
    &&& name.len() >= 2
    &&& name[0] == 'S'
    &&& all_digits(name, 1, name.len() as int)
}

/// What a name in the season listing stands for: a season of a positive
/// number that fits an `i32`, a name of the season shape whose digits spell
/// no such number, or something else.
pub open spec fn season_entry(name: Seq<char>) -> SeasonEntry {
    if !has_season_shape(name) {
        SeasonEntry::Other
    } else {
        match parsed_number(name, 1, name.len() as int) {
            Some(n) => if n >= 1 {
                SeasonEntry::Numbered(n)
            } else {
                SeasonEntry::Unparsable
            },
            None => SeasonEntry::Unparsable,
        }
    }
}

/// The season number that `name` carries, if it carries one.
pub open spec fn season_number_of(name: Seq<char>) -> Option<i32> {
    match season_entry(name) {
        SeasonEntry::Numbered(n) => Some(n),
        _ => None,
    }
}

/// Classifies one name of the season listing.
pub fn classify_season(name: &str) -> (r: SeasonEntry)
    ensures
        r == season_entry(name@),
        r matches SeasonEntry::Numbered(n) ==> n >= 1,
{
    let v = chars_of(name);
    let n = v.len();
    if n < 2 || v[0] != 'S' {
        return SeasonEntry::Other;
    }
    let end = find_digits_end(&v, 1);
    if end < n {
        return SeasonEntry::Other;
    }
    match parse_digits(&v, 1, n) {
        Some(number) => if number >= 1 {
            SeasonEntry::Numbered(number)
        } else {
            SeasonEntry::Unparsable
        },
        None => SeasonEntry::Unparsable,
    }
}

/// The season number of `name`, where it has one.
pub fn season_number(name: &str) -> (r: Option<i32>)
    ensures
        r == season_number_of(name@),
{
    match classify_season(name) {
        SeasonEntry::Numbered(n) => Some(n),
        _ => None,
    }
}

/// A name that starts with the episode marker `E`.
pub open spec fn is_episode_entry(name: Seq<char>) -> bool {
    name.len() >= 1 && name[0] == 'E'
}

/// The number spelt by the digits that follow the marker, up to the first
/// character that is no digit.
pub open spec fn episode_number_of(name: Seq<char>) -> Option<i32> {
    if is_episode_entry(name) {
        parsed_number(name, 1, digits_end(name, 1))
    } else {
        None
    }
}

/// What parts the episode number and the title in a file name: ` - `.
pub open spec fn title_separator() -> Seq<char> {
    seq![' ', '-', ' ']
}

/// The extension of an episode file: `.txt`.
pub open spec fn text_extension() -> Seq<char> {
    seq!['.', 't', 'x', 't']
}

/// The name ends with `.txt`.
pub open spec fn has_text_extension(name: Seq<char>) -> bool {
    name.len() >= 4 && name.subrange(name.len() - 4, name.len() as int) == text_extension()
}

/// The title that `name` carries: in the name without its `.txt` extension,
/// what stands between the first separator ` - ` and the next one, or the
/// end. Empty without the extension or without a separator.
pub open spec fn episode_title_of(name: Seq<char>) -> Seq<char> {
    if has_text_extension(name) {
        let stem = name.subrange(0, name.len() - 4);
        let p = index_of_sub(stem, title_separator(), 0);
        if p < stem.len() {
            stem.subrange(p + 3, index_of_sub(stem, title_separator(), p + 3))
        } else {
            Seq::empty()
        }
    } else {
        Seq::empty()
    }
}

/// Whether the name starts with the episode marker `E`.
pub fn is_episode_name(name: &str) -> (b: bool)
    ensures
        b == is_episode_entry(name@),
{
    let n = name.unicode_len();
    n >= 1 && name.get_char(0) == 'E'
}

/// The episode number of a file name; `None` where the name does not start
/// with `E` and digits that fit an `i32`.
pub fn episode_number(name: &str) -> (r: Option<i32>)
    ensures
        r == episode_number_of(name@),
{
    let v = chars_of(name);
    if v.len() < 1 || v[0] != 'E' {
        return None;
    }
    let end = find_digits_end(&v, 1);
    parse_digits(&v, 1, end)
}

/// The title that a file name carries; empty where it carries none.
pub fn episode_title(name: &str) -> (r: String)
    ensures
        r@ == episode_title_of(name@),
{
    let v = chars_of(name);
    let n = v.len();
    if n < 4 || v[n - 4] != '.' || v[n - 3] != 't' || v[n - 2] != 'x' || v[n - 1] != 't' {
        proof {
            if n >= 4 {
                let tail = name@.subrange(n - 4, n as int);
                assert(tail[0] == v@[n - 4] && tail[1] == v@[n - 3] && tail[2] == v@[n - 2]
                    && tail[3] == v@[n - 1]);
            }
        }
        return String::new();
    }
    assert(name@.subrange(n - 4, n as int) =~= text_extension());
    let stem_text = name.substring_char(0, n - 4);
    let stem = chars_of(stem_text);
    let separator: Vec<char> = vec![' ', '-', ' '];
    assert(separator@ =~= title_separator());
    let p = find_sub(&stem, &separator, 0);
    if p < stem.len() {
        let q = find_sub(&stem, &separator, p + 3);
        stem_text.substring_char(p + 3, q).to_owned()
    } else {
        String::new()
    }
}

/// One entry of the corpus root: its name, and whether it is a directory.
#[derive(Debug)]
pub struct DirEntry {
    pub name: String,
    pub is_dir: bool,
}

/// A directory entry, its name as characters.
pub struct DirEntryView {
    pub name: Seq<char>,
    pub is_dir: bool,
}

impl View for DirEntry {
    type V = DirEntryView;

    open spec fn view(&self) -> DirEntryView {
        DirEntryView { name: self.name@, is_dir: self.is_dir }
    }
}

/// The entries, each by its view.
pub open spec fn entry_views(entries: Seq<DirEntry>) -> Seq<DirEntryView> {
    entries.map_values(|e: DirEntry| e@)
}

/// Entry `i` is a directory, and the only one.
pub open spec fn is_sole_directory(entries: Seq<DirEntryView>, i: int) -> bool {
    &&& 0 <= i < entries.len()
    &&& entries[i].is_dir
    &&& forall|j: int| 0 <= j < entries.len() && j != i ==> !(#[trigger] entries[j]).is_dir
}

/// No entry has the shape of a season name.
pub open spec fn no_season_entries(entries: Seq<DirEntryView>) -> bool {
    forall|j: int| 0 <= j < entries.len() ==> !has_season_shape((#[trigger] entries[j]).name)
}

/// Where the seasons are listed. `Some(i)`: in the directory that is entry
/// `i` of the root, which is its only directory, while no entry of the root
/// has the shape of a season name. `None`: in the root itself.
pub fn locate_listing(entries: &Vec<DirEntry>) -> (r: Option<usize>)
    ensures
        match r {
            Some(i) => is_sole_directory(entry_views(entries@), i as int) && no_season_entries(
                entry_views(entries@),
            ),
            None => !no_season_entries(entry_views(entries@)) || forall|i: int|
                !is_sole_directory(entry_views(entries@), i),
        },
{
    let ghost views = entry_views(entries@);
    let n = entries.len();
    let mut found: Option<usize> = None;
    let mut many: bool = false;
    let mut k: usize = 0;
    while k < n
        invariant
            k <= n,
            n == entries@.len(),
            views == entry_views(entries@),
            forall|j: int| 0 <= j < k ==> !has_season_shape((#[trigger] views[j]).name),
            many ==> exists|a: int, b: int|
                0 <= a < b < k && (#[trigger] views[a]).is_dir && (#[trigger] views[b]).is_dir,
            !many ==> match found {
                Some(i) => i < k && views[i as int].is_dir && forall|j: int|
                    0 <= j < k && j != i ==> !(#[trigger] views[j]).is_dir,
                None => forall|j: int| 0 <= j < k ==> !(#[trigger] views[j]).is_dir,
            },
        decreases n - k,
    {
        let entry = &entries[k];
        assert(views[k as int] == entry@);
        match classify_season(entry.name.as_str()) {
            SeasonEntry::Other => {},
            _ => {
                return None;
            },
        }
        if entry.is_dir {
            if found.is_some() {
                many = true;
            } else {
                found = Some(k);
            }
        }
        k += 1;
    }
    if many {
        None
    } else {
        found
    }
}

} // verus!
