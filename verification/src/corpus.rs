//! A corpus as it was read from the file system: the entries of the
//! directory that lists the seasons, the entries of each season directory,
//! and the lines of each episode file.

use vstd::prelude::*;

verus! {

/// An entry of a season directory. `lines` is `None` where the file could
/// not be read.
#[derive(Debug)]
pub struct EpisodeFile {
    pub name: String,
    pub lines: Option<Vec<String>>,
}

/// An episode file, its name and lines as characters.
pub struct EpisodeFileView {
    pub name: Seq<char>,
    pub lines: Option<Seq<Seq<char>>>,
}

/// The strings, each as its characters.
pub open spec fn texts(lines: Seq<String>) -> Seq<Seq<char>> {
    lines.map_values(|l: String| l@)
}

impl View for EpisodeFile {
    type V = EpisodeFileView;

    open spec fn view(&self) -> EpisodeFileView {
        EpisodeFileView {
            name: self.name@,
            lines: match self.lines {
                Some(lines) => Some(texts(lines@)),
                None => None,
            },
        }
    }
}

/// The files, each by its view.
pub open spec fn file_views(files: Seq<EpisodeFile>) -> Seq<EpisodeFileView> {
    files.map_values(|f: EpisodeFile| f@)
}

/// An entry of the directory that lists the seasons. `entries` is `None`
/// where the entry could not be listed as a directory.
#[derive(Debug)]
pub struct SeasonDir {
    pub name: String,
    pub entries: Option<Vec<EpisodeFile>>,
}

/// An entry of the season listing, by the views of its parts.
pub struct SeasonDirView {
    pub name: Seq<char>,
    pub entries: Option<Seq<EpisodeFileView>>,
}

impl View for SeasonDir {
    type V = SeasonDirView;

    open spec fn view(&self) -> SeasonDirView {
        SeasonDirView {
            name: self.name@,
            entries: match self.entries {
                Some(files) => Some(file_views(files@)),
                None => None,
            },
        }
    }
}

/// The entries, each by its view.
pub open spec fn dir_views(dirs: Seq<SeasonDir>) -> Seq<SeasonDirView> {
    dirs.map_values(|d: SeasonDir| d@)
}

/// The directory that lists the seasons, entry by entry, in the order in
/// which the file system gave them.
#[derive(Debug)]
pub struct Corpus {
    pub listing: Vec<SeasonDir>,
}

/// A corpus, by the views of its entries.
pub struct CorpusView {
    pub listing: Seq<SeasonDirView>,
}

impl View for Corpus {
    type V = CorpusView;

    open spec fn view(&self) -> CorpusView {
        CorpusView { listing: dir_views(self.listing@) }
    }
}

} // verus!
