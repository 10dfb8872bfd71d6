//! Splitting one raw transcript line into a speaker label and the dialogue.

use crate::text::{
    chars_of, find_char, index_of_char, is_whitespace, lemma_index_of_char, lemma_trimmed, trim,
    trimmed,
};
use vstd::prelude::*;

verus! {

/// One transcript line, split: who speaks, if anyone, and what is said.
#[derive(Debug)]
pub struct SplitLine {
    pub speaker: Option<String>,
    pub content: String,
}

/// A split line, its texts as characters.
pub struct SplitLineView {
    pub speaker: Option<Seq<char>>,
    pub content: Seq<char>,
}

impl View for SplitLine {
    type V = SplitLineView;

    open spec fn view(&self) -> SplitLineView {
        SplitLineView {
            speaker: match self.speaker {
                Some(s) => Some(s@),
                None => None,
            },
            content: self.content@,
        }
    }
}

/// The split of `raw` at its first `:`. The text before it, trimmed, is the
/// speaker label, unless it is empty; the text after it, trimmed, is the
/// content. Without a `:` the whole line, trimmed, is content.
pub open spec fn split_of(raw: Seq<char>) -> SplitLineView {
    let p = index_of_char(raw, ':', 0);
    if p < raw.len() {
        let label = trimmed(raw.subrange(0, p));
        SplitLineView {
            speaker: if label.len() == 0 {
                None
            } else {
                Some(label)
            },
            content: trimmed(raw.subrange(p + 1, raw.len() as int)),
        }
    } else {
        SplitLineView { speaker: None, content: trimmed(raw) }
    }
}

/// Splits one raw line at its first `:`.
pub fn split_line(raw: &str) -> (r: SplitLine)
    ensures
        r@ == split_of(raw@),
{
    let v = chars_of(raw);
    let n = v.len();
    let p = find_char(&v, ':', 0);
    if p < n {
        let label = trim(raw.substring_char(0, p));
        let content = trim(raw.substring_char(p + 1, n));
        let speaker = if label.as_str().unicode_len() == 0 {
            None
        } else {
            Some(label)
        };
        SplitLine { speaker, content }
    } else {
        SplitLine { speaker: None, content: trim(raw) }
    }
}

/// A line without a `:` has no speaker, and all of it, trimmed, is content.
pub proof fn lemma_no_colon_no_speaker(raw: Seq<char>)
    requires
        forall|i: int| 0 <= i < raw.len() ==> raw[i] != ':',
    ensures
        split_of(raw).speaker is None,
        split_of(raw).content == trimmed(raw),
{
    lemma_index_of_char(raw, ':', 0);
}

/// A line that starts with `:` has no speaker.
pub proof fn lemma_leading_colon_no_speaker(raw: Seq<char>)
    requires
        raw.len() > 0,
        raw[0] == ':',
    ensures
        split_of(raw).speaker is None,
        split_of(raw).content == trimmed(raw.subrange(1, raw.len() as int)),
{
    assert(index_of_char(raw, ':', 0) == 0);
    let label = raw.subrange(0, 0);
    assert(label.len() == 0);
    assert(crate::text::leading(label, 0) == 0);
    assert(crate::text::trailing(label, 0, 0) == 0);
}

/// A speaker label is never empty, and neither starts nor ends with
/// whitespace.
pub proof fn lemma_label_is_trimmed(raw: Seq<char>)
    ensures
        split_of(raw).speaker matches Some(label) ==> label.len() > 0 && !is_whitespace(label[0])
            && !is_whitespace(label[label.len() - 1]),
{
    let p = index_of_char(raw, ':', 0);
    if p < raw.len() {
        lemma_trimmed(raw.subrange(0, p));
    }
}

} // verus!
