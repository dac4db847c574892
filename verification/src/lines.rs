//! The lines of a decklist: the text cut at its line feeds, each line
//! trimmed, blank lines left out.

use crate::text::{
    chars_of, is_trimmed, lemma_run_len_bounds, lemma_trimmed_bounds, run_end, run_len,
    trim_bounds, trimmed, CharClass,
};
use vstd::prelude::*;
use vstd::string::StrSliceExecFns;

verus! {

/// The lines of `text` that hold anything but white space, each without
/// the white space at its two ends, in the order of the text.
pub open spec fn entry_lines(text: Seq<char>) -> Seq<Seq<char>>
    decreases text.len(),
{
    let first_len = run_len(text, CharClass::SameLine) as int;
    let line = trimmed(text.take(first_len));
    let rest = if first_len < text.len() {
        entry_lines(text.skip(first_len + 1))
    } else {
        Seq::empty()
    };
    if line.len() > 0 {
        seq![line] + rest
    } else {
        rest
    }
}

/// Each of the lines of a text holds something, has white space at neither
/// end, and holds no line feed.
pub proof fn lemma_entry_lines_are_trimmed(text: Seq<char>)
    ensures
        forall|i: int|
            0 <= i < entry_lines(text).len() ==> {
                let line = #[trigger] entry_lines(text)[i];
                &&& line.len() > 0
                &&& is_trimmed(line)
                &&& forall|k: int| 0 <= k < line.len() ==> line[k] != '\n'
            },
    decreases text.len(),
{
    let first_len = run_len(text, CharClass::SameLine) as int;
    lemma_run_len_bounds(text, CharClass::SameLine);
    let first = text.take(first_len);
    let line = trimmed(first);
    let bounds = lemma_trimmed_bounds(first);
    assert forall|k: int| 0 <= k < line.len() implies line[k] != '\n' by {
        assert(line[k] == text[bounds.0 + k]);
    }
    let rest = if first_len < text.len() {
        entry_lines(text.skip(first_len + 1))
    } else {
        Seq::empty()
    };
    if first_len < text.len() {
        lemma_entry_lines_are_trimmed(text.skip(first_len + 1));
    }
    assert forall|i: int| 0 <= i < entry_lines(text).len() implies {
        let found = #[trigger] entry_lines(text)[i];
        &&& found.len() > 0
        &&& is_trimmed(found)
        &&& forall|k: int| 0 <= k < found.len() ==> found[k] != '\n'
    } by {
        if line.len() > 0 && i > 0 {
            assert(entry_lines(text)[i] == rest[i - 1]);
        }
    }
}

/// Cuts `text` into its lines, trims each, and leaves the blank ones out.
pub fn split_lines(text: &str) -> (lines: Vec<String>)
    ensures
        lines.deep_view() == entry_lines(text@),
{
    let chars = chars_of(text);
    let len: usize = chars.len();
    let mut lines: Vec<String> = Vec::new();
    let mut at: usize = 0;
    proof {
        assert(text@.skip(0) == text@);
        assert(lines.deep_view() + entry_lines(text@) == entry_lines(text@));
    }
    while at < len
        invariant
            at <= len,
            len == chars.len(),
            chars@ == text@,
            entry_lines(text@) == lines.deep_view() + entry_lines(text@.skip(at as int)),
        decreases len - at,
    {
        let end: usize = run_end(&chars, at, len, CharClass::SameLine);
        let (start, stop) = trim_bounds(&chars, at, end);
        let ghost tail = text@.skip(at as int);
        let ghost first = trimmed(tail.take(end - at));
        let ghost before = lines.deep_view();
        proof {
            assert(tail == chars@.subrange(at as int, len as int));
            assert(tail.take(end - at) == chars@.subrange(at as int, end as int));
            if end < len {
                assert(tail.skip(end - at + 1) == text@.skip(end + 1));
            }
        }
        if start < stop {
            let line = text.substring_char(start, stop).to_owned();
            lines.push(line);
            proof {
                assert(lines.deep_view() == before + seq![first]);
            }
        }
        if end < len {
            at = end + 1;
        } else {
            at = len;
        }
        proof {
            let rest = entry_lines(text@.skip(at as int));
            assert(before + (seq![first] + rest) == before + seq![first] + rest);
        }
    }
    proof {
        assert(text@.skip(len as int).len() == 0);
        assert(lines.deep_view() + Seq::<Seq<char>>::empty() == lines.deep_view());
    }
    lines
}

} // verus!
