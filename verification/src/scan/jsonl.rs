//! Which lines of a JSONL input are documents: every line that holds more
//! than whitespace. A document's index is its line's index, counted from
//! zero over all lines, blank ones included.

use vstd::prelude::*;

use vstd::string::StrSliceExecFns;

verus! {

/// The characters with the Unicode `White_Space` property, which
/// `char::is_whitespace` and `str::trim` go by.
pub open spec fn is_unicode_whitespace(c: char) -> bool {
    ||| '\t' <= c <= '\r'
    ||| c == ' '
    ||| c == '\u{85}'
    ||| c == '\u{A0}'
    ||| c == '\u{1680}'
    ||| '\u{2000}' <= c <= '\u{200A}'
    ||| c == '\u{2028}'
    ||| c == '\u{2029}'
    ||| c == '\u{202F}'
    ||| c == '\u{205F}'
    ||| c == '\u{3000}'
}

/// A line is blank when every character in it is whitespace.
pub open spec fn blank_line(line: Seq<char>) -> bool {
    forall|i: int| 0 <= i < line.len() ==> is_unicode_whitespace(#[trigger] line[i])
}

fn is_whitespace_char(c: char) -> (whitespace: bool)
    ensures
        whitespace == is_unicode_whitespace(c),
{
    ('\t' <= c && c <= '\r') || c == ' ' || c == '\u{85}' || c == '\u{A0}' || c == '\u{1680}' || ('\u{2000}' <= c
        && c <= '\u{200A}') || c == '\u{2028}' || c == '\u{2029}' || c == '\u{202F}' || c == '\u{205F}' || c
        == '\u{3000}'
}

/// Whether a JSONL line is skipped: it holds only whitespace, or nothing.
pub fn line_is_blank(line: &str) -> (blank: bool)
    ensures
        blank == blank_line(line@),
{
    let count = line.unicode_len();
    let mut index: usize = 0;
    while index < count
        invariant
            count == line@.len(),
            index <= count,
            forall|i: int| 0 <= i < index ==> is_unicode_whitespace(#[trigger] line@[i]),
        decreases count - index,
    {
        let c = line.get_char(index);
        if !is_whitespace_char(c) {
            assert(!is_unicode_whitespace(line@[index as int]));
            return false;
        }
        index = index + 1;
    }
    true
}

} // verus!
