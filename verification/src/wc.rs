//! Stream counting: lines, words, bytes and characters of a text, from one
//! pass over its characters.

use vstd::prelude::*;

use vstd::string::StringSliceAdditionalSpecFns;

use crate::chars::chars_of;

verus! {

/// Whether `c` has the Unicode `White_Space` property, the separator that
/// word counting goes by.
pub open spec fn is_space(c: char) -> bool {
    let u = c as u32;
    u == 9 || u == 10 || u == 11 || u == 12 || u == 13 || u == 32 || u == 0x85 || u == 0xA0 || u
        == 0x1680 || (0x2000 <= u <= 0x200A) || u == 0x2028 || u == 0x2029 || u == 0x202F || u
        == 0x205F || u == 0x3000
}

/// Decides [`is_space`].
pub fn is_space_char(c: char) -> (r: bool)
    ensures
        r == is_space(c),
{
    let u = c as u32;
    u == 9 || u == 10 || u == 11 || u == 12 || u == 13 || u == 32 || u == 0x85 || u == 0xA0 || u
        == 0x1680 || (0x2000 <= u && u <= 0x200A) || u == 0x2028 || u == 0x2029 || u == 0x202F
        || u == 0x205F || u == 0x3000
}

/// The number of line terminators in `s`.
pub open spec fn newline_chars(s: Seq<char>) -> int
    decreases s.len(),
{
    if s.len() == 0 {
        0
    } else {
        newline_chars(s.drop_last()) + if s.last() == '\n' {
            1int
        } else {
            0int
        }
    }
}

proof fn lemma_newline_chars_bound(s: Seq<char>)
    ensures
        0 <= newline_chars(s) <= s.len(),
    decreases s.len(),
{
    if s.len() > 0 {
        lemma_newline_chars_bound(s.drop_last());
    }
}

/// The number of lines that a line-by-line reader yields: one for each
/// line terminator, plus one for a final unterminated fragment.
pub open spec fn spec_line_count(s: Seq<char>) -> int {
    newline_chars(s) + if s.len() > 0 && s.last() != '\n' {
        1int
    } else {
        0int
    }
}

/// Whether position `i` starts a word: a non-space character at the start
/// of the text or right after a space.
pub open spec fn starts_word(s: Seq<char>, i: int) -> bool {
    0 <= i < s.len() && !is_space(s[i]) && (i == 0 || is_space(s[i - 1]))
}

/// The number of whitespace-separated words in `s`: the number of
/// positions that start one.
pub open spec fn spec_word_count(s: Seq<char>) -> int
    decreases s.len(),
{
    if s.len() == 0 {
        0
    } else {
        spec_word_count(s.drop_last()) + if starts_word(s, s.len() - 1) {
            1int
        } else {
            0int
        }
    }
}

/// The per-source counts that the word-count utility reports.
#[derive(Debug, PartialEq, Eq, Structural)]
pub struct FileInfo {
    pub num_lines: usize,
    pub num_words: usize,
    pub num_bytes: usize,
    pub num_chars: usize,
}

impl FileInfo {
    /// Accumulates another source's counts into a running total.
    pub fn add(&mut self, rhs: &Self)
        requires
            old(self).num_lines + rhs.num_lines <= usize::MAX,
            old(self).num_words + rhs.num_words <= usize::MAX,
            old(self).num_bytes + rhs.num_bytes <= usize::MAX,
            old(self).num_chars + rhs.num_chars <= usize::MAX,
        ensures
            final(self).num_lines == old(self).num_lines + rhs.num_lines,
            final(self).num_words == old(self).num_words + rhs.num_words,
            final(self).num_bytes == old(self).num_bytes + rhs.num_bytes,
            final(self).num_chars == old(self).num_chars + rhs.num_chars,
    {
        self.num_lines += rhs.num_lines;
        self.num_words += rhs.num_words;
        self.num_bytes += rhs.num_bytes;
        self.num_chars += rhs.num_chars;
    }
}

/// Counts the lines, words, bytes and characters of a text in one pass.
/// Lines go by terminators, with a final unterminated fragment counting as
/// one more; words are maximal whitespace-separated runs; bytes are the
/// encoded length and characters the decoded one.
pub fn count(text: &str) -> (r: FileInfo)
    ensures
        r.num_lines == spec_line_count(text@),
        r.num_words == spec_word_count(text@),
        r.num_bytes == text.spec_bytes().len() as usize,
        r.num_chars == text@.len(),
{
    let v = chars_of(text);
    let num_bytes = text.len();
    let num_chars = v.len();
    let mut newlines: usize = 0;
    let mut num_words: usize = 0;
    let mut i: usize = 0;
    while i < v.len()
        invariant
            i <= v@.len(),
            v@ == text@,
            0 <= newlines <= i,
            0 <= num_words <= i,
            newlines == newline_chars(v@.subrange(0, i as int)),
            num_words == spec_word_count(v@.subrange(0, i as int)),
        decreases v@.len() - i,
    {
        proof {
            let prefix = v@.subrange(0, i as int);
            let next = v@.subrange(0, i + 1);
            assert(next.drop_last() =~= prefix);
            assert(next.last() == v@[i as int]);
        }
        if v[i] == '\n' {
            newlines = newlines + 1;
        }
        let starts = if i == 0 {
            !is_space_char(v[i])
        } else {
            !is_space_char(v[i]) && is_space_char(v[i - 1])
        };
        if starts {
            num_words = num_words + 1;
        }
        i = i + 1;
    }
    proof {
        assert(v@.subrange(0, v@.len() as int) =~= v@);
    }
    let num_lines = if v.len() > 0 && v[v.len() - 1] != '\n' {
        proof {
            lemma_newline_chars_bound(v@.drop_last());
            assert(newline_chars(v@) == newline_chars(v@.drop_last()));
        }
        newlines + 1
    } else {
        newlines
    };
    FileInfo { num_lines, num_words, num_bytes, num_chars }
}

} // verus!
