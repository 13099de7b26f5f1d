//! Line, word, character and byte counts of a text.

use vstd::prelude::*;
use crate::text::{chars_of, decimal, decimal_string};

verus! {

/// The counts of one input.
#[derive(Debug, Clone, Copy, PartialEq, Eq, Structural)]
pub struct FileInfo {
    pub num_bytes: usize,
    pub num_chars: usize,
    pub num_lines: usize,
    pub num_words: usize,
}

/// Which counts are shown.
pub struct FileParams {
    pub bytes: bool,
    pub chars: bool,
    pub lines: bool,
    pub words: bool,
}

impl FileParams {
    pub open spec fn spec_arg_count(&self) -> nat {
        (if self.bytes { 1nat } else { 0nat }) + (if self.chars { 1nat } else { 0nat }) + (if self.lines {
            1nat
        } else {
            0nat
        }) + (if self.words { 1nat } else { 0nat })
    }

    /// How many counts are shown.
    pub fn arg_count(&self) -> (r: usize)
        ensures
            r == self.spec_arg_count(),
    {
        let mut n: usize = 0;
        if self.bytes {
            n = n + 1;
        }
        if self.chars {
            n = n + 1;
        }
        if self.lines {
            n = n + 1;
        }
        if self.words {
            n = n + 1;
        }
        n
    }
}

pub open spec fn max_nat(a: nat, b: nat) -> nat {
    if a < b {
        b
    } else {
        a
    }
}

impl FileInfo {
    /// The largest of the counts that a column shows: the shown ones, or all
    /// four when more than one is shown.
    pub open spec fn widest(&self, p: FileParams) -> nat {
        let all = p.spec_arg_count() > 1;
        max_nat(
            max_nat(
                if p.bytes || all { self.num_bytes as nat } else { 0 },
                if p.chars || all { self.num_chars as nat } else { 0 },
            ),
            max_nat(
                if p.lines || all { self.num_lines as nat } else { 0 },
                if p.words || all { self.num_words as nat } else { 0 },
            ),
        )
    }

    /// All counts zero.
    pub fn void() -> (r: FileInfo)
        ensures
            r.num_bytes == 0 && r.num_chars == 0 && r.num_lines == 0 && r.num_words == 0,
    {
        FileInfo { num_bytes: 0, num_chars: 0, num_lines: 0, num_words: 0 }
    }

    /// Whether every count is zero.
    pub fn is_void(&self) -> (r: bool)
        ensures
            r == (self.num_bytes == 0 && self.num_chars == 0 && self.num_lines == 0
                && self.num_words == 0),
    {
        self.num_bytes == 0 && self.num_chars == 0 && self.num_lines == 0 && self.num_words == 0
    }

    /// Adds the counts of `rhs` to these.
    pub fn add_assign(&mut self, rhs: FileInfo)
        requires
            old(self).num_bytes + rhs.num_bytes <= usize::MAX,
            old(self).num_chars + rhs.num_chars <= usize::MAX,
            old(self).num_lines + rhs.num_lines <= usize::MAX,
            old(self).num_words + rhs.num_words <= usize::MAX,
        ensures
            final(self).num_bytes == old(self).num_bytes + rhs.num_bytes,
            final(self).num_chars == old(self).num_chars + rhs.num_chars,
            final(self).num_lines == old(self).num_lines + rhs.num_lines,
            final(self).num_words == old(self).num_words + rhs.num_words,
    {
        self.num_bytes = self.num_bytes + rhs.num_bytes;
        self.num_chars = self.num_chars + rhs.num_chars;
        self.num_lines = self.num_lines + rhs.num_lines;
        self.num_words = self.num_words + rhs.num_words;
    }

    /// The column width: the number of digits of the widest count.
    pub fn max_digits(&self, params: &FileParams) -> (r: usize)
        ensures
            r == decimal(self.widest(*params)).len(),
    {
        let all = params.arg_count() > 1;
        let b = if params.bytes || all { self.num_bytes } else { 0 };
        let c = if params.chars || all { self.num_chars } else { 0 };
        let l = if params.lines || all { self.num_lines } else { 0 };
        let w = if params.words || all { self.num_words } else { 0 };
        let m1 = if b < c { c } else { b };
        let m2 = if l < w { w } else { l };
        let m = if m1 < m2 { m2 } else { m1 };
        decimal_string(m as u64).unicode_len()
    }
}

/// Unicode white space, as `char::is_whitespace` defines it.
pub open spec fn is_space(c: char) -> bool {
    ('\t' <= c && c <= '\r') || c == ' ' || c == '\u{85}' || c == '\u{A0}' || c == '\u{1680}' || (
    '\u{2000}' <= c && c <= '\u{200A}') || c == '\u{2028}' || c == '\u{2029}' || c == '\u{202F}'
        || c == '\u{205F}' || c == '\u{3000}'
}

/// The number of bytes of the UTF-8 encoding of `c`.
pub open spec fn utf8_len(c: char) -> nat {
    if (c as u32) < 0x80 {
        1
    } else if (c as u32) < 0x800 {
        2
    } else if (c as u32) < 0x10000 {
        3
    } else {
        4
    }
}

/// The number of bytes of the UTF-8 encoding of `s`.
pub open spec fn utf8_total(s: Seq<char>) -> nat
    decreases s.len(),
{
    if s.len() == 0 {
        0
    } else {
        utf8_total(s.drop_last()) + utf8_len(s.last())
    }
}

pub open spec fn newlines(s: Seq<char>) -> nat
    decreases s.len(),
{
    if s.len() == 0 {
        0
    } else {
        newlines(s.drop_last()) + if s.last() == '\n' {
            1nat
        } else {
            0nat
        }
    }
}

/// Lines: each newline ends one, and text after the last newline is one more.
pub open spec fn line_count(s: Seq<char>) -> nat {
    newlines(s) + if s.len() > 0 && s.last() != '\n' {
        1nat
    } else {
        0nat
    }
}

/// Words: maximal runs of characters that are not white space.
pub open spec fn word_count(s: Seq<char>) -> nat
    decreases s.len(),
{
    if s.len() == 0 {
        0
    } else {
        word_count(s.drop_last()) + if !is_space(s.last()) && (s.len() == 1 || is_space(
            s[s.len() - 2],
        )) {
            1nat
        } else {
            0nat
        }
    }
}

/// Relies on `str::len`: the length in bytes of the UTF-8 encoding of `s`.
#[verifier::external_body]
fn byte_len(s: &str) -> (r: usize)
    ensures
        r == utf8_total(s@),
{
    s.len()
}

/// Whether `c` is Unicode white space.
pub fn is_space_char(c: char) -> (r: bool)
    ensures
        r == is_space(c),
{
    ('\t' <= c && c <= '\r') || c == ' ' || c == '\u{85}' || c == '\u{A0}' || c == '\u{1680}' || (
    '\u{2000}' <= c && c <= '\u{200A}') || c == '\u{2028}' || c == '\u{2029}' || c == '\u{202F}'
        || c == '\u{205F}' || c == '\u{3000}'
}

/// The byte, character, line and word counts of `text`.
pub fn count(text: &str) -> (r: FileInfo)
    ensures
        r.num_bytes == utf8_total(text@),
        r.num_chars == text@.len(),
        r.num_lines == line_count(text@),
        r.num_words == word_count(text@),
{
    let chars = chars_of(text);
    let ghost s = text@;
    let mut lines: usize = 0;
    let mut words: usize = 0;
    let mut i: usize = 0;
    assert(s.subrange(0, 0) =~= Seq::<char>::empty());
    while i < chars.len()
        invariant
            chars@ == s,
            i <= s.len(),
            lines == newlines(s.subrange(0, i as int)),
            words == word_count(s.subrange(0, i as int)),
            lines <= i,
            words <= i,
            i > 0 && s[i - 1] != '\n' ==> lines < i,
        decreases s.len() - i,
    {
        let c = chars[i];
        let ghost pre = s.subrange(0, i as int);
        let ghost next = s.subrange(0, i + 1);
        assert(next.drop_last() =~= pre);
        assert(next.last() == c);
        if i > 0 {
            assert(next[next.len() - 2] == chars@[i - 1]);
        }
        if c == '\n' {
            lines = lines + 1;
        }
        if !is_space_char(c) && (i == 0 || is_space_char(chars[i - 1])) {
            words = words + 1;
        }
        i = i + 1;
    }
    assert(s.subrange(0, s.len() as int) =~= s);
    let n = chars.len();
    if n > 0 && chars[n - 1] != '\n' {
        lines = lines + 1;
    }
    FileInfo { num_bytes: byte_len(text), num_chars: n, num_lines: lines, num_words: words }
}

} // verus!
