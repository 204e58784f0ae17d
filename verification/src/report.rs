//! The result of an invocation as the line of text that reports it.

use vstd::prelude::*;
use crate::engine::{count_bytes, count_chars, count_lines, count_words};
use crate::integer::{decimal, signed_decimal, Integer};
use crate::mode::Mode;
use crate::sum::{sum, sum_of};
use crate::text::{
    byte_count, char_count, lemma_bytes_cover_chars, lemma_words_bounded_by_chars, line_count,
    word_count,
};

verus! {

/// The four counts of one buffer.
#[derive(Clone, Copy, Debug, PartialEq, Eq, Structural)]
pub struct Counts {
    pub lines: usize,
    pub words: usize,
    pub chars: usize,
    pub bytes: usize,
}

impl Counts {
    /// Whether these are the counts of `text`.
    pub open spec fn describes(self, text: Seq<char>) -> bool {
        &&& self.lines == line_count(text)
        &&& self.words == word_count(text)
        &&& self.chars == char_count(text)
        &&& self.bytes == byte_count(text)
    }

    /// The line that reports these counts.
    pub open spec fn text(self, path: Option<Seq<char>>) -> Seq<char> {
        full_report(self.lines as nat, self.words as nat, self.chars as nat, self.bytes as nat, path)
    }
}

/// Four counts in the order of the report, with one space between them.
pub open spec fn counts_text(lines: nat, words: nat, chars: nat, bytes: nat) -> Seq<char> {
    decimal(lines) + seq![' '] + decimal(words) + seq![' '] + decimal(chars) + seq![' '] + decimal(
        bytes,
    )
}

/// The line that reports lines, words, characters and bytes, in this order,
/// and after them, set off by a space, the path where there is one.
pub open spec fn full_report(
    lines: nat,
    words: nat,
    chars: nat,
    bytes: nat,
    path: Option<Seq<char>>,
) -> Seq<char> {
    match path {
        Some(p) => counts_text(lines, words, chars, bytes) + seq![' '] + p,
        None => counts_text(lines, words, chars, bytes),
    }
}

/// The line that an invocation in `mode` reports of `text`.
pub open spec fn report_text(mode: Mode, text: Seq<char>, path: Option<Seq<char>>) -> Seq<char> {
    match mode {
        Mode::Words => decimal(word_count(text)),
        Mode::Lines => decimal(line_count(text)),
        Mode::Chars => decimal(char_count(text)),
        Mode::Bytes => decimal(byte_count(text)),
        Mode::Sum => signed_decimal(sum_of(text)),
        Mode::All => full_report(
            line_count(text),
            word_count(text),
            char_count(text),
            byte_count(text),
            path,
        ),
    }
}

/// The view of an optional path.
pub open spec fn path_view(path: Option<&str>) -> Option<Seq<char>> {
    match path {
        Some(p) => Some(p@),
        None => None,
    }
}

/// Computes the four counts of `content`.
pub fn count_all(content: &str) -> (counts: Counts)
    ensures
        counts.describes(content@),
        counts.lines == 0 <==> content@.len() == 0,
        counts.words <= counts.chars <= counts.bytes,
{
    proof {
        lemma_words_bounded_by_chars(content@);
        lemma_bytes_cover_chars(content@);
    }
    Counts {
        lines: count_lines(content),
        words: count_words(content),
        chars: count_chars(content),
        bytes: count_bytes(content),
    }
}

fn write_count(out: &mut String, n: usize)
    ensures
        final(out)@ == old(out)@ + decimal(n as nat),
{
    Integer::from_usize(n).write_to(out);
}

/// Formats the four counts as one line: lines, words, characters, bytes,
/// then the path if there is one, each set off by one space.
pub fn format_counts(counts: Counts, path: Option<&str>) -> (line: String)
    ensures
        line@ == counts.text(path_view(path)),
{
    let mut out: String = String::new();
    write_count(&mut out, counts.lines);
    out.push(' ');
    write_count(&mut out, counts.words);
    out.push(' ');
    write_count(&mut out, counts.chars);
    out.push(' ');
    write_count(&mut out, counts.bytes);
    let ghost numbers = counts_text(
        counts.lines as nat,
        counts.words as nat,
        counts.chars as nat,
        counts.bytes as nat,
    );
    assert(out@ == numbers);
    if let Some(p) = path {
        out.push(' ');
        let ghost base = out@;
        for c in it: p.chars()
            invariant
                it.seq() == p@,
                out@ == base + p@.take(it.index() as int),
        {
            out.push(c);
            assert(p@.take(it.index() + 1) == p@.take(it.index() as int).push(c));
        }
        assert(p@.take(p@.len() as int) == p@);
        assert(out@ == numbers + seq![' '] + p@);
    }
    out
}

/// Makes the line that an invocation in `mode` reports of `content`: the
/// one number that a single mode asks for, or the full report.
pub fn report(mode: Mode, content: &str, path: Option<&str>) -> (line: String)
    ensures
        line@ == report_text(mode, content@, path_view(path)),
{
    match mode {
        Mode::Words => Integer::from_usize(count_words(content)).to_string(),
        Mode::Lines => Integer::from_usize(count_lines(content)).to_string(),
        Mode::Chars => Integer::from_usize(count_chars(content)).to_string(),
        Mode::Bytes => Integer::from_usize(count_bytes(content)).to_string(),
        Mode::Sum => sum(content).to_string(),
        Mode::All => format_counts(count_all(content), path),
    }
}

/// The counts depend on the text alone: two results for one buffer are equal.
pub proof fn lemma_counts_determined(text: Seq<char>, first: Counts, second: Counts)
    requires
        first.describes(text),
        second.describes(text),
    ensures
        first == second,
{
}

} // verus!
