//! The counting engine: the four counts of a buffer.

use vstd::prelude::*;
use rayon::prelude::ParallelString;
use rayon::prelude::ParallelIterator;
use crate::text::{
    blank, byte_count, char_count, is_whitespace, lemma_bytes_cover_chars,
    lemma_char_count_bounded, lemma_encoding_covers_chars, lemma_no_chars_iff_blank,
    lemma_no_lines_iff_empty, lemma_no_words_iff_blank, line_count, word_count,
};

verus! {

/// `ParallelString::par_split_whitespace` of rayon, then `count`: splits at
/// every character of which std's `char::is_whitespace` holds, in parallel,
/// drops the empty pieces and counts the rest. Assumed: `char::is_whitespace`
/// holds of the characters with the property `White_Space`, and the number of
/// pieces is the number of maximal runs of characters without it.
#[verifier::external_body]
fn par_split_whitespace_count(content: &str) -> (n: usize)
    ensures
        n == word_count(content@),
{
    content.par_split_whitespace().count()
}

/// `ParallelString::par_lines` of rayon, then `count`: splits at every line
/// feed, in parallel, and drops the piece after the last line feed where it
/// is empty. Assumed: the number of pieces is one for each line feed and one
/// more for a non-empty rest.
#[verifier::external_body]
fn par_lines_count(content: &str) -> (n: usize)
    ensures
        n == line_count(content@),
{
    content.par_lines().count()
}

/// `ParallelString::par_bytes` of rayon, then `count`: hands out the bytes of
/// the string's UTF-8 form, in parallel. Assumed: there are as many of them
/// as the encoding has bytes.
#[verifier::external_body]
fn par_bytes_count(content: &str) -> (n: usize)
    ensures
        n == byte_count(content@),
{
    content.par_bytes().count()
}

/// Counts the words of `content`: the maximal runs of characters that are no
/// whitespace.
pub fn count_words(content: &str) -> (n: usize)
    ensures
        n == word_count(content@),
        n == 0 <==> blank(content@),
{
    proof {
        lemma_no_words_iff_blank(content@);
    }
    par_split_whitespace_count(content)
}

/// Counts the lines of `content`. The last line need not end in a line feed.
pub fn count_lines(content: &str) -> (n: usize)
    ensures
        n == line_count(content@),
        n == 0 <==> content@.len() == 0,
{
    proof {
        lemma_no_lines_iff_empty(content@);
    }
    par_lines_count(content)
}

/// Counts the bytes of `content` in UTF-8.
pub fn count_bytes(content: &str) -> (n: usize)
    ensures
        n == byte_count(content@),
        n >= content@.len() >= char_count(content@),
{
    proof {
        lemma_encoding_covers_chars(content@);
        lemma_char_count_bounded(content@);
    }
    par_bytes_count(content)
}

/// Counts the characters of `content` that are no whitespace: the
/// characters of its words.
pub fn count_chars(content: &str) -> (n: usize)
    ensures
        n == char_count(content@),
        n == 0 <==> blank(content@),
        n <= byte_count(content@),
{
    let limit: usize = content.as_bytes().len();
    proof {
        lemma_encoding_covers_chars(content@);
        lemma_bytes_cover_chars(content@);
        lemma_no_chars_iff_blank(content@);
    }
    let mut count: usize = 0;
    for c in it: content.chars()
        invariant
            it.seq() == content@,
            count == char_count(it.seq().take(it.index() as int)),
            content@.len() <= limit,
    {
        proof {
            let prefix = it.seq().take(it.index() as int + 1);
            assert(prefix.drop_last() == it.seq().take(it.index() as int));
            lemma_char_count_bounded(prefix);
        }
        if !is_whitespace(c) {
            count = count + 1;
        }
    }
    assert(content@.take(content@.len() as int) == content@);
    count
}

} // verus!
