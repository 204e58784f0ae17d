//! The sum of the integers that stand in a text as words.

use vstd::prelude::*;
use crate::integer::{is_digit, token_value, Integer};
use crate::text::{blank, is_whitespace, whitespace, word_start};

verus! {

/// Where the run of characters that are no whitespace ends, seen from `i`:
/// `i` itself where no such character stands there.
pub open spec fn run_end(text: Seq<char>, i: int) -> int
    decreases text.len() - i,
{
    if 0 <= i < text.len() && !whitespace(text[i]) {
        run_end(text, i + 1)
    } else {
        i
    }
}

/// The word that begins at `i`.
pub open spec fn word_at(text: Seq<char>, i: int) -> Seq<char> {
    text.subrange(i, run_end(text, i))
}

/// What a word adds to the sum: its number where it writes an integer,
/// nothing otherwise.
pub open spec fn worth(word: Seq<char>) -> int {
    match token_value(word) {
        Some(v) => v,
        None => 0,
    }
}

/// The sum over the words that begin among the first `n` positions.
pub open spec fn sum_upto(text: Seq<char>, n: int) -> int
    decreases n,
{
    if n <= 0 {
        0
    } else {
        sum_upto(text, n - 1) + if word_start(text, n - 1) {
            worth(word_at(text, n - 1))
        } else {
            0
        }
    }
}

/// The sum of all words of `text` that write an integer.
pub open spec fn sum_of(text: Seq<char>) -> int {
    sum_upto(text, text.len() as int)
}

/// A run without whitespace that is followed by whitespace or by the end of
/// the text ends there.
proof fn lemma_run_end(text: Seq<char>, s: int, e: int)
    requires
        0 <= s <= e <= text.len(),
        forall|j: int| s <= j < e ==> !whitespace(text[j]),
        e == text.len() || whitespace(text[e]),
    ensures
        run_end(text, s) == e,
    decreases e - s,
{
    if s < e {
        lemma_run_end(text, s + 1, e);
    }
}

/// Positions inside a word, and whitespace, add nothing.
proof fn lemma_no_starts(text: Seq<char>, from: int, to: int)
    requires
        0 <= from <= to,
        forall|j: int| from <= j < to ==> !word_start(text, j),
    ensures
        sum_upto(text, to) == sum_upto(text, from),
    decreases to - from,
{
    if from < to {
        lemma_no_starts(text, from, to - 1);
    }
}

/// The sum once the word from `s` to `e` is closed.
proof fn lemma_close_word(text: Seq<char>, s: int, e: int)
    requires
        0 <= s < e <= text.len(),
        forall|j: int| s <= j < e ==> !whitespace(text[j]),
        s == 0 || whitespace(text[s - 1]),
        e == text.len() || whitespace(text[e]),
    ensures
        sum_upto(text, e) == sum_upto(text, s) + worth(text.subrange(s, e)),
{
    lemma_run_end(text, s, e);
    assert(word_start(text, s));
    lemma_no_starts(text, s + 1, e);
}

/// A run ends inside the text, at or after the place it is seen from.
proof fn lemma_run_end_bounds(text: Seq<char>, i: int)
    requires
        0 <= i <= text.len(),
    ensures
        i <= run_end(text, i) <= text.len(),
    decreases text.len() - i,
{
    if i < text.len() && !whitespace(text[i]) {
        lemma_run_end_bounds(text, i + 1);
    }
}

proof fn lemma_word_at_left(a: Seq<char>, b: Seq<char>, i: int)
    requires
        0 <= i < a.len(),
        whitespace(a.last()) || b.len() == 0 || whitespace(b[0]),
    ensures
        run_end(a + b, i) == run_end(a, i),
        word_at(a + b, i) == word_at(a, i),
    decreases a.len() - i,
{
    assert((a + b)[i] == a[i]);
    if !whitespace(a[i]) {
        if i + 1 < a.len() {
            lemma_word_at_left(a, b, i + 1);
        } else if b.len() > 0 {
            assert((a + b)[a.len() as int] == b[0]);
        }
    }
    lemma_run_end_bounds(a, i);
    assert((a + b).subrange(i, run_end(a, i)) == a.subrange(i, run_end(a, i)));
}

proof fn lemma_word_at_right(a: Seq<char>, b: Seq<char>, j: int)
    requires
        0 <= j <= b.len(),
    ensures
        run_end(a + b, a.len() + j) == a.len() + run_end(b, j),
        word_at(a + b, a.len() + j) == word_at(b, j),
    decreases b.len() - j,
{
    if j < b.len() {
        assert((a + b)[a.len() + j] == b[j]);
        if !whitespace(b[j]) {
            lemma_word_at_right(a, b, j + 1);
        }
    }
    lemma_run_end_bounds(b, j);
    assert((a + b).subrange(a.len() + j, a.len() + run_end(b, j)) == b.subrange(
        j,
        run_end(b, j),
    ));
}

proof fn lemma_sum_left(a: Seq<char>, b: Seq<char>, n: int)
    requires
        0 <= n <= a.len(),
        a.len() == 0 || whitespace(a.last()) || b.len() == 0 || whitespace(b[0]),
    ensures
        sum_upto(a + b, n) == sum_upto(a, n),
    decreases n,
{
    if n > 0 {
        lemma_sum_left(a, b, n - 1);
        assert((a + b)[n - 1] == a[n - 1]);
        if n > 1 {
            assert((a + b)[n - 2] == a[n - 2]);
        }
        lemma_word_at_left(a, b, n - 1);
    }
}

proof fn lemma_sum_right(a: Seq<char>, b: Seq<char>, n: int)
    requires
        0 <= n <= b.len(),
        a.len() == 0 || whitespace(a.last()) || b.len() == 0 || whitespace(b[0]),
    ensures
        sum_upto(a + b, a.len() + n) == sum_of(a) + sum_upto(b, n),
    decreases n,
{
    if n == 0 {
        lemma_sum_left(a, b, a.len() as int);
    } else {
        lemma_sum_right(a, b, n - 1);
        assert((a + b)[a.len() + n - 1] == b[n - 1]);
        if n > 1 {
            assert((a + b)[a.len() + n - 2] == b[n - 2]);
        } else if a.len() > 0 {
            assert((a + b)[a.len() - 1] == a.last());
        }
        lemma_word_at_right(a, b, n - 1);
    }
}

/// A text cut at whitespace sums to what its two pieces sum to: no word is
/// torn, so the pieces can be summed apart.
pub proof fn lemma_sum_concat(a: Seq<char>, b: Seq<char>)
    requires
        a.len() == 0 || whitespace(a.last()) || b.len() == 0 || whitespace(b[0]),
    ensures
        sum_of(a + b) == sum_of(a) + sum_of(b),
{
    lemma_sum_right(a, b, b.len() as int);
}

/// A word that holds anything but digits after its sign is no integer, and
/// adds nothing: it is never read in part.
pub proof fn lemma_mixed_word_adds_nothing(word: Seq<char>, i: int)
    requires
        0 <= i < word.len(),
        !is_digit(word[i]),
        i > 0 || (word[0] != '-' && word[0] != '+'),
    ensures
        token_value(word) is None,
        worth(word) == 0,
{
    if word[0] == '-' || word[0] == '+' {
        assert(word.drop_first()[i - 1] == word[i]);
    }
}

/// A text without words sums to zero.
pub proof fn lemma_blank_sums_to_zero(text: Seq<char>)
    requires
        blank(text),
    ensures
        sum_of(text) == 0,
{
    lemma_no_starts(text, 0, text.len() as int);
}

/// Adds up the words of `content` that write an integer. Words are split at
/// whitespace; a word that is no integer as a whole is passed over, so the
/// empty text sums to zero.
pub fn sum(content: &str) -> (total: Integer)
    ensures
        total@ == sum_of(content@),
        content@.len() == 0 ==> total@ == 0,
{
    let mut total: Integer = Integer::zero();
    let mut token: Vec<char> = Vec::new();
    for c in it: content.chars()
        invariant
            it.seq() == content@,
            token@.len() <= it.index(),
            token@ == content@.subrange(it.index() - token@.len(), it.index() as int),
            forall|j: int| it.index() - token@.len() <= j < it.index() ==> !whitespace(content@[j]),
            it.index() - token@.len() == 0 || whitespace(content@[it.index() - token@.len() - 1]),
            total@ == sum_upto(content@, it.index() - token@.len()),
    {
        let ghost i = it.index() as int;
        let ghost s = i - token@.len();
        if is_whitespace(c) {
            if token.len() > 0 {
                proof {
                    lemma_close_word(content@, s, i);
                }
                total = add_word(total, &token);
                token = Vec::new();
            }
            assert(!word_start(content@, i));
            assert(content@.subrange(i + 1, i + 1) == Seq::<char>::empty());
        } else {
            token.push(c);
            assert(token@ == content@.subrange(s, i + 1));
        }
    }
    if token.len() > 0 {
        proof {
            let e = content@.len() as int;
            lemma_close_word(content@, e - token@.len(), e);
        }
        total = add_word(total, &token);
    }
    total
}

/// Adds what `word` is worth.
fn add_word(total: Integer, word: &Vec<char>) -> (r: Integer)
    ensures
        r@ == total@ + worth(word@),
{
    match Integer::parse(word) {
        Some(v) => total.plus(&v),
        None => total,
    }
}

} // verus!
