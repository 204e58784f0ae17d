//! The model of a text buffer: what each count means.

use vstd::prelude::*;
use vstd::utf8::encode_utf8;

verus! {

/// Whether `c` carries the Unicode property `White_Space`.
pub open spec fn whitespace(c: char) -> bool {
    let v = c as u32;
    ||| 0x09 <= v <= 0x0D
    ||| v == 0x20
    ||| v == 0x85
    ||| v == 0xA0
    ||| v == 0x1680
    ||| 0x2000 <= v <= 0x200A
    ||| v == 0x2028
    ||| v == 0x2029
    ||| v == 0x202F
    ||| v == 0x205F
    ||| v == 0x3000
}

/// How many characters of `text` are the line feed.
pub open spec fn newline_count(text: Seq<char>) -> nat
    decreases text.len(),
{
    if text.len() == 0 {
        0
    } else {
        newline_count(text.drop_last()) + if text.last() == '\n' { 1nat } else { 0nat }
    }
}

/// The number of lines: every line feed ends one, and a non-empty rest after
/// the last line feed is a line too.
pub open spec fn line_count(text: Seq<char>) -> nat {
    newline_count(text) + if text.len() > 0 && text.last() != '\n' { 1nat } else { 0nat }
}

/// Whether a word begins at position `i`: a character that is no whitespace,
/// at the start of the text or right after whitespace.
pub open spec fn word_start(text: Seq<char>, i: int) -> bool {
    &&& 0 <= i < text.len()
    &&& !whitespace(text[i])
    &&& (i == 0 || whitespace(text[i - 1]))
}

/// How many words begin among the first `n` positions of `text`.
pub open spec fn word_starts(text: Seq<char>, n: int) -> nat
    decreases n,
{
    if n <= 0 {
        0
    } else {
        word_starts(text, n - 1) + if word_start(text, n - 1) { 1nat } else { 0nat }
    }
}

/// The number of words: maximal runs of characters that are no whitespace.
/// Each run is counted at the position where it begins.
pub open spec fn word_count(text: Seq<char>) -> nat {
    word_starts(text, text.len() as int)
}

/// The number of characters that belong to words, that is, of those that are
/// no whitespace.
pub open spec fn char_count(text: Seq<char>) -> nat
    decreases text.len(),
{
    if text.len() == 0 {
        0
    } else {
        char_count(text.drop_last()) + if whitespace(text.last()) { 0nat } else { 1nat }
    }
}

/// The number of bytes that `text` takes in UTF-8.
pub open spec fn byte_count(text: Seq<char>) -> nat {
    encode_utf8(text).len()
}

/// Tells whether `c` is whitespace in the sense of Unicode's `White_Space`.
pub fn is_whitespace(c: char) -> (b: bool)
    ensures
        b == whitespace(c),
{
    let v: u32 = c as u32;
    (0x09 <= v && v <= 0x0D) || v == 0x20 || v == 0x85 || v == 0xA0 || v == 0x1680 || (0x2000 <= v
        && v <= 0x200A) || v == 0x2028 || v == 0x2029 || v == 0x202F || v == 0x205F || v == 0x3000
}

/// A text has no line if and only if it is empty.
pub proof fn lemma_no_lines_iff_empty(text: Seq<char>)
    ensures
        line_count(text) == 0 <==> text.len() == 0,
{
}

/// Whether `text` holds nothing but whitespace.
pub open spec fn blank(text: Seq<char>) -> bool {
    forall|i: int| 0 <= i < text.len() ==> whitespace(#[trigger] text[i])
}

/// No word begins among the first `n` positions if and only if they hold
/// nothing but whitespace.
pub proof fn lemma_no_word_starts(text: Seq<char>, n: int)
    requires
        0 <= n <= text.len(),
    ensures
        word_starts(text, n) == 0 <==> blank(text.take(n)),
    decreases n,
{
    if n > 0 {
        lemma_no_word_starts(text, n - 1);
        let shorter = text.take(n - 1);
        let longer = text.take(n);
        if blank(longer) {
            assert forall|i: int| 0 <= i < shorter.len() implies whitespace(
                #[trigger] shorter[i],
            ) by {
                assert(shorter[i] == longer[i]);
            }
            assert(longer[n - 1] == text[n - 1]);
        }
        if word_starts(text, n) == 0 {
            if n > 1 {
                assert(shorter[n - 2] == text[n - 2]);
            }
            assert forall|i: int| 0 <= i < longer.len() implies whitespace(
                #[trigger] longer[i],
            ) by {
                if i < n - 1 {
                    assert(longer[i] == shorter[i]);
                }
            }
        }
    }
}

/// A text has no word if and only if it holds nothing but whitespace; so the
/// empty text has none.
pub proof fn lemma_no_words_iff_blank(text: Seq<char>)
    ensures
        word_count(text) == 0 <==> blank(text),
        text.len() == 0 ==> word_count(text) == 0,
{
    lemma_no_word_starts(text, text.len() as int);
    assert(text.take(text.len() as int) == text);
}

/// No character is counted if and only if the text holds nothing but
/// whitespace: whitespace is left out of the count.
pub proof fn lemma_no_chars_iff_blank(text: Seq<char>)
    ensures
        char_count(text) == 0 <==> blank(text),
    decreases text.len(),
{
    if text.len() > 0 {
        let shorter = text.drop_last();
        lemma_no_chars_iff_blank(shorter);
        if blank(text) {
            assert forall|i: int| 0 <= i < shorter.len() implies whitespace(
                #[trigger] shorter[i],
            ) by {
                assert(shorter[i] == text[i]);
            }
            assert(whitespace(text[text.len() - 1]));
        }
        if char_count(text) == 0 {
            assert forall|i: int| 0 <= i < text.len() implies whitespace(#[trigger] text[i]) by {
                if i < text.len() - 1 {
                    assert(text[i] == shorter[i]);
                }
            }
        }
    }
}

/// Whitespace is left out of the character count one by one: a character
/// more adds one where it is no whitespace, and nothing where it is.
pub proof fn lemma_char_count_push(text: Seq<char>, c: char)
    ensures
        char_count(text.push(c)) == char_count(text) + if whitespace(c) { 0nat } else { 1nat },
{
    assert(text.push(c).drop_last() == text);
}

/// Every word holds a character: there are no more words than characters.
pub proof fn lemma_words_bounded_by_chars(text: Seq<char>)
    ensures
        word_count(text) <= char_count(text),
{
    lemma_word_starts_bounded(text, text.len() as int);
    assert(text.take(text.len() as int) == text);
}

proof fn lemma_word_starts_bounded(text: Seq<char>, n: int)
    requires
        0 <= n <= text.len(),
    ensures
        word_starts(text, n) <= char_count(text.take(n)),
    decreases n,
{
    if n > 0 {
        lemma_word_starts_bounded(text, n - 1);
        assert(text.take(n).drop_last() == text.take(n - 1));
        assert(text.take(n).last() == text[n - 1]);
    }
}

/// There are never fewer bytes than counted characters.
pub proof fn lemma_bytes_cover_chars(text: Seq<char>)
    ensures
        char_count(text) <= byte_count(text),
{
    lemma_char_count_bounded(text);
    lemma_encoding_covers_chars(text);
}

/// Line feeds are counted piece by piece.
pub proof fn lemma_newline_count_concat(a: Seq<char>, b: Seq<char>)
    ensures
        newline_count(a + b) == newline_count(a) + newline_count(b),
    decreases b.len(),
{
    if b.len() == 0 {
        assert(a + b == a);
    } else {
        lemma_newline_count_concat(a, b.drop_last());
        assert((a + b).drop_last() == a + b.drop_last());
    }
}

/// A text cut after a line feed has the lines of its two pieces: the pieces
/// can be counted apart and the counts added.
pub proof fn lemma_line_count_concat(a: Seq<char>, b: Seq<char>)
    requires
        a.len() == 0 || a.last() == '\n',
    ensures
        line_count(a + b) == line_count(a) + line_count(b),
{
    lemma_newline_count_concat(a, b);
    if b.len() == 0 {
        assert(a + b == a);
    } else {
        assert((a + b).last() == b.last());
    }
}

/// Characters are counted piece by piece, wherever the text is cut.
pub proof fn lemma_char_count_concat(a: Seq<char>, b: Seq<char>)
    ensures
        char_count(a + b) == char_count(a) + char_count(b),
    decreases b.len(),
{
    if b.len() == 0 {
        assert(a + b == a);
    } else {
        lemma_char_count_concat(a, b.drop_last());
        assert((a + b).drop_last() == a + b.drop_last());
    }
}

/// Bytes are counted piece by piece, wherever the text is cut.
pub proof fn lemma_byte_count_concat(a: Seq<char>, b: Seq<char>)
    ensures
        byte_count(a + b) == byte_count(a) + byte_count(b),
    decreases a.len(),
{
    if a.len() == 0 {
        assert(a + b == b);
    } else {
        lemma_byte_count_concat(a.drop_first(), b);
        assert((a + b).drop_first() == a.drop_first() + b);
    }
}

proof fn lemma_word_starts_prefix(a: Seq<char>, b: Seq<char>, n: int)
    requires
        0 <= n <= a.len(),
    ensures
        word_starts(a + b, n) == word_starts(a, n),
    decreases n,
{
    if n > 0 {
        lemma_word_starts_prefix(a, b, n - 1);
        assert((a + b)[n - 1] == a[n - 1]);
        if n > 1 {
            assert((a + b)[n - 2] == a[n - 2]);
        }
    }
}

proof fn lemma_word_starts_suffix(a: Seq<char>, b: Seq<char>, n: int)
    requires
        0 <= n <= b.len(),
        a.len() == 0 || whitespace(a.last()) || b.len() == 0 || whitespace(b[0]),
    ensures
        word_starts(a + b, a.len() + n) == word_count(a) + word_starts(b, n),
    decreases n,
{
    if n == 0 {
        lemma_word_starts_prefix(a, b, a.len() as int);
    } else {
        lemma_word_starts_suffix(a, b, n - 1);
        assert((a + b)[a.len() + n - 1] == b[n - 1]);
        if n > 1 {
            assert((a + b)[a.len() + n - 2] == b[n - 2]);
        } else if a.len() > 0 {
            assert((a + b)[a.len() - 1] == a.last());
        }
    }
}

/// A text cut at whitespace has the words of its two pieces: no word is
/// torn, so the pieces can be counted apart and the counts added.
pub proof fn lemma_word_count_concat(a: Seq<char>, b: Seq<char>)
    requires
        a.len() == 0 || whitespace(a.last()) || b.len() == 0 || whitespace(b[0]),
    ensures
        word_count(a + b) == word_count(a) + word_count(b),
{
    lemma_word_starts_suffix(a, b, b.len() as int);
}

/// Every character takes at least one byte.
pub proof fn lemma_encoding_covers_chars(text: Seq<char>)
    ensures
        text.len() <= byte_count(text),
    decreases text.len(),
{
    if text.len() > 0 {
        lemma_encoding_covers_chars(text.drop_first());
    }
}

/// No more characters are counted than the text holds.
pub proof fn lemma_char_count_bounded(text: Seq<char>)
    ensures
        char_count(text) <= text.len(),
    decreases text.len(),
{
    if text.len() > 0 {
        lemma_char_count_bounded(text.drop_last());
    }
}

} // verus!
