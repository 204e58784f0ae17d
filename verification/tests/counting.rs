use cx::{count_bytes, count_chars, count_lines, count_words, is_whitespace};

#[test]
fn count_words_test() {
    let input = "This is a test".to_string();
    let result = count_words(&input);
    let expected = 4;
    assert_eq!(result, expected);
}

#[test]
fn count_lines_test() {
    let input = "This\nis\na\ntest".to_string();
    let result = count_lines(&input);
    let expected = 4;
    assert_eq!(result, expected);
}

#[test]
fn count_chars_test() {
    let input = "This is a test".to_string();
    let result = count_chars(&input);
    let expected = 11;
    assert_eq!(result, expected);
}

#[test]
fn count_bytes_test() {
    let input = "This is a test".to_string();
    let result = count_bytes(&input);
    let expected = 14;
    assert_eq!(result, expected);
}

#[test]
fn count_words_empty_test() {
    let input = "".to_string();
    let result = count_words(&input);
    let expected = 0;
    assert_eq!(result, expected);
}

#[test]
fn count_lines_empty_test() {
    let input = "".to_string();
    let result = count_lines(&input);
    let expected = 0;
    assert_eq!(result, expected);
}

#[test]
fn count_chars_empty_test() {
    let input = "".to_string();
    let result = count_chars(&input);
    let expected = 0;
    assert_eq!(result, expected);
}

#[test]
fn count_bytes_empty_test() {
    let input = "".to_string();
    let result = count_bytes(&input);
    let expected = 0;
    assert_eq!(result, expected);
}

#[test]
fn whitespace_agrees_with_std_on_every_char() {
    let mut v: u32 = 0;
    while v <= 0x10FFFF {
        if let Some(c) = char::from_u32(v) {
            assert_eq!(is_whitespace(c), c.is_whitespace(), "U+{:04X}", v);
        }
        v += 1;
    }
}

#[test]
fn lines_are_zero_only_for_the_empty_text() {
    assert_eq!(count_lines(""), 0);
    assert_eq!(count_lines("\n"), 1);
    assert_eq!(count_lines(" "), 1);
    assert_eq!(count_lines("a"), 1);
    assert_eq!(count_lines("\r\n"), 1);
}

#[test]
fn final_line_feed_adds_no_line() {
    assert_eq!(count_lines("a\nb"), 2);
    assert_eq!(count_lines("a\nb\n"), 2);
    assert_eq!(count_lines("a\nb\n\n"), 3);
    assert_eq!(count_lines("\n\n"), 2);
    assert_eq!(count_lines("a\r\nb\r\n"), 2);
}

#[test]
fn words_of_blank_text() {
    assert_eq!(count_words(""), 0);
    assert_eq!(count_words("  "), 0);
    assert_eq!(count_words(" \t\r\n\u{2009}\u{3000}"), 0);
}

#[test]
fn runs_of_whitespace_collapse() {
    assert_eq!(count_words(" Mary   had\ta\u{2009}little  \n\t lamb"), 5);
    assert_eq!(count_words("a"), 1);
    assert_eq!(count_words(" a"), 1);
    assert_eq!(count_words("a "), 1);
    assert_eq!(count_words("a\u{a0}b"), 2);
}

#[test]
fn chars_leave_whitespace_out() {
    assert_eq!(count_chars("a b"), 2);
    assert_eq!(count_chars(" \n\t"), 0);
    assert_eq!(count_chars("\u{e9}t\u{e9} \u{1F600}"), 4);
}

#[test]
fn bytes_count_the_encoding() {
    assert_eq!(count_bytes("a b"), 3);
    assert_eq!(count_bytes("\u{e9}"), 2);
    assert_eq!(count_bytes("\u{20AC}"), 3);
    assert_eq!(count_bytes("\u{1F600}"), 4);
    assert_eq!(count_bytes("\u{e9}t\u{e9} \u{1F600}"), 10);
}

#[test]
fn bytes_are_never_fewer_than_chars() {
    let samples = ["", "a", "a b", " \n ", "\u{e9}\u{20AC}\u{1F600}", "lorem ipsum wasd\n"];
    for text in samples {
        assert!(count_bytes(text) >= count_chars(text));
    }
}

#[test]
fn counting_twice_gives_the_same() {
    let text = "one two\nthree \u{1F600}\n";
    assert_eq!(count_lines(text), count_lines(text));
    assert_eq!(count_words(text), count_words(text));
    assert_eq!(count_chars(text), count_chars(text));
    assert_eq!(count_bytes(text), count_bytes(text));
    assert_eq!(count_lines(text), 2);
    assert_eq!(count_words(text), 4);
    assert_eq!(count_chars(text), 12);
    assert_eq!(count_bytes(text), 19);
}

#[test]
fn pieces_cut_at_a_line_end_add_up() {
    let a = "first line\nsecond \u{e9}\n";
    let b = "third\n  fourth";
    let whole = format!("{}{}", a, b);
    assert_eq!(count_lines(&whole), count_lines(a) + count_lines(b));
    assert_eq!(count_words(&whole), count_words(a) + count_words(b));
    assert_eq!(count_chars(&whole), count_chars(a) + count_chars(b));
    assert_eq!(count_bytes(&whole), count_bytes(a) + count_bytes(b));
    assert_eq!(count_lines(&whole), 4);
    assert_eq!(count_words(&whole), 6);
}

#[test]
fn a_cut_inside_a_word_tears_it() {
    assert_eq!(count_words("ab"), 1);
    assert_eq!(count_words("a") + count_words("b"), 2);
    assert_eq!(count_chars("ab"), count_chars("a") + count_chars("b"));
}

#[test]
fn words_are_never_more_than_chars() {
    let samples = ["", " ", "a", "a b c", "  ab  cd  ", "x\ny\tz"];
    for text in samples {
        assert!(count_words(text) <= count_chars(text));
    }
}
