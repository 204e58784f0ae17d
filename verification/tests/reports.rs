use cx::{conclude, count_all, format_counts, report, Counts, Flags, InputError, Mode, Severity};

fn only(mode: Mode) -> Flags {
    let mut flags = Flags::none();
    match mode {
        Mode::Words => flags.words = true,
        Mode::Lines => flags.lines = true,
        Mode::Chars => flags.chars = true,
        Mode::Bytes => flags.bytes = true,
        Mode::Sum => flags.sum = true,
        Mode::All => {}
    }
    flags
}

#[test]
fn counts_of_a_file_with_one_line() {
    let counts = count_all("lorem ipsum wasd \r\n");
    assert_eq!(counts, Counts { lines: 1, words: 3, chars: 14, bytes: 19 });
    assert_eq!(format_counts(counts, Some("example.txt")), "1 3 14 19 example.txt");
}

#[test]
fn counts_of_the_bare_line() {
    let counts = count_all("lorem ipsum wasd");
    assert_eq!(counts, Counts { lines: 1, words: 3, chars: 14, bytes: 16 });
    let counts = count_all("lorem ipsum wasd\n");
    assert_eq!(counts, Counts { lines: 1, words: 3, chars: 14, bytes: 17 });
}

#[test]
fn counts_of_piped_input() {
    let counts = count_all("Some pipe input\r\n");
    assert_eq!(counts, Counts { lines: 1, words: 3, chars: 13, bytes: 17 });
    assert_eq!(format_counts(counts, None), "1 3 13 17");
    assert_eq!(count_all("Some pipe input").words, 3);
    assert_eq!(count_all("Some pipe input"), Counts { lines: 1, words: 3, chars: 13, bytes: 15 });
}

#[test]
fn counts_of_the_empty_file() {
    let counts = count_all("");
    assert_eq!(counts, Counts { lines: 0, words: 0, chars: 0, bytes: 0 });
    assert_eq!(format_counts(counts, None), "0 0 0 0");
    assert_eq!(format_counts(counts, Some("empty.txt")), "0 0 0 0 empty.txt");
}

#[test]
fn counts_are_the_same_each_time() {
    let text = "a bc\nd\u{e9}f  g\n";
    assert_eq!(count_all(text), count_all(text));
    assert_eq!(count_all(text), Counts { lines: 2, words: 4, chars: 7, bytes: 13 });
}

#[test]
fn format_keeps_the_order_lines_words_chars_bytes_path() {
    let counts = Counts { lines: 1, words: 20, chars: 300, bytes: 4000 };
    assert_eq!(format_counts(counts, None), "1 20 300 4000");
    assert_eq!(format_counts(counts, Some("dir/my file.txt")), "1 20 300 4000 dir/my file.txt");
    assert_eq!(format_counts(counts, Some("")), "1 20 300 4000 ");
}

#[test]
fn report_of_a_single_mode_is_one_number() {
    let text = "This 42 is 1337 a t35t 666\nsecond line\n";
    assert_eq!(report(Mode::Words, text, Some("f.txt")), "9");
    assert_eq!(report(Mode::Lines, text, Some("f.txt")), "2");
    assert_eq!(report(Mode::Chars, text, Some("f.txt")), "30");
    assert_eq!(report(Mode::Bytes, text, Some("f.txt")), "39");
    assert_eq!(report(Mode::Sum, text, Some("f.txt")), "2045");
    assert_eq!(report(Mode::All, text, Some("f.txt")), "2 9 30 39 f.txt");
    assert_eq!(report(Mode::All, text, None), "2 9 30 39");
}

#[test]
fn report_of_a_negative_sum() {
    assert_eq!(report(Mode::Sum, "1 -3", None), "-2");
    assert_eq!(report(Mode::Sum, "", None), "0");
}

#[test]
fn file_is_reported_with_its_path() {
    let outcome =
        conclude(Flags::none(), false, Some("example.txt"), Ok(b"lorem ipsum wasd \r\n".to_vec()));
    assert_eq!(outcome.line.as_deref(), Some("1 3 14 19 example.txt"));
    assert_eq!(outcome.notice, None);
    assert_eq!(outcome.exit_code, 0);
}

#[test]
fn standard_input_is_reported_without_path() {
    let outcome = conclude(Flags::none(), false, None, Ok(b"Some pipe input\r\n".to_vec()));
    assert_eq!(outcome.line.as_deref(), Some("1 3 13 17"));
    let outcome = conclude(only(Mode::Words), false, None, Ok(b"Some pipe input".to_vec()));
    assert_eq!(outcome.line.as_deref(), Some("3"));
    assert_eq!(outcome.exit_code, 0);
}

#[test]
fn empty_file_is_reported_as_zeros() {
    let outcome = conclude(Flags::none(), true, Some("e"), Ok(Vec::new()));
    assert_eq!(outcome.line.as_deref(), Some("0 0 0 0 e"));
    assert_eq!(outcome.notice, None);
}

#[test]
fn missing_path_is_silent_by_default() {
    let outcome = conclude(Flags::none(), false, Some("nowhere"), Err(InputError::NotFound));
    assert_eq!(outcome.line, None);
    assert_eq!(outcome.notice, None);
    assert_eq!(outcome.exit_code, 0);
}

#[test]
fn missing_path_is_a_warning_when_shown() {
    let outcome = conclude(Flags::none(), true, Some("nowhere"), Err(InputError::NotFound));
    assert_eq!(outcome.line, None);
    assert_eq!(outcome.notice, Some((Severity::Warning, InputError::NotFound)));
    assert_eq!(outcome.exit_code, 0);
}

#[test]
fn every_failure_ends_without_a_result() {
    let errors = [
        InputError::NotFound,
        InputError::NotAFile,
        InputError::InvalidEncoding,
        InputError::PermissionDenied,
        InputError::OtherIO,
    ];
    for error in errors {
        let quiet = conclude(only(Mode::Bytes), false, Some("p"), Err(error));
        assert_eq!(quiet.line, None);
        assert_eq!(quiet.notice, None);
        assert_eq!(quiet.exit_code, 0);
        let loud = conclude(only(Mode::Bytes), true, Some("p"), Err(error));
        assert_eq!(loud.line, None);
        assert_eq!(loud.notice, Some((error.severity(), error)));
        assert_eq!(loud.exit_code, 0);
    }
}

#[test]
fn bytes_that_are_no_text_end_as_invalid_encoding() {
    let outcome = conclude(Flags::none(), true, Some("bin"), Ok(vec![b'a', 0xFF, b'b']));
    assert_eq!(outcome.line, None);
    assert_eq!(outcome.notice, Some((Severity::Warning, InputError::InvalidEncoding)));
    assert_eq!(outcome.exit_code, 0);
    let outcome = conclude(Flags::none(), false, None, Ok(vec![0x80]));
    assert_eq!(outcome.line, None);
    assert_eq!(outcome.notice, None);
}

#[test]
fn selected_mode_decides_the_line() {
    let bytes = b"1 2\n3\n".to_vec();
    let mut flags = Flags::none();
    flags.sum = true;
    assert_eq!(conclude(flags, false, None, Ok(bytes.clone())).line.as_deref(), Some("6"));
    flags.bytes = true;
    assert_eq!(conclude(flags, false, None, Ok(bytes.clone())).line.as_deref(), Some("6"));
    flags.chars = true;
    assert_eq!(conclude(flags, false, None, Ok(bytes.clone())).line.as_deref(), Some("3"));
    flags.lines = true;
    assert_eq!(conclude(flags, false, None, Ok(bytes.clone())).line.as_deref(), Some("2"));
    flags.words = true;
    assert_eq!(conclude(flags, false, None, Ok(bytes)).line.as_deref(), Some("3"));
}
