use cx::{sum, Integer};

fn parse(token: &str) -> Option<String> {
    let chars: Vec<char> = token.chars().collect();
    Integer::parse(&chars).map(|v| v.to_string())
}

fn number(token: &str) -> Integer {
    let chars: Vec<char> = token.chars().collect();
    Integer::parse(&chars).unwrap()
}

#[test]
fn zero_is_written_as_one_digit() {
    assert_eq!(Integer::zero().to_string(), "0");
    assert_eq!(Integer::from_usize(0).to_string(), "0");
    assert_eq!(parse("0").unwrap(), "0");
    assert_eq!(parse("-0").unwrap(), "0");
    assert_eq!(parse("000").unwrap(), "0");
    assert!(!number("-0").is_negative());
}

#[test]
fn from_usize_keeps_the_value() {
    assert_eq!(Integer::from_usize(7).to_string(), "7");
    assert_eq!(Integer::from_usize(10).to_string(), "10");
    assert_eq!(Integer::from_usize(1337).to_string(), "1337");
    assert_eq!(Integer::from_usize(usize::MAX).to_string(), format!("{}", usize::MAX));
}

#[test]
fn tokens_that_are_integers() {
    assert_eq!(parse("42").unwrap(), "42");
    assert_eq!(parse("+42").unwrap(), "42");
    assert_eq!(parse("-42").unwrap(), "-42");
    assert_eq!(parse("007").unwrap(), "7");
    assert_eq!(parse("-0010").unwrap(), "-10");
    assert_eq!(
        parse("123456789012345678901234567890123456789012345678901234567890").unwrap(),
        "123456789012345678901234567890123456789012345678901234567890"
    );
}

#[test]
fn tokens_that_are_no_integers() {
    for token in ["", "+", "-", "t35t", "35t", "t35", "4 2", "--5", "+-5", "5-", "1.5", "1e3", "0x10", "1_000", "\u{661}\u{662}"] {
        assert_eq!(parse(token), None, "{:?}", token);
    }
}

#[test]
fn plus_adds_with_carry() {
    assert_eq!(number("999").plus(&number("1")).to_string(), "1000");
    assert_eq!(number("1").plus(&number("999")).to_string(), "1000");
    assert_eq!(number("-999").plus(&number("-1")).to_string(), "-1000");
    assert_eq!(number("55").plus(&number("55")).to_string(), "110");
}

#[test]
fn plus_of_opposite_signs() {
    assert_eq!(number("1000").plus(&number("-1")).to_string(), "999");
    assert_eq!(number("-1").plus(&number("1000")).to_string(), "999");
    assert_eq!(number("1").plus(&number("-1000")).to_string(), "-999");
    assert_eq!(number("-1000").plus(&number("1")).to_string(), "-999");
    assert_eq!(number("5").plus(&number("-5")).to_string(), "0");
    assert_eq!(number("-5").plus(&number("5")).to_string(), "0");
    assert!(!number("-5").plus(&number("5")).is_negative());
    assert!(number("-6").plus(&number("5")).is_negative());
}

#[test]
fn plus_agrees_with_machine_integers() {
    let samples: [i64; 9] = [0, 1, -1, 9, -10, 99, 12345, -99999, 1_000_000_007];
    for a in samples {
        for b in samples {
            let got = number(&a.to_string()).plus(&number(&b.to_string())).to_string();
            assert_eq!(got, (a + b).to_string(), "{} + {}", a, b);
        }
    }
}

#[test]
fn sum_of_the_empty_text_is_zero() {
    assert_eq!(sum("").to_string(), "0");
    assert_eq!(sum("  \n\t").to_string(), "0");
}

#[test]
fn sum_passes_over_what_is_no_integer() {
    assert_eq!(sum("This 42 is 1337 a t35t 666").to_string(), "2045");
    assert_eq!(sum("t35t 35t t35").to_string(), "0");
}

#[test]
fn sum_takes_signs_and_any_whitespace() {
    assert_eq!(sum("-5 +7\n-10\t1").to_string(), "-7");
    assert_eq!(sum("  12\u{3000}30  ").to_string(), "42");
    assert_eq!(sum("5").to_string(), "5");
    assert_eq!(sum("5 -5").to_string(), "0");
}

#[test]
fn sum_goes_beyond_machine_integers() {
    assert_eq!(
        sum("340282366920938463463374607431768211455 1").to_string(),
        "340282366920938463463374607431768211456"
    );
    assert_eq!(
        sum("-170141183460469231731687303715884105728 -1 x").to_string(),
        "-170141183460469231731687303715884105729"
    );
    assert_eq!(sum("18446744073709551615 18446744073709551615").to_string(), "36893488147419103230");
}

#[test]
fn sum_twice_gives_the_same() {
    let text = "1 2 three 4";
    assert_eq!(sum(text).to_string(), sum(text).to_string());
    assert_eq!(sum(text).to_string(), "7");
}

#[test]
fn pieces_cut_at_whitespace_sum_up() {
    let a = "10 -3 x ";
    let b = "5 y7 +1";
    let whole = format!("{}{}", a, b);
    assert_eq!(sum(a).to_string(), "7");
    assert_eq!(sum(b).to_string(), "6");
    assert_eq!(sum(&whole).to_string(), "13");
    assert_eq!(sum(a).plus(&sum(b)).to_string(), sum(&whole).to_string());
}

#[test]
fn a_cut_inside_a_number_changes_the_sum() {
    assert_eq!(sum("12").to_string(), "12");
    assert_eq!(sum("1").plus(&sum("2")).to_string(), "3");
}
