use wotw_seedgen_stats::row_order::{label_rank, natural_order, rank_precedes, ranks_precede, text_precedes, LabelRank};
use wotw_seedgen_stats::text::{
    join_strings, numeral_of, numeral_precedes, parse_number, push_decimal, same_text, split_once,
    strip_prefix, strip_suffix, to_chars,
};

fn decimal(n: u64) -> String {
    let mut text = String::new();
    push_decimal(&mut text, n);
    text
}

#[test]
fn decimal_numerals_match_the_standard_ones() {
    for n in [0u64, 1, 9, 10, 11, 99, 100, 101, 4294967295, 4294967296, u64::MAX] {
        assert_eq!(decimal(n), n.to_string());
    }
    let mut text = "n = ".to_string();
    push_decimal(&mut text, 1205);
    assert_eq!(text, "n = 1205");
}

#[test]
fn numbers_parse_as_the_standard_parser_reads_them() {
    for text in [
        "0", "7", "007", "+5", "+", "", "-0", "-1", " 1", "1 ", "1_0", "12a", "a12", "++1", "1+",
        "4294967295", "4294967296", "99999999999999999999999999", "0x10", "٣", "1.0", "+0",
        "00000000000000000000000000000000000001",
    ] {
        assert_eq!(
            parse_number(text, u32::MAX as u64),
            text.parse::<u32>().ok().map(|n| n as u64),
            "{:?}",
            text
        );
        assert_eq!(parse_number(text, u64::MAX), text.parse::<u64>().ok(), "{:?}", text);
    }
    assert_eq!(parse_number("18446744073709551615", u64::MAX), Some(u64::MAX));
    assert_eq!(parse_number("18446744073709551616", u64::MAX), None);
    assert_eq!(parse_number("11", 11), Some(11));
    assert_eq!(parse_number("12", 11), None);
    assert_eq!(parse_number("0", 0), Some(0));
    assert_eq!(parse_number("1", 0), None);
}

#[test]
fn join_puts_the_separator_between_neighbours() {
    let parts = |parts: &[&str]| parts.iter().map(|part| part.to_string()).collect::<Vec<_>>();
    assert_eq!(join_strings(&parts(&[]), ", "), "");
    assert_eq!(join_strings(&parts(&["a"]), ", "), "a");
    assert_eq!(join_strings(&parts(&["a", "b", "c"]), " and "), "a and b and c");
    assert_eq!(join_strings(&parts(&["", ""]), "-"), "-");
}

#[test]
fn texts_split_at_the_first_mark() {
    assert_eq!(split_once("a=b=c", '='), Some(("a", "b=c")));
    assert_eq!(split_once("=b", '='), Some(("", "b")));
    assert_eq!(split_once("a=", '='), Some(("a", "")));
    assert_eq!(split_once("abc", '='), None);
    assert_eq!(split_once("", '='), None);
    assert_eq!(split_once("äö:ü", ':'), Some(("äö", "ü")));
    assert_eq!(strip_prefix(":12", ':'), Some("12"));
    assert_eq!(strip_prefix("12", ':'), None);
    assert_eq!(strip_prefix("", ':'), None);
    assert_eq!(strip_suffix("60%", '%'), Some("60"));
    assert_eq!(strip_suffix("%", '%'), Some(""));
    assert_eq!(strip_suffix("60", '%'), None);
    assert_eq!(strip_suffix("", '%'), None);
    assert!(same_text("äb", "äb"));
    assert!(!same_text("ab", "abc"));
    assert!(!same_text("ab", "ac"));
    assert!(same_text("", ""));
    assert_eq!(to_chars("aä€"), vec!['a', 'ä', '€']);
}

fn number(digits: &str) -> Option<Vec<char>> {
    Some(digits.chars().collect())
}

fn digits_of(label: &str) -> Option<Vec<char>> {
    match label_rank(label) {
        LabelRank::Number(digits) => Some(digits),
        LabelRank::Text(_) => None,
    }
}

#[test]
fn labels_rank_as_numbers_where_they_read_as_one() {
    assert_eq!(digits_of("10"), number("10"));
    assert_eq!(digits_of("+10"), number("10"));
    assert_eq!(digits_of("010"), number("10"));
    assert_eq!(digits_of("0"), number("0"));
    assert_eq!(digits_of("000"), number("0"));
    assert_eq!(digits_of("+0"), number("0"));
    assert_eq!(digits_of("4294967295"), number("4294967295"));
    assert_eq!(digits_of("4294967296"), number("4294967296"));
    assert_eq!(
        digits_of("00123456789012345678901234567890"),
        number("123456789012345678901234567890")
    );
    for text in ["-1", "", "+", "apple", "1x", "x1", "1 ", "++1", "1.5", "٣"] {
        assert!(matches!(label_rank(text), LabelRank::Text(_)), "{:?}", text);
    }
    assert_eq!(numeral_of("007"), number("7"));
    assert_eq!(numeral_of("seven"), None);
}

#[test]
fn numerals_compare_as_the_numbers_they_denote() {
    let numbers: [u128; 14] = [
        0, 1, 2, 9, 10, 11, 99, 100, 4294967295, 4294967296, 10000000000, 99999999999,
        18446744073709551616, u128::MAX,
    ];
    for a in numbers {
        for b in numbers {
            let x: Vec<char> = a.to_string().chars().collect();
            let y: Vec<char> = b.to_string().chars().collect();
            assert_eq!(numeral_precedes(&x, &y), a < b, "{} {}", a, b);
        }
    }
}

#[test]
fn ranks_compare_numbers_by_value_and_before_text() {
    let two = label_rank("2");
    let ten = label_rank("10");
    let apple = label_rank("apple");
    let banana = label_rank("banana");
    assert!(rank_precedes(&two, &ten));
    assert!(!rank_precedes(&ten, &two));
    assert!(!rank_precedes(&two, &two));
    assert!(rank_precedes(&ten, &apple));
    assert!(!rank_precedes(&apple, &two));
    assert!(rank_precedes(&apple, &banana));
    assert!(!rank_precedes(&banana, &apple));
    assert!(!rank_precedes(&apple, &apple));
    assert!(!rank_precedes(&label_rank("7"), &label_rank("007")));
    assert!(!rank_precedes(&label_rank("007"), &label_rank("7")));
    assert!(rank_precedes(&label_rank("4294967296"), &label_rank("10000000000")));
    assert!(!rank_precedes(&label_rank("10000000000"), &label_rank("4294967296")));
    assert!(rank_precedes(&label_rank("4294967296"), &label_rank("1x")));
    assert!(!rank_precedes(&label_rank("1x"), &label_rank("4294967296")));
    assert!(rank_precedes(
        &label_rank("99999999999999999999999999999"),
        &label_rank("100000000000000000000000000000")
    ));
}

#[test]
fn text_compares_as_strings_do() {
    let texts = ["", "a", "A", "ab", "abc", "abd", "b", "Zebra", "apple", "ä", "z", "€", "aä"];
    for a in texts {
        for b in texts {
            assert_eq!(text_precedes(&to_chars(a), &to_chars(b)), a < b, "{:?} {:?}", a, b);
        }
    }
}

fn ranks(labels: &[&str]) -> Vec<LabelRank> {
    labels.iter().map(|label| label_rank(label)).collect()
}

#[test]
fn rows_compare_label_by_label() {
    assert!(ranks_precede(&ranks(&["a", "2"]), &ranks(&["a", "10"])));
    assert!(!ranks_precede(&ranks(&["a", "10"]), &ranks(&["a", "2"])));
    assert!(ranks_precede(&ranks(&["9", "z"]), &ranks(&["a", "a"])));
    assert!(ranks_precede(&ranks(&["a"]), &ranks(&["a", "a"])));
    assert!(!ranks_precede(&ranks(&["a", "a"]), &ranks(&["a"])));
    assert!(!ranks_precede(&ranks(&["a", "1"]), &ranks(&["a", "01"])));
    assert!(!ranks_precede(&ranks(&[]), &ranks(&[])));
    assert!(ranks_precede(&ranks(&[]), &ranks(&["a"])));
}

#[test]
fn natural_order_names_every_row_once_in_order() {
    let rows = vec![
        ranks(&["apple"]),
        ranks(&["10"]),
        ranks(&["2"]),
        ranks(&["banana"]),
        ranks(&["1"]),
        ranks(&["2"]),
    ];
    assert_eq!(natural_order(&rows), vec![4, 2, 5, 1, 0, 3]);
    assert_eq!(natural_order(&Vec::new()), Vec::<usize>::new());
}
