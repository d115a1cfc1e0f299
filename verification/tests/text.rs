use minishell::text::{
    chars_of, comes_before, contains, decimal_string, join, parse_count, same_text, starts_with,
};

fn strings(words: &[&str]) -> Vec<String> {
    words.iter().map(|w| w.to_string()).collect()
}

#[test]
fn same_text_compares_characters() {
    assert!(same_text("abc", "abc"));
    assert!(same_text("", ""));
    assert!(!same_text("abc", "abd"));
    assert!(!same_text("abc", "ab"));
}

#[test]
fn chars_of_lists_characters() {
    assert_eq!(chars_of("a é"), vec!['a', ' ', 'é']);
    assert_eq!(chars_of(""), Vec::<char>::new());
}

#[test]
fn contains_finds_a_name() {
    let list = strings(&["echo", "cd"]);
    assert!(contains(&list, "cd"));
    assert!(!contains(&list, "c"));
    assert!(!contains(&Vec::new(), "cd"));
}

#[test]
fn join_puts_separator_between_parts() {
    assert_eq!(join(&strings(&["a", "b", "c"]), " "), "a b c");
    assert_eq!(join(&strings(&["a"]), " "), "a");
    assert_eq!(join(&strings(&[]), " "), "");
    assert_eq!(join(&strings(&["", ""]), ", "), ", ");
    assert_eq!(join(&strings(&["x", "y"]), ""), "xy");
}

#[test]
fn decimal_string_writes_numbers() {
    assert_eq!(decimal_string(0), "0");
    assert_eq!(decimal_string(7), "7");
    assert_eq!(decimal_string(10), "10");
    assert_eq!(decimal_string(1234567890), "1234567890");
    assert_eq!(decimal_string(usize::MAX), usize::MAX.to_string());
}

#[test]
fn parse_count_reads_decimal_numbers() {
    assert_eq!(parse_count("0"), Some(0));
    assert_eq!(parse_count("42"), Some(42));
    assert_eq!(parse_count("007"), Some(7));
    assert_eq!(parse_count("+5"), Some(5));
    assert_eq!(parse_count(&usize::MAX.to_string()), Some(usize::MAX));
}

#[test]
fn parse_count_refuses_what_is_no_count() {
    for text in ["", "+", "-1", "1a", "a", " 1", "1 ", "++1", "1.5", "٣"] {
        assert_eq!(parse_count(text), None);
    }
    let too_big = format!("{}0", usize::MAX);
    assert_eq!(parse_count(&too_big), None);
    let one_more = format!("{}", usize::MAX as u128 + 1);
    assert_eq!(parse_count(&one_more), None);
}

#[test]
fn parse_count_agrees_with_decimal_string() {
    for n in [0usize, 1, 9, 10, 99, 100, 65535, 1 << 40] {
        assert_eq!(parse_count(&decimal_string(n)), Some(n));
    }
}

#[test]
fn starts_with_tests_a_prefix() {
    assert!(starts_with("echo", ""));
    assert!(starts_with("echo", "ec"));
    assert!(starts_with("echo", "echo"));
    assert!(!starts_with("echo", "echoo"));
    assert!(!starts_with("echo", "x"));
    assert!(starts_with("", ""));
}

#[test]
fn comes_before_is_the_order_of_strings() {
    let words = ["", "a", "B", "ab", "abc", "b", "é", "z", "Z", "a b", "~"];
    for x in words {
        for y in words {
            assert_eq!(comes_before(x, y), x < y);
        }
    }
}
