use sweep::cli::{parse_no_input, scorer_arg, ScorerKind, ScorerSelector};
use sweep::text::{
    chars_are, decimal_chars, find_char, lowercase, parse_i32, parse_i64, parse_u64, split_by, text_is,
    trim,
};

fn chars(s: &str) -> Vec<char> {
    s.chars().collect()
}

#[test]
fn decimal_roundtrip() {
    for n in [0u64, 7, 10, 1234567890, u64::MAX] {
        let digits = decimal_chars(n);
        assert_eq!(digits.iter().collect::<String>(), n.to_string());
        assert_eq!(parse_u64(&digits), Some(n));
    }
}

#[test]
fn number_parsing() {
    assert_eq!(parse_i32(&chars("-2147483648")), Some(i32::MIN));
    assert_eq!(parse_i32(&chars("2147483648")), None);
    assert_eq!(parse_i32(&chars("+12")), Some(12));
    assert_eq!(parse_i32(&chars("1a")), None);
    assert_eq!(parse_i32(&chars("-")), None);
    assert_eq!(parse_u64(&chars("18446744073709551616")), None);
    assert_eq!(parse_u64(&chars("")), None);
}

#[test]
fn trimming_and_splitting() {
    assert_eq!(trim(&chars("\t a b \n")), chars("a b"));
    assert_eq!(trim(&chars("   ")), chars(""));
    assert_eq!(split_by(&chars("a,,b"), ','), vec![chars("a"), chars(""), chars("b")]);
    assert_eq!(split_by(&chars(""), ','), vec![chars("")]);
}

#[test]
fn lowercase_text() {
    assert_eq!(lowercase("ABc"), chars("abc"));
    assert_eq!(lowercase("İ"), "İ".to_lowercase().chars().collect::<Vec<_>>());
    assert!(text_is("same", "same"));
    assert!(!text_is("same", "sam"));
}

#[test]
fn cli_values() {
    assert_eq!(parse_no_input("nothing"), Ok(false));
    assert_eq!(parse_no_input("input"), Ok(true));
    assert_eq!(
        parse_no_input("other"),
        Err("invalid no-match achtion, possible values {nothing|input}".to_string())
    );
    assert_eq!(scorer_arg("fuzzy"), Ok("fuzzy".to_string()));
    assert_eq!(scorer_arg("substr"), Ok("substr".to_string()));
    assert_eq!(scorer_arg("best"), Err("unknown scorer type: best".to_string()));
}

#[test]
fn i64_and_search() {
    assert_eq!(parse_i64(&chars("-9223372036854775808")), Some(i64::MIN));
    assert_eq!(parse_i64(&chars("9223372036854775808")), None);
    assert_eq!(parse_i64(&chars("+42")), Some(42));
    assert!(chars_are(&chars("id"), "id"));
    assert!(!chars_are(&chars("ids"), "id"));
    assert_eq!(find_char(&chars("a\nb\n"), '\n'), Some(1));
    assert_eq!(find_char(&chars("ab"), '\n'), None);
}

#[test]
fn scorer_selector_rotates() {
    let mut selector = ScorerSelector::new(Vec::new());
    assert_eq!(selector.name(), "fuzzy");
    assert_eq!(selector.toggle(), ScorerKind::Fuzzy);
    assert_eq!(selector.name(), "substr");
    assert_eq!(selector.toggle(), ScorerKind::Substr);
    assert_eq!(selector.name(), "fuzzy");

    let mut selector = ScorerSelector::from_str("substr").ok().unwrap();
    assert_eq!(selector.name(), "substr");
    assert_eq!(selector.toggle(), ScorerKind::Substr);
    assert_eq!(selector.name(), "fuzzy");
    assert_eq!(ScorerSelector::from_str("exact").err().unwrap(), "Unknown scorer: exact");

    let mut single = ScorerSelector::new(vec![ScorerKind::Substr]);
    assert_eq!(single.toggle(), ScorerKind::Substr);
    assert_eq!(single.toggle(), ScorerKind::Substr);
}
