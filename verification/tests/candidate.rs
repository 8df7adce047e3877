use std::collections::HashMap;
use sweep::candidate::{split_inclusive, Candidate, Field, FieldRef, FieldSelect, FieldSelector, StringHaystack};

#[test]
fn candidate_test_select() {
    let select = FieldSelect::from_str("..-1").unwrap();
    assert!(!select.matches(3, 3));
    assert!(!select.matches(2, 3));
    assert!(select.matches(1, 3));
    assert!(select.matches(0, 3));

    let select = FieldSelect::from_str("-2..").unwrap();
    assert!(select.matches(2, 3));
    assert!(select.matches(1, 3));
    assert!(!select.matches(0, 3));

    let select = FieldSelect::from_str("-2..-1").unwrap();
    assert!(!select.matches(2, 3));
    assert!(select.matches(1, 3));
    assert!(!select.matches(0, 3));

    let select = FieldSelect::from_str("..").unwrap();
    assert!(select.matches(2, 3));
    assert!(select.matches(1, 3));
    assert!(select.matches(0, 3));

    let selector = FieldSelector::from_str("..1,-1").unwrap();
    assert!(selector.matches(2, 3));
    assert!(!selector.matches(1, 3));
    assert!(selector.matches(0, 3));

    let selector = FieldSelector::from_str("1..3,-2").unwrap();
    assert_eq!(selector.matches_iter(6), vec![1, 2, 4]);
}

#[test]
fn candidate_test_split_inclusive() {
    let chunks: Vec<_> = split_inclusive(' ', "  one  павел two  ");
    assert_eq!(chunks, vec!["  one", "  павел", " two", "  ",]);
}

#[test]
fn split_inclusive_empty_and_no_separator() {
    assert!(split_inclusive(' ', "").is_empty());
    assert_eq!(split_inclusive(' ', "word"), vec!["word"]);
    assert_eq!(split_inclusive(',', "a,b,,c"), vec!["a", ",b", ",,c"]);
}

#[test]
fn field_select_forms() {
    assert_eq!(FieldSelect::from_str("3").unwrap(), FieldSelect::Single(3));
    assert_eq!(FieldSelect::from_str("-1").unwrap(), FieldSelect::Single(-1));
    assert_eq!(FieldSelect::from_str("2..").unwrap(), FieldSelect::RangeFrom(2));
    assert_eq!(FieldSelect::from_str("..4").unwrap(), FieldSelect::RangeTo(4));
    assert_eq!(FieldSelect::from_str(" 1 .. 4 ").unwrap(), FieldSelect::Range(1, 4));
    assert_eq!(FieldSelect::from_str("").unwrap(), FieldSelect::All);
    assert!(FieldSelect::from_str("x..").is_err());
    assert!(FieldSelect::from_str("1..y").is_err());
    assert_eq!(FieldSelect::from_str("a..").unwrap_err().text, "a");
}

#[test]
fn field_selector_errors() {
    assert!(FieldSelector::from_str("1,x").is_err());
    let all = FieldSelector::from_str("").unwrap();
    assert_eq!(all.matches_iter(3), vec![0, 1, 2]);
    let single = FieldSelector::from_str("-1").unwrap();
    assert_eq!(single.matches_iter(4), vec![3]);
    assert!(single.matches_iter(0).is_empty());
}

#[test]
fn candidate_from_string_selects_fields() {
    let selector = FieldSelector::from_str("1").unwrap();
    let candidate = Candidate::from_string("a b c".to_string(), ' ', Some(&selector));
    let fields = candidate.target();
    assert_eq!(fields.len(), 3);
    assert_eq!(fields[0].text, "a");
    assert_eq!(fields[1].text, " b");
    assert!(!fields[0].active);
    assert!(fields[1].active);
    assert!(!fields[2].active);
    let haystack: String = candidate.haystack().into_iter().collect();
    assert_eq!(haystack, " b");

    let all = Candidate::from_string("a b".to_string(), ' ', None);
    let haystack: String = all.haystack().into_iter().collect();
    assert_eq!(haystack, "a b");
}

#[test]
fn candidate_fields() {
    let field = Field::text("x".to_string()).active(false).reference(FieldRef(7));
    assert_eq!(field.text, "x");
    assert!(!field.active);
    assert_eq!(field.field_ref, Some(FieldRef(7)));
    let candidate = Candidate::new(
        vec![Field::text("ab".to_string())],
        vec![Field::text("r".to_string())],
        2,
        vec![Field::text("p".to_string())],
    );
    assert_eq!(candidate.right_offset(), 2);
    assert_eq!(candidate.right().len(), 1);
    let haystack: String = candidate.haystack().into_iter().collect();
    assert_eq!(haystack, "abrp");
    assert_eq!(candidate.preview_haystack_position(), 3);
}

#[test]
fn string_haystack() {
    let h = StringHaystack::new("héllo");
    assert_eq!(h.as_str(), "héllo");
    assert_eq!(h.chars(), &['h', 'é', 'l', 'l', 'o']);
    let fields = h.fields();
    assert_eq!(fields.len(), 1);
    assert_eq!(fields[0].text, "héllo");
    assert!(fields[0].active);
}

#[test]
fn field_resolve_refs() {
    let mut refs = HashMap::new();
    refs.insert(1i64, Field::text("base".to_string()));
    let empty = Field::text(String::new()).reference(FieldRef(1));
    let resolved = empty.resolve(&refs);
    assert_eq!(resolved.text, "base");
    assert_eq!(resolved.field_ref, None);
    let own = Field::text("own".to_string()).active(false).reference(FieldRef(1));
    let resolved = own.resolve(&refs);
    assert_eq!(resolved.text, "own");
    assert!(!resolved.active);
    let missing = Field::text(String::new()).reference(FieldRef(2));
    assert_eq!(missing.resolve(&refs).field_ref, Some(FieldRef(2)));
}
