use sweep::command::{parse_command_pattern, ProcessCommandBuilder};
use std::str::FromStr;

#[test]
fn test_parse_command_pattern() {
    assert_eq!(
        parse_command_pattern("one {two} {{three}}"),
        vec![
            Ok("one ".to_string()),
            Err("two".to_string()),
            Ok(" {three}".to_string())
        ]
    );

    assert_eq!(
        parse_command_pattern("cat {}"),
        vec![Ok("cat ".to_string()), Err("".to_string())]
    );

    assert_eq!(parse_command_pattern("{}"), vec![Err("".to_string())]);
}

#[test]
fn parse_command_pattern_edges() {
    assert!(parse_command_pattern("").is_empty());
    assert_eq!(parse_command_pattern("a}b"), vec![Ok("a}b".to_string())]);
    assert_eq!(parse_command_pattern("{a{b}"), vec![Err("a{b".to_string())]);
    assert_eq!(parse_command_pattern("x{open"), vec![Ok("x".to_string()), Err("open".to_string())]);
    assert_eq!(parse_command_pattern("{{}}"), vec![Ok("{}".to_string())]);
}

#[test]
fn test_process_command_builder() {
    let builder = ProcessCommandBuilder::from_str("one '{} {0}' two").unwrap();
    assert_eq!(
        builder.build(&["+", "-"]).into_iter().collect::<String>(),
        "one+ - +two".to_string()
    );
}

#[test]
fn process_command_builder_args() {
    let builder = ProcessCommandBuilder::new("cmd --flag '{1..}' \"x{-1}y\"").unwrap();
    let fields = vec![" a ".to_string(), "b".to_string(), " c\n".to_string()];
    assert_eq!(builder.build(&fields), vec!["cmd", "--flag", "b c", "xcy"]);
    assert_eq!(builder.build::<String>(&[]), vec!["cmd", "--flag", "", "xy"]);
}

#[test]
fn process_command_builder_bad_selector() {
    assert!(ProcessCommandBuilder::new("echo {x}").is_err());
    assert!(ProcessCommandBuilder::new("echo {1..z}").is_err());
    assert!(ProcessCommandBuilder::from_words(vec!["{2}".to_string()]).is_ok());
}
