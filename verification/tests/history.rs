use sweep::history::{float_syntax_check, HistoryError, HistoryRecord, Shell};
use sweep::navigator::{
    collapse_path, complete, on_bind, CmdHistoryMode, Completion, CurrentItem, NavigatorMode,
    NavigatorStep, PathHistoryMode, PathMode,
};

#[test]
fn history_update_text() {
    let text = "id\n12\x0ccmd\n ls -la \x0creturn\n-1\x0ccwd\n/tmp\x0cstart_ts\n1.5\x0csession\nabc";
    let record = HistoryRecord::parse(text).unwrap();
    assert_eq!(record.id, Some(12));
    assert_eq!(record.cmd.as_deref(), Some("ls -la"));
    assert_eq!(record.status, Some(-1));
    assert_eq!(record.cwd.as_deref(), Some("/tmp"));
    assert_eq!(record.start_ts.as_deref(), Some("1.5"));
    assert_eq!(record.session.as_deref(), Some("abc"));
    assert_eq!(record.end_ts, None);
    assert_eq!(record.user, None);
}

#[test]
fn history_update_errors() {
    assert_eq!(HistoryRecord::parse("bad\n1").unwrap_err(), HistoryError::InvalidKey("bad".to_string()));
    assert_eq!(HistoryRecord::parse("id").unwrap_err(), HistoryError::InvalidKey("id".to_string()));
    assert_eq!(HistoryRecord::parse("").unwrap_err(), HistoryError::InvalidKey(String::new()));
    assert_eq!(
        HistoryRecord::parse("status\nx1").unwrap_err(),
        HistoryError::InvalidNumber("x1".to_string())
    );
    let later = HistoryRecord::parse("user\na\x0cuser\nb").unwrap();
    assert_eq!(later.user.as_deref(), Some("b"));
}

#[test]
fn shell_names() {
    assert_eq!(Shell::parse("bash"), Ok(Shell::Bash));
    assert_eq!(Shell::parse("sh"), Ok(Shell::Bash));
    assert_eq!(Shell::parse("zsh"), Err("failed to parse shell type: zsh".to_string()));
    let parsed: Result<Shell, String> = "sh".parse();
    assert_eq!(parsed, Ok(Shell::Bash));
}

#[test]
fn navigator_steps() {
    let cmd = NavigatorMode::CmdHistory(CmdHistoryMode::new(None));
    let entry = CurrentItem::History { session: "s1".to_string(), cwd: "/w".to_string() };
    match on_bind(&cmd, "chronicler.goto.session", &entry, None) {
        NavigatorStep::Enter(NavigatorMode::CmdHistory(m)) => assert_eq!(m.session.as_deref(), Some("s1")),
        other => panic!("unexpected {:?}", other),
    }
    match on_bind(&cmd, "chronicler.goto.directory", &entry, None) {
        NavigatorStep::Enter(NavigatorMode::Path(m)) => {
            assert_eq!(m.path, "/w");
            assert!(m.query.is_empty());
        }
        other => panic!("unexpected {:?}", other),
    }
    assert!(matches!(on_bind(&cmd, "chronicler.goto.session", &CurrentItem::Nothing, None), NavigatorStep::Stay));
    assert!(matches!(
        on_bind(&cmd, "chronicler.mode.path", &entry, None),
        NavigatorStep::Enter(NavigatorMode::PathHistory(_))
    ));
    let path = NavigatorMode::Path(PathMode::new("/a/b".to_string(), String::new()));
    assert!(matches!(on_bind(&path, "chronicler.complete", &entry, None), NavigatorStep::Complete));
    match on_bind(&path, "chronicler.goto.parent", &entry, Some("/a".to_string())) {
        NavigatorStep::Enter(NavigatorMode::Path(m)) => assert_eq!(m.path, "/a"),
        other => panic!("unexpected {:?}", other),
    }
    assert!(matches!(
        on_bind(&path, "chronicler.goto.parent", &entry, Some("/a/b".to_string())),
        NavigatorStep::Stay
    ));
    let history = NavigatorMode::PathHistory(PathHistoryMode::new());
    assert!(matches!(on_bind(&history, "chronicler.complete", &entry, None), NavigatorStep::Complete));
    match on_bind(&history, "chronicler.mode.cmd", &entry, None) {
        NavigatorStep::Enter(NavigatorMode::CmdHistory(m)) => assert!(m.session.is_none()),
        other => panic!("unexpected {:?}", other),
    }
}

#[test]
fn navigator_completion() {
    let dir = CurrentItem::Path { path: "/x/y".to_string(), is_dir: true };
    let file = CurrentItem::Path { path: "/x/f".to_string(), is_dir: false };
    assert!(matches!(complete("~/src", &dir), Completion::FollowQuery));
    assert!(matches!(complete("/tmp", &file), Completion::FollowQuery));
    match complete("y", &dir) {
        Completion::Enter(m) => assert_eq!(m.path, "/x/y"),
        other => panic!("unexpected {:?}", other),
    }
    assert!(matches!(complete("y", &file), Completion::Nothing));
    assert!(matches!(complete("", &CurrentItem::Nothing), Completion::Nothing));
}

#[test]
fn path_collapsing() {
    let parts = |s: &[&str]| s.iter().map(|p| p.to_string()).collect::<Vec<_>>();
    assert_eq!(collapse_path("/a/b/c", &parts(&["/", "a", "b", "c"]), true), "/a/b/c");
    assert_eq!(
        collapse_path("/a/b/c/d/e/f", &parts(&["/", "a", "b", "c", "d", "e", "f"]), true),
        "/…/c/d/e/f"
    );
    assert_eq!(
        collapse_path("~/a/b/c/d/e", &parts(&["~", "a", "b", "c", "d", "e"]), false),
        "~/…/b/c/d/e"
    );
}

#[test]
fn history_timestamps() {
    let forms = [
        "1.5", "-2", "+3.", ".5", "1e10", "1E-3", "2.5e+7", "inf", "-Infinity", "NaN", "iNf",
        "", ".", "e5", "1e", "1e+", "1.2.3", "--1", "1f", "infin", "0x10", " 1", "1..", "+", "5.e3",
    ];
    for form in forms {
        let chars: Vec<char> = form.chars().collect();
        assert_eq!(float_syntax_check(&chars), form.parse::<f64>().is_ok(), "{form:?}");
    }
    let record = HistoryRecord::parse("start_ts\n1700000000.25\x0cend_ts\n1e3").unwrap();
    assert_eq!(record.start_ts.as_deref(), Some("1700000000.25"));
    assert_eq!(record.end_ts.as_deref(), Some("1e3"));
    assert_eq!(
        HistoryRecord::parse("end_ts\nsoon").unwrap_err(),
        HistoryError::InvalidNumber("soon".to_string())
    );
}
