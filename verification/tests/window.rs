use sweep::window::{
    parse_window_id, CloseOutcome, OpenOutcome, SwitchOutcome, WindowAction, WindowEvent,
    WindowId, WindowStack, WindowStep,
};

fn uids(stack: &WindowStack<&'static str>) -> Vec<WindowId> {
    (0..stack.len()).map(|i| stack.uid(i).clone()).collect()
}

#[test]
fn window_ids() {
    assert_eq!(parse_window_id(""), Ok(None));
    assert_eq!(parse_window_id("42"), Ok(Some(WindowId::Number(42))));
    assert_eq!(parse_window_id("+7"), Ok(Some(WindowId::Number(7))));
    assert_eq!(parse_window_id("main"), Ok(Some(WindowId::String("main".to_string()))));
    assert_eq!(
        parse_window_id("18446744073709551616"),
        Ok(Some(WindowId::String("18446744073709551616".to_string())))
    );
    assert_eq!(
        WindowId::Number(12).with_suffix("help"),
        WindowId::String("12/help".to_string())
    );
    assert_eq!(
        WindowId::String("w".to_string()).with_suffix("x"),
        WindowId::String("w/x".to_string())
    );
    assert!(WindowId::from(3u64).same(&WindowId::Number(3)));
    assert!(!WindowId::from("3".to_string()).same(&WindowId::Number(3)));
}

#[test]
fn window_stack_open_close() {
    let mut stack: WindowStack<&'static str> = WindowStack::new();
    match stack.close(None) {
        CloseOutcome::Quit => {}
        _ => panic!("expected quit"),
    }
    match stack.open(WindowId::Number(1), "one", false) {
        OpenOutcome::Opened { closed, from } => {
            assert!(closed.is_none());
            assert!(from.is_none());
        }
        OpenOutcome::Exists => panic!("new window"),
    }
    match stack.open(WindowId::Number(2), "two", false) {
        OpenOutcome::Opened { closed, from } => {
            assert!(closed.is_none());
            assert_eq!(from, Some(WindowId::Number(1)));
        }
        OpenOutcome::Exists => panic!("new window"),
    }
    assert!(matches!(stack.open(WindowId::Number(1), "again", false), OpenOutcome::Exists));
    assert_eq!(uids(&stack), vec![WindowId::Number(1), WindowId::Number(2)]);
    assert_eq!(*stack.get(1), "two");

    match stack.close(Some(WindowId::Number(1))) {
        CloseOutcome::Closed { uid, window, resume } => {
            assert_eq!(uid, WindowId::Number(1));
            assert_eq!(window, "one");
            assert!(!resume);
        }
        _ => panic!("expected closed"),
    }
    assert!(matches!(stack.close(Some(WindowId::Number(9))), CloseOutcome::NotFound));
    match stack.open(WindowId::Number(3), "three", true) {
        OpenOutcome::Opened { closed, from } => {
            assert_eq!(closed, Some((WindowId::Number(2), "two")));
            assert_eq!(from, Some(WindowId::Number(2)));
        }
        OpenOutcome::Exists => panic!("new window"),
    }
    assert_eq!(uids(&stack), vec![WindowId::Number(3)]);
    *stack.get_mut(0) = "changed";
    assert_eq!(*stack.get(0), "changed");
}

#[test]
fn window_stack_switch() {
    let mut stack: WindowStack<&'static str> = WindowStack::new();
    for (i, name) in ["a", "b", "c", "d"].into_iter().enumerate() {
        stack.open(WindowId::Number(i as u64), name, false);
    }
    assert!(matches!(stack.switch(&WindowId::Number(3), false), SwitchOutcome::Nothing));
    assert!(matches!(stack.switch(&WindowId::Number(7), false), SwitchOutcome::Nothing));
    match stack.switch(&WindowId::Number(1), false) {
        SwitchOutcome::Switched { from, closed } => {
            assert_eq!(from, WindowId::Number(3));
            assert!(closed.is_none());
        }
        SwitchOutcome::Nothing => panic!("expected switch"),
    }
    assert_eq!(
        uids(&stack),
        vec![WindowId::Number(0), WindowId::Number(3), WindowId::Number(2), WindowId::Number(1)]
    );
    match stack.switch(&WindowId::Number(2), true) {
        SwitchOutcome::Switched { from, closed } => {
            assert_eq!(from, WindowId::Number(1));
            assert_eq!(closed, Some((WindowId::Number(1), "b")));
        }
        SwitchOutcome::Nothing => panic!("expected switch"),
    }
    assert_eq!(uids(&stack), vec![WindowId::Number(0), WindowId::Number(3), WindowId::Number(2)]);
    match stack.close(None) {
        CloseOutcome::Closed { uid, resume, .. } => {
            assert_eq!(uid, WindowId::Number(2));
            assert!(resume);
        }
        _ => panic!("expected closed"),
    }
    assert_eq!(stack.position(&WindowId::Number(3)), Some(1));
    assert_eq!(stack.position(&WindowId::Number(2)), None);
}

fn name(text: &str) -> WindowId {
    WindowId::String(text.to_string())
}

fn event_names(events: &[WindowEvent]) -> Vec<String> {
    events
        .iter()
        .map(|event| match event {
            WindowEvent::Closed(WindowId::String(u)) => format!("closed {u}"),
            WindowEvent::Opened(WindowId::String(u)) => format!("opened {u}"),
            other => format!("{other:?}"),
        })
        .collect()
}

#[test]
fn window_steps() {
    let mut stack: WindowStack<&'static str> = WindowStack::new();
    // closing with no window left stops
    assert!(matches!(stack.step::<u8>(WindowAction::Close(None)), WindowStep::Stop));
    assert!(matches!(stack.step::<u8>(WindowAction::Quit), WindowStep::Stop));
    assert!(matches!(stack.step::<u8>(WindowAction::Nothing), WindowStep::Wait));
    match stack.step::<u8>(WindowAction::Open { uid: name("a"), window: "A", close: false }) {
        WindowStep::Changed { events, resume: Some((None, None)), closed: None } => {
            assert_eq!(event_names(&events), vec!["opened a"]);
        }
        _ => panic!("unexpected step"),
    }
    match stack.step::<u8>(WindowAction::Open { uid: name("b"), window: "B", close: false }) {
        WindowStep::Changed { events, resume: Some((None, Some(from))), closed: None } => {
            assert_eq!(event_names(&events), vec!["opened b"]);
            assert_eq!(from, name("a"));
        }
        _ => panic!("unexpected step"),
    }
    // opening a window that is open switches to it
    match stack.step::<u8>(WindowAction::Open { uid: name("a"), window: "A2", close: true }) {
        WindowStep::Next(WindowAction::Switch { uid, args: None, close: false }) => {
            assert_eq!(uid, name("a"));
        }
        _ => panic!("unexpected step"),
    }
    match stack.step(WindowAction::Switch { uid: name("a"), args: Some(7u8), close: false }) {
        WindowStep::Changed { events, resume: Some((Some(7), Some(from))), closed: None } => {
            assert!(events.is_empty());
            assert_eq!(from, name("b"));
        }
        _ => panic!("unexpected step"),
    }
    assert_eq!(uids(&stack), vec![name("b"), name("a")]);
    // switching to the active window does nothing
    assert!(matches!(
        stack.step(WindowAction::Switch { uid: name("a"), args: Some(1u8), close: false }),
        WindowStep::Wait
    ));
    // closing the active window resumes the one below
    match stack.step::<u8>(WindowAction::Close(None)) {
        WindowStep::Changed { events, resume: Some((None, Some(from))), closed: Some("A") } => {
            assert_eq!(event_names(&events), vec!["closed a"]);
            assert_eq!(from, name("a"));
        }
        _ => panic!("unexpected step"),
    }
    assert!(matches!(stack.step::<u8>(WindowAction::Close(Some(name("x")))), WindowStep::Wait));
}
