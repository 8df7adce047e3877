use sweep::actions::SweepAction;
use sweep::finder::{
    BindTarget, FinderEffect, FinderRequest, FinderState, FinderView, MouseDecision,
    RequestEffect, bind_target, hotkey_bindings, initial_row_offset, scorer_index,
};
use sweep::json::JsonValue;
use sweep::keys::{Key, KeyMod, KeyName};
use sweep::marked::{MarkedItems, SweepItemId};
use sweep::widgets::{Input, InputAction, ListAction};

fn item_id(index: usize) -> SweepItemId {
    SweepItemId { haystack_gen: 0, haystack_index: index, rank_gen: 0, rank_index: index }
}

fn fresh_finder() -> FinderState<&'static str> {
    FinderState {
        input: Input::new(),
        cursor: 0,
        marked: MarkedItems::new(),
        show_preview: true,
        preview_row: 0,
        is_help: false,
        prompt: String::new(),
        prompt_icon: None,
        key_empty_backspace: None,
        user_actions: Vec::new(),
    }
}

fn view_of(current: Option<usize>) -> FinderView<&'static str> {
    let names = ["zero", "one", "two"];
    FinderView {
        current: current.map(|i| (item_id(i), names[i])),
        ranked: (0..3).map(|i| (item_id(i), names[i])).collect(),
        by_index: Some("two"),
        list_len: 3,
        list_visible: 2,
        preview: Some((5, 12)),
    }
}

#[test]
fn finder_select_and_mark() {
    let mut finder = fresh_finder();
    // nothing marked: the current item is selected
    match finder.handle(SweepAction::Select, view_of(Some(1))) {
        FinderEffect::Select(items) => assert_eq!(items, vec!["one"]),
        other => panic!("unexpected {:?}", other),
    }
    // marking moves the cursor on
    assert!(matches!(finder.handle(SweepAction::Mark, view_of(Some(0))), FinderEffect::Nothing));
    assert_eq!(finder.cursor, 1);
    assert!(matches!(finder.handle(SweepAction::Mark, view_of(Some(2))), FinderEffect::Nothing));
    match finder.handle(SweepAction::Select, view_of(Some(1))) {
        FinderEffect::Select(items) => assert_eq!(items, vec!["zero", "two"]),
        other => panic!("unexpected {:?}", other),
    }
    assert!(finder.marked.is_empty());
    // mark all, then unmark all
    finder.handle(SweepAction::MarkAll, view_of(None));
    assert_eq!(finder.marked.len(), 3);
    finder.handle(SweepAction::MarkAll, view_of(None));
    assert!(finder.marked.is_empty());
    match finder.handle(SweepAction::SelectByIndex(2), view_of(None)) {
        FinderEffect::Select(items) => assert_eq!(items, vec!["two"]),
        other => panic!("unexpected {:?}", other),
    }
    match finder.handle(SweepAction::Select, view_of(None)) {
        FinderEffect::Select(items) => assert!(items.is_empty()),
        other => panic!("unexpected {:?}", other),
    }
}

#[test]
fn finder_input_list_preview() {
    let mut finder = fresh_finder();
    assert!(matches!(
        finder.handle(SweepAction::Input(InputAction::Insert('x')), view_of(None)),
        FinderEffect::Rerank
    ));
    assert_eq!(finder.input.get(), vec!['x']);
    finder.handle(SweepAction::List(ListAction::End), view_of(None));
    assert_eq!(finder.cursor, 2);
    assert!(matches!(finder.handle(SweepAction::Quit, view_of(None)), FinderEffect::Close));
    assert!(matches!(finder.handle(SweepAction::Help, view_of(None)), FinderEffect::OpenHelp));
    assert!(matches!(
        finder.handle(SweepAction::ScorerNext, view_of(None)),
        FinderEffect::ScorerNext
    ));
    finder.handle(SweepAction::PreviewToggle, view_of(None));
    assert!(!finder.show_preview);
    finder.handle(SweepAction::PreviewPageNext, view_of(None));
    assert_eq!(finder.preview_row, 5);
    finder.handle(SweepAction::PreviewPageNext, view_of(None));
    finder.handle(SweepAction::PreviewPageNext, view_of(None));
    assert_eq!(finder.preview_row, 12);
    finder.handle(SweepAction::PreviewLinePrev, view_of(None));
    assert_eq!(finder.preview_row, 11);
    finder.handle(SweepAction::PreviewPagePrev, view_of(None));
    finder.handle(SweepAction::PreviewPagePrev, view_of(None));
    finder.handle(SweepAction::PreviewPagePrev, view_of(None));
    assert_eq!(finder.preview_row, 0);
    let user = SweepAction::User { chord: Vec::new(), tag: "custom".to_string(), desc: String::new() };
    match finder.handle(user, view_of(None)) {
        FinderEffect::Bind { tag, chord } => {
            assert_eq!(tag, "custom");
            assert!(chord.is_empty());
        }
        other => panic!("unexpected {:?}", other),
    }
    let silent = SweepAction::User { chord: Vec::new(), tag: String::new(), desc: String::new() };
    assert!(matches!(finder.handle(silent, view_of(None)), FinderEffect::Nothing));
}

fn key(name: KeyName, mode: KeyMod) -> Key {
    Key { name, mode }
}

fn names(list: &[&str]) -> Vec<String> {
    list.iter().map(|s| s.to_string()).collect()
}

#[test]
fn finder_bind_targets() {
    let backspace = vec![key(KeyName::Backspace, KeyMod::empty())];
    assert!(matches!(
        bind_target(&backspace, "erase", "", &[]),
        BindTarget::EmptyBackspace(Some(ref t)) if t == "erase"
    ));
    assert!(matches!(bind_target(&backspace, "", "", &[]), BindTarget::EmptyBackspace(None)));
    let ctrl_o = vec![key(KeyName::Char('o'), KeyMod::ctrl())];
    assert!(matches!(bind_target(&ctrl_o, "", "open", &[]), BindTarget::Unbind));
    assert!(matches!(
        bind_target(&ctrl_o, "sweep.select", "", &[]),
        BindTarget::Action(SweepAction::Select)
    ));
    assert!(matches!(
        bind_target(&ctrl_o, "input.page.next", "", &[]),
        BindTarget::Action(SweepAction::List(ListAction::PageNext))
    ));
    assert!(matches!(
        bind_target(&ctrl_o, "input.move.forward", "", &[]),
        BindTarget::Action(SweepAction::Input(InputAction::CursorForward))
    ));
    match bind_target(&ctrl_o, "open", "Open file", &[]) {
        BindTarget::Action(SweepAction::User { chord, tag, desc }) => {
            assert_eq!(chord, ctrl_o);
            assert_eq!(tag, "open");
            assert_eq!(desc, "Open file");
        }
        _ => panic!("expected a user action"),
    }
    // a tag bound before binds its first action
    let ctrl_p = vec![key(KeyName::Char('p'), KeyMod::ctrl())];
    let users = vec![(ctrl_o.clone(), "open".to_string(), "Open file".to_string())];
    match bind_target(&ctrl_p, "open", "other", &users) {
        BindTarget::Action(SweepAction::User { chord, tag, desc }) => {
            assert_eq!(chord, ctrl_o);
            assert_eq!(tag, "open");
            assert_eq!(desc, "Open file");
        }
        _ => panic!("expected a user action"),
    }
}

#[test]
fn finder_scorer_index() {
    let list = names(&["fuzzy", "substr", "fuzzy"]);
    assert_eq!(scorer_index(&list, "fuzzy"), Some(0));
    assert_eq!(scorer_index(&list, "substr"), Some(1));
    assert_eq!(scorer_index(&list, "exact"), None);
    assert_eq!(scorer_index(&[], "fuzzy"), None);
}

#[test]
fn finder_initial_row_offset() {
    // fits below the cursor
    assert_eq!(initial_row_offset(3, 10, 40), (3, 0));
    // scrolled into view
    assert_eq!(initial_row_offset(35, 10, 40), (30, 5));
    // higher than the terminal
    assert_eq!(initial_row_offset(5, 50, 40), (0, 0));
}

#[test]
fn finder_requests() {
    let mut finder = fresh_finder();
    let mut scorers = names(&["fuzzy", "substr"]);
    assert!(matches!(
        finder.request(FinderRequest::NeedleSet("abc".to_string()), &mut scorers),
        RequestEffect::Rerank
    ));
    assert_eq!(finder.input.get(), vec!['a', 'b', 'c']);
    match finder.request(FinderRequest::NeedleGet, &mut scorers) {
        RequestEffect::Needle(text) => assert_eq!(text, vec!['a', 'b', 'c']),
        other => panic!("unexpected {:?}", other),
    }
    let icon = || JsonValue::String("icon".to_string());
    finder.request(FinderRequest::PromptSet(Some("FILES".to_string()), Some(icon())), &mut scorers);
    assert_eq!(finder.prompt, "FILES");
    assert_eq!(finder.prompt_icon, Some(icon()));
    // no prompt given: the prompt stays, the icon goes
    finder.request(FinderRequest::PromptSet(None, None), &mut scorers);
    assert_eq!(finder.prompt, "FILES");
    assert_eq!(finder.prompt_icon, None);
    // scorers: rotate, then pick by name
    assert!(matches!(
        finder.request(FinderRequest::ScorerByName(None), &mut scorers),
        RequestEffect::Scorer(true)
    ));
    assert_eq!(scorers, names(&["substr", "fuzzy"]));
    assert!(matches!(
        finder.request(FinderRequest::ScorerByName(Some("fuzzy".to_string())), &mut scorers),
        RequestEffect::Scorer(true)
    ));
    assert_eq!(scorers, names(&["fuzzy", "substr"]));
    assert!(matches!(
        finder.request(FinderRequest::ScorerByName(Some("exact".to_string())), &mut scorers),
        RequestEffect::Scorer(false)
    ));
    assert_eq!(scorers, names(&["fuzzy", "substr"]));
    assert!(matches!(finder.request(FinderRequest::Current, &mut scorers), RequestEffect::Current));
    // marked items are taken out in the order they were marked
    finder.handle(SweepAction::Mark, view_of(Some(2)));
    finder.handle(SweepAction::Mark, view_of(Some(0)));
    match finder.request(FinderRequest::Marked, &mut scorers) {
        RequestEffect::Marked(items) => assert_eq!(items, vec!["two", "zero"]),
        other => panic!("unexpected {:?}", other),
    }
    assert!(finder.marked.is_empty());
    assert!(matches!(
        finder.request(FinderRequest::CursorSet(7), &mut scorers),
        RequestEffect::ListStart(7)
    ));
    assert_eq!(finder.cursor, 7);
    assert!(finder.show_preview);
    finder.request(FinderRequest::PreviewSet(None), &mut scorers);
    assert!(!finder.show_preview);
    finder.request(FinderRequest::PreviewSet(Some(true)), &mut scorers);
    assert!(finder.show_preview);
    assert!(matches!(
        finder.request(FinderRequest::Terminate, &mut scorers),
        RequestEffect::Terminate
    ));
}

#[test]
fn finder_bind_requests_and_keys() {
    let mut finder = fresh_finder();
    let mut scorers = names(&["fuzzy"]);
    let backspace = key(KeyName::Backspace, KeyMod::empty());
    let bind = |chord: Vec<Key>, tag: &str| FinderRequest::Bind {
        chord,
        tag: tag.to_string(),
        desc: String::new(),
    };
    assert!(matches!(
        finder.request(bind(vec![backspace], "back"), &mut scorers),
        RequestEffect::Nothing
    ));
    assert_eq!(finder.key_empty_backspace.as_deref(), Some("back"));
    // Backspace on an empty input reports the tag
    match finder.key_action(backspace, true, Some(SweepAction::Input(InputAction::DeleteBackward)), None) {
        Some(SweepAction::User { chord, tag, desc }) => {
            assert_eq!(chord, vec![backspace]);
            assert_eq!(tag, "back");
            assert!(desc.is_empty());
        }
        other => panic!("unexpected {:?}", other),
    }
    // Backspace ending a longer chord applies its action
    assert!(matches!(
        finder.key_action(backspace, false, Some(SweepAction::Input(InputAction::DeleteBackward)), None),
        Some(SweepAction::Input(InputAction::DeleteBackward))
    ));
    // a plain character is typed; a key with modifiers and no binding does nothing
    assert!(matches!(
        finder.key_action(key(KeyName::Char('q'), KeyMod::empty()), true, None, None),
        Some(SweepAction::Input(InputAction::Insert('q')))
    ));
    assert!(finder.key_action(key(KeyName::Char('q'), KeyMod::ctrl()), true, None, None).is_none());
    finder.handle(SweepAction::Input(InputAction::Insert('q')), view_of(None));
    // Backspace on a non-empty input applies its action
    assert!(matches!(
        finder.key_action(backspace, true, Some(SweepAction::Input(InputAction::DeleteBackward)), None),
        Some(SweepAction::Input(InputAction::DeleteBackward))
    ));
    // an empty tag on Backspace unsets the tag
    finder.request(bind(vec![backspace], ""), &mut scorers);
    assert!(finder.key_empty_backspace.is_none());
    let ctrl_o = key(KeyName::Char('o'), KeyMod::ctrl());
    match finder.request(bind(vec![ctrl_o], "open"), &mut scorers) {
        RequestEffect::Register(chord, SweepAction::User { tag, .. }) => {
            assert_eq!(chord, vec![ctrl_o]);
            assert_eq!(tag, "open");
        }
        other => panic!("unexpected {:?}", other),
    }
    // the same tag bound again keeps its first action
    let ctrl_p = key(KeyName::Char('p'), KeyMod::ctrl());
    match finder.request(bind(vec![ctrl_p], "open"), &mut scorers) {
        RequestEffect::Register(chord, SweepAction::User { chord: first, tag, .. }) => {
            assert_eq!(chord, vec![ctrl_p]);
            assert_eq!(first, vec![ctrl_o]);
            assert_eq!(tag, "open");
        }
        other => panic!("unexpected {:?}", other),
    }
    assert_eq!(finder.user_actions.len(), 1);
    match finder.request(bind(vec![ctrl_o], "sweep.quit"), &mut scorers) {
        RequestEffect::Register(chord, SweepAction::Quit) => assert_eq!(chord, vec![ctrl_o]),
        other => panic!("unexpected {:?}", other),
    }
    // an empty tag binds the chord to nothing: pressing it does nothing
    match finder.request(bind(vec![ctrl_o], ""), &mut scorers) {
        RequestEffect::Register(chord, action) => {
            assert_eq!(chord, vec![ctrl_o]);
            assert!(matches!(finder.handle(action, view_of(None)), FinderEffect::Nothing));
        }
        other => panic!("unexpected {:?}", other),
    }
}

#[test]
fn finder_hotkeys_and_mouse() {
    let mut finder = fresh_finder();
    let mut scorers = names(&["fuzzy"]);
    let a = key(KeyName::Char('a'), KeyMod::alt());
    let b = key(KeyName::Char('b'), KeyMod::alt());
    let bindings = hotkey_bindings(10, &[Some(vec![a]), None, Some(vec![b])]);
    assert_eq!(bindings.len(), 2);
    assert_eq!(bindings[0].0, vec![a]);
    assert!(matches!(bindings[0].1, SweepAction::SelectByIndex(10)));
    assert_eq!(bindings[1].0, vec![b]);
    assert!(matches!(bindings[1].1, SweepAction::SelectByIndex(12)));
    // a key no chord binds applies the item's hotkey
    assert!(matches!(
        finder.key_action(a, true, None, Some(SweepAction::SelectByIndex(10))),
        Some(SweepAction::SelectByIndex(10))
    ));
    // a chord binding comes first
    assert!(matches!(
        finder.key_action(a, true, Some(SweepAction::Quit), Some(SweepAction::SelectByIndex(10))),
        Some(SweepAction::Quit)
    ));
    let click = key(KeyName::Char('x'), KeyMod::empty());
    assert!(matches!(finder.mouse_action(None, click, false), MouseDecision::Nothing));
    assert!(matches!(
        finder.mouse_action(Some("sweep.select"), click, false),
        MouseDecision::Apply(SweepAction::Select)
    ));
    assert!(matches!(finder.mouse_action(Some("sweep.select"), click, true), MouseDecision::Nothing));
    match finder.mouse_action(Some("sweep.select"), key(KeyName::Char('x'), KeyMod::ctrl()), false) {
        MouseDecision::Report { tag, chord } => {
            assert_eq!(tag, "sweep.select");
            assert_eq!(chord, vec![key(KeyName::Char('x'), KeyMod::ctrl())]);
        }
        other => panic!("unexpected {:?}", other),
    }
    match finder.mouse_action(Some("open"), click, false) {
        MouseDecision::Report { tag, .. } => assert_eq!(tag, "open"),
        other => panic!("unexpected {:?}", other),
    }
    // once bound, a user tag names its action
    finder.request(
        FinderRequest::Bind { chord: vec![a], tag: "open".to_string(), desc: String::new() },
        &mut scorers,
    );
    match finder.mouse_action(Some("open"), click, false) {
        MouseDecision::Apply(SweepAction::User { tag, chord, .. }) => {
            assert_eq!(tag, "open");
            assert_eq!(chord, vec![a]);
        }
        other => panic!("unexpected {:?}", other),
    }
}
