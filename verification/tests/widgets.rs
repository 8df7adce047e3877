use sweep::keys::{Key, KeyMod, KeyName};
use sweep::widgets::{
    input_fix_offset, list_offset_fix, input_key, is_word_separator, list_apply, list_key, list_layout, list_layout_start, Input,
    InputAction, ListAction,
};

fn text(input: &Input) -> String {
    input.get().into_iter().collect()
}

#[test]
fn input_insert_and_move() {
    let mut input = Input::new();
    for c in "hello world".chars() {
        input.apply(&InputAction::Insert(c));
    }
    assert_eq!(text(&input), "hello world");
    input.apply(&InputAction::CursorPrevWord);
    input.apply(&InputAction::Insert('_'));
    assert_eq!(text(&input), "hello _world");
    input.apply(&InputAction::CursorStart);
    input.apply(&InputAction::DeleteForward);
    assert_eq!(text(&input), "ello _world");
    input.apply(&InputAction::CursorNextWord);
    input.apply(&InputAction::DeleteEnd);
    assert_eq!(text(&input), "ello");
    input.apply(&InputAction::DeleteBackward);
    assert_eq!(text(&input), "ell");
    input.apply(&InputAction::CursorBackward);
    input.apply(&InputAction::CursorForward);
    input.apply(&InputAction::CursorEnd);
    input.apply(&InputAction::Insert('!'));
    assert_eq!(text(&input), "ell!");
}

#[test]
fn input_paste_set() {
    let mut input = Input::new();
    input.set(&['a', 'b']);
    input.apply(&InputAction::CursorBackward);
    input.paste(&['x', 'y']);
    assert_eq!(text(&input), "axyb");
    input.apply(&InputAction::DeleteBackward);
    input.apply(&InputAction::Insert('y'));
    assert_eq!(text(&input), "axyb");
}

#[test]
fn input_edges() {
    let mut input = Input::new();
    input.apply(&InputAction::DeleteBackward);
    input.apply(&InputAction::DeleteForward);
    input.apply(&InputAction::CursorBackward);
    input.apply(&InputAction::CursorNextWord);
    assert_eq!(text(&input), "");
    assert!(is_word_separator(' '));
    assert!(is_word_separator('/'));
    assert!(!is_word_separator('a'));
}

#[test]
fn list_moves() {
    assert_eq!(list_apply(0, ListAction::ItemNext, 3, 2), (1, false));
    assert_eq!(list_apply(2, ListAction::ItemNext, 3, 2), (2, false));
    assert_eq!(list_apply(0, ListAction::ItemPrev, 3, 2), (0, false));
    assert_eq!(list_apply(0, ListAction::PageNext, 10, 4), (4, false));
    assert_eq!(list_apply(3, ListAction::PagePrev, 10, 4), (3, false));
    assert_eq!(list_apply(5, ListAction::PagePrev, 10, 4), (1, false));
    assert_eq!(list_apply(5, ListAction::Home, 10, 4), (0, true));
    assert_eq!(list_apply(5, ListAction::End, 10, 4), (9, false));
    assert_eq!(list_apply(5, ListAction::ItemNext, 0, 4), (0, false));
    assert_eq!(list_apply(0, ListAction::PageNext, 10, 0), (1, false));
}

#[test]
fn action_descriptions() {
    let desc = InputAction::CursorEnd.description();
    assert_eq!(desc.name, "input.move.end");
    assert_eq!(desc.description, "Move cursor to the end of the input");
    assert_eq!(desc.chords, vec![vec![Key { name: KeyName::Char('e'), mode: KeyMod::ctrl() }]]);
    assert!(InputAction::Insert('x').description().chords.is_empty());
    let desc = ListAction::ItemNext.description();
    assert_eq!(desc.name, "list.item.next");
    assert_eq!(
        desc.chords,
        vec![
            vec![Key { name: KeyName::Down, mode: KeyMod::empty() }],
            vec![Key { name: KeyName::Char('n'), mode: KeyMod::ctrl() }],
        ]
    );
    assert_eq!(InputAction::all().len(), 9);
    assert_eq!(ListAction::all(), vec![
        ListAction::ItemNext,
        ListAction::ItemPrev,
        ListAction::PageNext,
        ListAction::PagePrev,
        ListAction::Home,
        ListAction::End,
    ]);
}

#[test]
fn list_layout_offsets() {
    // sixty one-row items in eight rows, cursor on the item 21
    let start = list_layout_start(0, 21, 60, 8);
    assert_eq!(start, 14);
    // the item that does not fit any more is laid out and counted
    assert_eq!(list_layout(0, 21, 60, 8, &[1; 16]), (14, 9));
    // the same list in five rows
    assert_eq!(list_layout_start(14, 21, 60, 5), 17);
    assert_eq!(list_layout(14, 21, 60, 5, &[1; 10]), (17, 6));
    // an item of four rows among one-row items, in five rows
    assert_eq!(list_layout(0, 0, 4, 5, &[1, 1, 4, 1]), (0, 3));
    assert_eq!(list_layout(0, 2, 4, 5, &[1, 1, 4, 1]), (1, 3));
    assert_eq!(list_layout(1, 3, 4, 5, &[1, 1, 4, 1]), (2, 2));
    // an item taller than the list stays alone
    assert_eq!(list_layout(0, 1, 3, 5, &[1, 7, 1]), (1, 2));
    assert_eq!(list_layout(0, 0, 0, 5, &[]), (0, 0));
}

#[test]
fn keys_to_actions() {
    let plain = |name| Key { name, mode: KeyMod::empty() };
    assert_eq!(input_key(plain(KeyName::Char('x'))), Some(InputAction::Insert('x')));
    assert_eq!(input_key(plain(KeyName::Backspace)), Some(InputAction::DeleteBackward));
    assert_eq!(input_key(Key { name: KeyName::Char('a'), mode: KeyMod::ctrl() }), Some(InputAction::CursorStart));
    assert_eq!(input_key(Key { name: KeyName::Char('b'), mode: KeyMod::alt() }), Some(InputAction::CursorPrevWord));
    assert_eq!(input_key(Key { name: KeyName::Char('z'), mode: KeyMod::ctrl() }), None);
    assert_eq!(input_key(plain(KeyName::Up)), None);
    assert_eq!(list_key(plain(KeyName::Up)), Some(ListAction::ItemPrev));
    assert_eq!(list_key(Key { name: KeyName::Char('n'), mode: KeyMod::ctrl() }), Some(ListAction::ItemNext));
    assert_eq!(list_key(plain(KeyName::Char('n'))), None);
    let mut input = Input::new();
    input.handle(plain(KeyName::Char('h')));
    input.handle(plain(KeyName::Char('i')));
    input.handle(Key { name: KeyName::Char('a'), mode: KeyMod::ctrl() });
    input.handle(plain(KeyName::Delete));
    assert_eq!(text(&input), "i");
}

#[test]
fn offsets_follow_cursor() {
    // input: width 4, cursor at column 10 scrolls to show it last
    assert_eq!(input_fix_offset(0, 10, 4), 7);
    assert_eq!(input_fix_offset(8, 10, 4), 8);
    assert_eq!(input_fix_offset(12, 10, 4), 10);
    // list: height 3
    assert_eq!(list_offset_fix(0, 5, 3), 3);
    assert_eq!(list_offset_fix(4, 5, 3), 4);
    assert_eq!(list_offset_fix(6, 5, 3), 5);
    assert_eq!(list_offset_fix(2, 9, 0), 2);
}

#[test]
fn list_page_action_names() {
    assert_eq!(ListAction::PageNext.description().name, "input.page.next");
    assert_eq!(ListAction::PagePrev.description().name, "input.page.prev");
    assert_eq!(ListAction::ItemNext.description().name, "list.item.next");
}

#[test]
fn list_layout_without_rows() {
    // a list of no rows shows nothing and keeps where it starts
    assert_eq!(list_layout(5, 2, 10, 0, &[]), (5, 0));
    assert_eq!(list_layout_start(5, 2, 10, 0), 2);
    assert_eq!(list_layout_start(1, 4, 10, 0), 1);
}
