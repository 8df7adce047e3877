use sweep::actions::SweepAction;
use sweep::keys::{Key, KeyMod, KeyName};
use sweep::widgets::{InputAction, ListAction};

#[test]
fn sweep_action_descriptions() {
    let desc = SweepAction::Select.description();
    assert_eq!(desc.name, "sweep.select");
    assert_eq!(desc.description, "Select item pointed by cursor");
    assert_eq!(desc.chords.len(), 3);
    assert_eq!(desc.chords[2], vec![Key { name: KeyName::Enter, mode: KeyMod::empty() }]);

    let desc = SweepAction::SelectByIndex(12).description();
    assert_eq!(desc.name, "sweep.select.12");
    assert_eq!(desc.description, "Select item by index 12");
    assert!(desc.chords.is_empty());

    let desc = SweepAction::MarkAll.description();
    assert_eq!(desc.chords, vec![vec![Key { name: KeyName::Char('m'), mode: KeyMod::alt_shift() }]]);

    let chord = vec![Key { name: KeyName::Char('x'), mode: KeyMod::alt() }];
    let user = SweepAction::User { chord: chord.clone(), tag: "my.tag".to_string(), desc: "mine".to_string() };
    let desc = user.description();
    assert_eq!(desc.chords, vec![chord]);
    assert_eq!(desc.name, "my.tag");
    assert_eq!(desc.description, "mine");

    assert_eq!(SweepAction::ScorerNext.description().name, "sweep.scorer.next");
    assert_eq!(SweepAction::Input(InputAction::DeleteEnd).description().name, "input.delete.end");
    assert_eq!(SweepAction::List(ListAction::End).description().name, "list.end");
}

#[test]
fn sweep_action_all() {
    let all = SweepAction::all();
    assert_eq!(all.len(), 26);
    assert!(matches!(all[0], SweepAction::Select));
    assert!(matches!(all[10], SweepAction::PreviewPagePrev));
    assert!(matches!(all[11], SweepAction::Input(InputAction::CursorForward)));
    assert!(matches!(all[25], SweepAction::List(ListAction::End)));
}
