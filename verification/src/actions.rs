//! Actions that keys can be bound to in the finder, and what each of them is.
use vstd::prelude::*;
use crate::keys::{
    ActionDesc, Key, KeyMod, KeyName, desc_view, describe, plain, single_keys, with_alt,
    with_alt_shift, with_ctrl,
};
use crate::text::{chars_of, decimal, decimal_chars, string_from_chars};
use crate::widgets::{InputAction, ListAction, input_action_desc, list_action_desc};

verus! {

/// An action that a key chord can be bound to.
#[derive(Debug, Clone)]
pub enum SweepAction {
    /// a binding of the user: reported back with its tag
    User { chord: Vec<Key>, tag: String, desc: String },
    Select,
    SelectByIndex(usize),
    Mark,
    MarkAll,
    Quit,
    Help,
    ScorerNext,
    PreviewToggle,
    PreviewLineNext,
    PreviewPageNext,
    PreviewLinePrev,
    PreviewPagePrev,
    Input(InputAction),
    List(ListAction),
}

/// Default bindings, name and description of an action.
pub open spec fn sweep_action_desc(a: SweepAction) -> (Seq<Seq<Key>>, Seq<char>, Seq<char>) {
    match a {
        SweepAction::User { chord, tag, desc } => (seq![chord@], tag@, desc@),
        SweepAction::SelectByIndex(index) => (
            seq![],
            "sweep.select."@ + decimal(index as nat),
            "Select item by index "@ + decimal(index as nat),
        ),
        SweepAction::Select => (single_keys(seq![with_ctrl('m'), with_ctrl('j'), plain(KeyName::Enter)]), "sweep.select"@, "Select item pointed by cursor"@),
        SweepAction::Mark => (single_keys(seq![with_alt('m')]), "sweep.mark.current"@, "Mark item pointed by cursor"@),
        SweepAction::MarkAll => (single_keys(seq![with_alt_shift('m')]), "sweep.mark.all"@, "(Un)Mark all filtered items"@),
        SweepAction::Quit => (single_keys(seq![with_ctrl('c'), plain(KeyName::Esc)]), "sweep.quit"@, "Close sweep"@),
        SweepAction::Help => (single_keys(seq![with_ctrl('h')]), "sweep.help"@, "Show help menu"@),
        SweepAction::ScorerNext => (single_keys(seq![with_ctrl('s')]), "sweep.scorer.next"@, "Switch to next available scorer"@),
        SweepAction::PreviewToggle => (single_keys(seq![with_alt('p')]), "sweep.preview.toggle"@, "Toggle preview for an item"@),
        SweepAction::PreviewLineNext => (single_keys(seq![with_alt('j')]), "sweep.preview.line.next"@, "Scroll preview one line down"@),
        SweepAction::PreviewPageNext => (single_keys(seq![with_alt_shift('j')]), "sweep.preview.page.next"@, "Scroll preview one page down"@),
        SweepAction::PreviewLinePrev => (single_keys(seq![with_alt('k')]), "sweep.preview.line.prev"@, "Scroll preview one line up"@),
        SweepAction::PreviewPagePrev => (single_keys(seq![with_alt_shift('k')]), "sweep.preview.page.prev"@, "Scroll preview one page up"@),
        SweepAction::Input(action) => input_action_desc(action),
        SweepAction::List(action) => list_action_desc(action),
    }
}

/// A copy of a chord.
fn copy_keys(keys: &Vec<Key>) -> (r: Vec<Key>)
    ensures
        r@ == keys@,
{
    let mut r: Vec<Key> = Vec::new();
    let mut i: usize = 0;
    while i < keys.len()
        invariant
            0 <= i <= keys@.len(),
            r@ == keys@.take(i as int),
        decreases keys@.len() - i,
    {
        r.push(keys[i]);
        i = i + 1;
        assert(r@ =~= keys@.take(i as int));
    }
    assert(keys@.take(i as int) =~= keys@);
    r
}

/// `prefix` followed by the decimal digits of `n`.
fn with_number(prefix: &str, n: usize) -> (r: String)
    ensures
        r@ == prefix@ + decimal(n as nat),
{
    let mut text = chars_of(prefix);
    let mut digits = decimal_chars(n as u64);
    text.append(&mut digits);
    string_from_chars(text.as_slice())
}

/// The actions that have a default binding, in the order `SweepAction::all` gives them.
pub open spec fn builtin_actions() -> Seq<SweepAction> {
    seq![
        SweepAction::Select,
        SweepAction::Mark,
        SweepAction::MarkAll,
        SweepAction::Quit,
        SweepAction::Help,
        SweepAction::ScorerNext,
        SweepAction::PreviewToggle,
        SweepAction::PreviewLineNext,
        SweepAction::PreviewPageNext,
        SweepAction::PreviewLinePrev,
        SweepAction::PreviewPagePrev,
    ] + InputAction::all_spec().map_values(|a: InputAction| SweepAction::Input(a))
        + ListAction::all_spec().map_values(|a: ListAction| SweepAction::List(a))
}

impl SweepAction {
    /// Default bindings, name and description.
    pub fn description(&self) -> (r: ActionDesc)
        ensures
            desc_view(r) == sweep_action_desc(*self),
    {
        let mut keys: Vec<Key> = Vec::new();
        match self {
            SweepAction::User { chord, tag, desc } => {
                let mut chords: Vec<Vec<Key>> = Vec::new();
                chords.push(copy_keys(chord));
                let r = ActionDesc { chords, name: tag.clone(), description: desc.clone() };
                assert(r.chords@.map_values(|c: Vec<Key>| c@) =~= seq![chord@]);
                r
            },
            SweepAction::SelectByIndex(index) => {
                let r = ActionDesc {
                    chords: Vec::new(),
                    name: with_number("sweep.select.", *index),
                    description: with_number("Select item by index ", *index),
                };
                assert(r.chords@.map_values(|c: Vec<Key>| c@) =~= Seq::<Seq<Key>>::empty());
                r
            },
            SweepAction::Select => {
                keys.push(Key { name: KeyName::Char('m'), mode: KeyMod::ctrl() });
                keys.push(Key { name: KeyName::Char('j'), mode: KeyMod::ctrl() });
                keys.push(Key { name: KeyName::Enter, mode: KeyMod::empty() });
                describe(keys.as_slice(), "sweep.select", "Select item pointed by cursor")
            },
            SweepAction::Mark => {
                keys.push(Key { name: KeyName::Char('m'), mode: KeyMod::alt() });
                describe(keys.as_slice(), "sweep.mark.current", "Mark item pointed by cursor")
            },
            SweepAction::MarkAll => {
                keys.push(Key { name: KeyName::Char('m'), mode: KeyMod::alt_shift() });
                describe(keys.as_slice(), "sweep.mark.all", "(Un)Mark all filtered items")
            },
            SweepAction::Quit => {
                keys.push(Key { name: KeyName::Char('c'), mode: KeyMod::ctrl() });
                keys.push(Key { name: KeyName::Esc, mode: KeyMod::empty() });
                describe(keys.as_slice(), "sweep.quit", "Close sweep")
            },
            SweepAction::Help => {
                keys.push(Key { name: KeyName::Char('h'), mode: KeyMod::ctrl() });
                describe(keys.as_slice(), "sweep.help", "Show help menu")
            },
            SweepAction::ScorerNext => {
                keys.push(Key { name: KeyName::Char('s'), mode: KeyMod::ctrl() });
                describe(keys.as_slice(), "sweep.scorer.next", "Switch to next available scorer")
            },
            SweepAction::PreviewToggle => {
                keys.push(Key { name: KeyName::Char('p'), mode: KeyMod::alt() });
                describe(keys.as_slice(), "sweep.preview.toggle", "Toggle preview for an item")
            },
            SweepAction::PreviewLineNext => {
                keys.push(Key { name: KeyName::Char('j'), mode: KeyMod::alt() });
                describe(keys.as_slice(), "sweep.preview.line.next", "Scroll preview one line down")
            },
            SweepAction::PreviewPageNext => {
                keys.push(Key { name: KeyName::Char('j'), mode: KeyMod::alt_shift() });
                describe(keys.as_slice(), "sweep.preview.page.next", "Scroll preview one page down")
            },
            SweepAction::PreviewLinePrev => {
                keys.push(Key { name: KeyName::Char('k'), mode: KeyMod::alt() });
                describe(keys.as_slice(), "sweep.preview.line.prev", "Scroll preview one line up")
            },
            SweepAction::PreviewPagePrev => {
                keys.push(Key { name: KeyName::Char('k'), mode: KeyMod::alt_shift() });
                describe(keys.as_slice(), "sweep.preview.page.prev", "Scroll preview one page up")
            },
            SweepAction::Input(action) => action.description(),
            SweepAction::List(action) => action.description(),
        }
    }

    /// Every action that has a default binding: the finder's own, then those of the input
    /// line and of the list.
    pub fn all() -> (r: Vec<SweepAction>)
        ensures
            r@ == builtin_actions(),
            r@.len() == 26,
            r@.take(11) == seq![
                SweepAction::Select,
                SweepAction::Mark,
                SweepAction::MarkAll,
                SweepAction::Quit,
                SweepAction::Help,
                SweepAction::ScorerNext,
                SweepAction::PreviewToggle,
                SweepAction::PreviewLineNext,
                SweepAction::PreviewPageNext,
                SweepAction::PreviewLinePrev,
                SweepAction::PreviewPagePrev,
            ],
            forall|i: int|
                0 <= i < 9 ==> r@[11 + i] == SweepAction::Input(InputAction::all_spec()[i]),
            forall|i: int| 0 <= i < 6 ==> r@[20 + i] == SweepAction::List(ListAction::all_spec()[i]),
    {
        let mut r: Vec<SweepAction> = Vec::new();
        r.push(SweepAction::Select);
        r.push(SweepAction::Mark);
        r.push(SweepAction::MarkAll);
        r.push(SweepAction::Quit);
        r.push(SweepAction::Help);
        r.push(SweepAction::ScorerNext);
        r.push(SweepAction::PreviewToggle);
        r.push(SweepAction::PreviewLineNext);
        r.push(SweepAction::PreviewPageNext);
        r.push(SweepAction::PreviewLinePrev);
        r.push(SweepAction::PreviewPagePrev);
        assert(r@ =~= seq![
            SweepAction::Select,
            SweepAction::Mark,
            SweepAction::MarkAll,
            SweepAction::Quit,
            SweepAction::Help,
            SweepAction::ScorerNext,
            SweepAction::PreviewToggle,
            SweepAction::PreviewLineNext,
            SweepAction::PreviewPageNext,
            SweepAction::PreviewLinePrev,
            SweepAction::PreviewPagePrev,
        ]);
        let ghost head = r@;
        let inputs = InputAction::all();
        let mut i: usize = 0;
        while i < inputs.len()
            invariant
                inputs@ == InputAction::all_spec(),
                0 <= i <= 9,
                r@.len() == 11 + i,
                r@.take(11) == head,
                forall|k: int| 0 <= k < i ==> r@[11 + k] == SweepAction::Input(inputs@[k]),
            decreases 9 - i,
        {
            r.push(SweepAction::Input(inputs[i]));
            i = i + 1;
            assert(r@.take(11) =~= head);
        }
        let lists = ListAction::all();
        let mut j: usize = 0;
        while j < lists.len()
            invariant
                lists@ == ListAction::all_spec(),
                inputs@ == InputAction::all_spec(),
                0 <= j <= 6,
                r@.len() == 20 + j,
                r@.take(11) == head,
                forall|k: int| 0 <= k < 9 ==> r@[11 + k] == SweepAction::Input(inputs@[k]),
                forall|k: int| 0 <= k < j ==> r@[20 + k] == SweepAction::List(lists@[k]),
            decreases 6 - j,
        {
            r.push(SweepAction::List(lists[j]));
            j = j + 1;
            assert(r@.take(11) =~= head);
        }
        assert(r@ =~= builtin_actions());
        r
    }
}

} // verus!
