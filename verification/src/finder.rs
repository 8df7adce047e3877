//! What an action does to the finder window: its input, its list cursor, its marked items
//! and its preview, and what it asks of the program around it.
use vstd::prelude::*;
use crate::actions::{SweepAction, builtin_actions, sweep_action_desc};
use crate::json::JsonValue;
use crate::keys::{Key, KeyMod, KeyName, plain};
use crate::text::{chars_of, text_is};
use crate::marked::{MarkedItems, SweepItemId, marked_toggle};
use crate::widgets::{Input, InputAction, ListAction, input_apply_spec, list_apply, list_apply_spec};

verus! {

/// The state of a finder window that its actions change.
pub struct FinderState<H> {
    pub input: Input,
    /// Position of the cursor in the list.
    pub cursor: usize,
    pub marked: MarkedItems<H>,
    pub show_preview: bool,
    /// First row of the large preview that is shown.
    pub preview_row: usize,
    /// Whether the window is the help window.
    pub is_help: bool,
    /// The text before the input.
    pub prompt: String,
    /// The icon before the input, as given, for the terminal library to draw.
    pub prompt_icon: Option<JsonValue>,
    /// The tag reported when Backspace is pressed on an empty input, if any.
    pub key_empty_backspace: Option<String>,
    /// The user actions bound so far, by chord, tag and description; a tag bound again
    /// binds the first action of that tag.
    pub user_actions: Vec<(Vec<Key>, String, String)>,
}

/// User actions as plain values.
pub open spec fn users_view(us: Seq<(Vec<Key>, String, String)>) -> Seq<(Seq<Key>, Seq<char>, Seq<char>)> {
    us.map_values(|u: (Vec<Key>, String, String)| (u.0@, u.1@, u.2@))
}

/// Whether `i` is the first of the user actions with this tag.
pub open spec fn first_user(users: Seq<(Seq<Key>, Seq<char>, Seq<char>)>, tag: Seq<char>, i: int) -> bool {
    &&& 0 <= i < users.len()
    &&& users[i].1 == tag
    &&& forall|j: int| 0 <= j < i ==> users[j].1 != tag
}

/// The first of the user actions with this tag.
pub open spec fn user_named(users: Seq<(Seq<Key>, Seq<char>, Seq<char>)>, tag: Seq<char>) -> Option<(Seq<Key>, Seq<char>, Seq<char>)> {
    if exists|i: int| first_user(users, tag, i) {
        Some(users[choose|i: int| first_user(users, tag, i)])
    } else {
        None
    }
}

proof fn lemma_user_named(users: Seq<(Seq<Key>, Seq<char>, Seq<char>)>, tag: Seq<char>, i: int)
    requires
        first_user(users, tag, i),
    ensures
        user_named(users, tag) == Some(users[i]),
{
    let k = choose|k: int| first_user(users, tag, k);
    assert(first_user(users, tag, k));
    if k < i {
        assert(users[k].1 != tag);
    } else if k > i {
        assert(users[i].1 != tag);
    }
}

/// What the window shows when an action comes: the item under the cursor, the ranked items
/// (in rank order), the item at the index a selection by index names, the length of the list
/// and the number of items it shows, and, where a large preview is shown, its page height and
/// the height of its content.
pub struct FinderView<H> {
    pub current: Option<(SweepItemId, H)>,
    pub ranked: Vec<(SweepItemId, H)>,
    pub by_index: Option<H>,
    pub list_len: usize,
    pub list_visible: usize,
    pub preview: Option<(usize, usize)>,
}

/// What an action asks of the program around the window.
#[derive(Debug)]
pub enum FinderEffect<H> {
    Nothing,
    /// The input changed: rank the items again.
    Rerank,
    /// Report the user binding with this tag and chord.
    Bind { tag: String, chord: Vec<Key> },
    /// Close the window.
    Close,
    /// Report these items as selected.
    Select(Vec<H>),
    /// Open the help window.
    OpenHelp,
    /// Rank with the next scorer.
    ScorerNext,
}

/// The marked items after toggling each of `items` in order.
pub open spec fn toggle_all<H>(s: Seq<(usize, H)>, items: Seq<(SweepItemId, H)>) -> Seq<(usize, H)>
    decreases items.len(),
{
    if items.len() == 0 {
        s
    } else {
        marked_toggle(
            toggle_all(s, items.drop_last()),
            items.last().0.haystack_index,
            items.last().1,
        )
    }
}

/// The first preview row after scrolling down by `delta`: at most the content height.
pub open spec fn scroll_down(row: int, delta: int, size: int) -> int {
    if row + delta < size {
        row + delta
    } else {
        size
    }
}

/// The first preview row after scrolling up by `delta`: at least zero.
pub open spec fn scroll_up(row: int, delta: int) -> int {
    if row > delta {
        row - delta
    } else {
        0
    }
}

/// The preview scrolls by a page for the page actions and by a line otherwise.
pub open spec fn scroll_delta(action: SweepAction, height: usize) -> int {
    match action {
        SweepAction::PreviewPageNext => height as int,
        SweepAction::PreviewPagePrev => height as int,
        _ => 1,
    }
}

/// The items of a selection: the marked ones where there are any (in the order they were
/// marked), else the one under the cursor, if any.
pub open spec fn selected_items<H>(marked: Seq<(usize, H)>, current: Option<(SweepItemId, H)>) -> Seq<H> {
    if marked.len() > 0 {
        marked.map_values(|e: (usize, H)| e.1)
    } else {
        match current {
            Some(c) => seq![c.1],
            None => Seq::empty(),
        }
    }
}

/// The list actions that a state and view can take without running out of numbers.
pub open spec fn list_action_fits(cursor: usize, action: ListAction, len: usize, visible: usize) -> bool {
    &&& !(action == ListAction::End && len == 0)
    &&& action == ListAction::ItemNext ==> cursor < usize::MAX
    &&& action == ListAction::PageNext ==> cursor + (if visible > 1 {
        visible
    } else {
        1
    }) <= usize::MAX
}

impl<H> FinderState<H> {
    /// Applies an action, and says what the program around the window is to do.
    pub fn handle(&mut self, action: SweepAction, view: FinderView<H>) -> (effect: FinderEffect<H>)
        requires
            old(self).marked.wf(),
            action matches SweepAction::List(a) ==> list_action_fits(
                old(self).cursor,
                a,
                view.list_len,
                view.list_visible,
            ),
            action is Mark && view.current is Some ==> list_action_fits(
                old(self).cursor,
                ListAction::ItemNext,
                view.list_len,
                view.list_visible,
            ),
        ensures
            final(self).marked.wf(),
            final(self).is_help == old(self).is_help,
            final(self).prompt == old(self).prompt,
            final(self).prompt_icon == old(self).prompt_icon,
            final(self).key_empty_backspace == old(self).key_empty_backspace,
            final(self).user_actions == old(self).user_actions,
            action is Input ==> effect is Rerank,
            !(action is Input) ==> final(self).input.text() == old(self).input.text()
                && final(self).input.cursor() == old(self).input.cursor(),
            !(action is List || (action is Mark && view.current is Some)) ==> final(self).cursor
                == old(self).cursor,
            !(action is Select || action is Mark || action is MarkAll) ==> final(self).marked@
                == old(self).marked@,
            !(action is PreviewToggle) ==> final(self).show_preview == old(self).show_preview,
            !(action is PreviewLineNext || action is PreviewPageNext || action is PreviewLinePrev
                || action is PreviewPagePrev) ==> final(self).preview_row == old(self).preview_row,
            match action {
                SweepAction::Input(a) => (final(self).input.text(), final(self).input.cursor())
                    == input_apply_spec(old(self).input.text(), old(self).input.cursor(), a),
                SweepAction::List(a) => {
                    &&& effect is Nothing
                    &&& final(self).cursor == list_apply_spec(
                        old(self).cursor as int,
                        a,
                        view.list_len as int,
                        view.list_visible as int,
                    )
                },
                SweepAction::User { chord, tag, .. } => if tag@.len() > 0 {
                    effect == FinderEffect::<H>::Bind { tag, chord }
                } else {
                    effect is Nothing
                },
                SweepAction::Quit => effect is Close,
                SweepAction::Select => {
                    &&& (effect matches FinderEffect::Select(items) && items@ == selected_items(
                        old(self).marked@,
                        view.current,
                    ))
                    &&& final(self).marked@ == Seq::<(usize, H)>::empty()
                },
                SweepAction::SelectByIndex(_) => match view.by_index {
                    Some(h) => effect matches FinderEffect::Select(items) && items@ == seq![h],
                    None => effect is Nothing,
                },
                SweepAction::Mark => {
                    &&& effect is Nothing
                    &&& match view.current {
                        Some(c) => {
                            &&& final(self).marked@ == marked_toggle(
                                old(self).marked@,
                                c.0.haystack_index,
                                c.1,
                            )
                            &&& final(self).cursor == list_apply_spec(
                                old(self).cursor as int,
                                ListAction::ItemNext,
                                view.list_len as int,
                                view.list_visible as int,
                            )
                        },
                        None => final(self).marked@ == old(self).marked@,
                    }
                },
                SweepAction::MarkAll => {
                    &&& effect is Nothing
                    &&& final(self).marked@ == if old(self).marked@.len() == 0 {
                        toggle_all(old(self).marked@, view.ranked@)
                    } else {
                        Seq::<(usize, H)>::empty()
                    }
                },
                SweepAction::Help => if old(self).is_help {
                    effect is Nothing
                } else {
                    effect is OpenHelp
                },
                SweepAction::ScorerNext => effect is ScorerNext,
                SweepAction::PreviewToggle => effect is Nothing && final(self).show_preview
                    == !old(self).show_preview,
                SweepAction::PreviewLineNext | SweepAction::PreviewPageNext => {
                    &&& effect is Nothing
                    &&& final(self).preview_row == match view.preview {
                        Some(p) => scroll_down(
                            old(self).preview_row as int,
                            scroll_delta(action, p.0),
                            p.1 as int,
                        ),
                        None => old(self).preview_row as int,
                    }
                },
                SweepAction::PreviewLinePrev | SweepAction::PreviewPagePrev => {
                    &&& effect is Nothing
                    &&& final(self).preview_row == match view.preview {
                        Some(p) => scroll_up(old(self).preview_row as int, scroll_delta(action, p.0)),
                        None => old(self).preview_row as int,
                    }
                },
            },
    {
        let page = matches!(action, SweepAction::PreviewPageNext | SweepAction::PreviewPagePrev);
        match action {
            SweepAction::Input(a) => {
                self.input.apply(&a);
                FinderEffect::Rerank
            },
            SweepAction::List(a) => {
                let (cursor, _) = list_apply(self.cursor, a, view.list_len, view.list_visible);
                self.cursor = cursor;
                FinderEffect::Nothing
            },
            SweepAction::User { chord, tag, .. } => {
                if !tag.as_str().is_empty() {
                    FinderEffect::Bind { tag, chord }
                } else {
                    FinderEffect::Nothing
                }
            },
            SweepAction::Quit => FinderEffect::Close,
            SweepAction::Select => {
                if !self.marked.is_empty() {
                    let items = self.marked.take();
                    FinderEffect::Select(items)
                } else {
                    let mut items: Vec<H> = Vec::new();
                    match view.current {
                        Some((_, h)) => items.push(h),
                        None => {},
                    }
                    assert(items@ =~= selected_items(old(self).marked@, view.current));
                    FinderEffect::Select(items)
                }
            },
            SweepAction::SelectByIndex(_) => match view.by_index {
                Some(h) => {
                    let mut items: Vec<H> = Vec::new();
                    items.push(h);
                    assert(items@ =~= seq![h]);
                    FinderEffect::Select(items)
                },
                None => FinderEffect::Nothing,
            },
            SweepAction::Mark => {
                match view.current {
                    Some((id, h)) => {
                        self.marked.toggle(id, h);
                        let (cursor, _) = list_apply(
                            self.cursor,
                            ListAction::ItemNext,
                            view.list_len,
                            view.list_visible,
                        );
                        self.cursor = cursor;
                    },
                    None => {},
                }
                FinderEffect::Nothing
            },
            SweepAction::MarkAll => {
                if self.marked.is_empty() {
                    let ghost start = self.marked@;
                    let ghost all = view.ranked@;
                    let ghost mut i: int = 0;
                    let mut rest = view.ranked;
                    proof {
                        assert(all.take(0) =~= Seq::<(SweepItemId, H)>::empty());
                    }
                    while rest.len() > 0
                        invariant
                            0 <= i <= all.len(),
                            rest@ == all.skip(i),
                            self.marked.wf(),
                            self.marked@ == toggle_all(start, all.take(i)),
                            self.input == old(self).input,
                            self.cursor == old(self).cursor,
                            self.show_preview == old(self).show_preview,
                            self.preview_row == old(self).preview_row,
                            self.is_help == old(self).is_help,
                            self.prompt == old(self).prompt,
                            self.prompt_icon == old(self).prompt_icon,
                            self.key_empty_backspace == old(self).key_empty_backspace,
                            self.user_actions == old(self).user_actions,
                        decreases rest@.len(),
                    {
                        let (id, h) = rest.remove(0);
                        proof {
                            assert(all.take(i + 1).drop_last() =~= all.take(i));
                            assert(all.skip(i)[0] == all[i]);
                            assert(all.skip(i + 1) =~= all.skip(i).remove(0));
                        }
                        self.marked.toggle(id, h);
                        proof {
                            i = i + 1;
                        }
                    }
                    proof {
                        assert(all.take(i) =~= all);
                    }
                } else {
                    let _ = self.marked.take();
                }
                FinderEffect::Nothing
            },
            SweepAction::Help => if self.is_help {
                FinderEffect::Nothing
            } else {
                FinderEffect::OpenHelp
            },
            SweepAction::ScorerNext => FinderEffect::ScorerNext,
            SweepAction::PreviewToggle => {
                self.show_preview = !self.show_preview;
                FinderEffect::Nothing
            },
            SweepAction::PreviewLineNext | SweepAction::PreviewPageNext => {
                match view.preview {
                    Some((height, size)) => {
                        let delta = if page {
                            height
                        } else {
                            1
                        };
                        let row = self.preview_row;
                        self.preview_row = if row < size && delta < size - row {
                            row + delta
                        } else {
                            size
                        };
                    },
                    None => {},
                }
                FinderEffect::Nothing
            },
            SweepAction::PreviewLinePrev | SweepAction::PreviewPagePrev => {
                match view.preview {
                    Some((height, _)) => {
                        let delta = if page {
                            height
                        } else {
                            1
                        };
                        let row = self.preview_row;
                        self.preview_row = if row > delta {
                            row - delta
                        } else {
                            0
                        };
                    },
                    None => {},
                }
                FinderEffect::Nothing
            },
        }
    }
}

/// Ranked items of distinct indices.
pub open spec fn distinct_items<H>(items: Seq<(SweepItemId, H)>) -> bool {
    forall|a: int, b: int|
        0 <= a < b < items.len() ==> (#[trigger] items[a]).0.haystack_index != (
        #[trigger] items[b]).0.haystack_index
}

/// Marking all items when none is marked marks each ranked item once, in rank order.
pub proof fn law_mark_all<H>(items: Seq<(SweepItemId, H)>)
    requires
        distinct_items(items),
    ensures
        toggle_all(Seq::<(usize, H)>::empty(), items) == items.map_values(
            |e: (SweepItemId, H)| (e.0.haystack_index, e.1),
        ),
    decreases items.len(),
{
    if items.len() > 0 {
        let d = items.drop_last();
        assert forall|a: int, b: int| 0 <= a < b < d.len() implies (#[trigger] d[a]).0.haystack_index
            != (#[trigger] d[b]).0.haystack_index by {
            assert(d[a] == items[a] && d[b] == items[b]);
        }
        law_mark_all(d);
        let prev = toggle_all(Seq::<(usize, H)>::empty(), d);
        let last = items.last();
        assert(prev == d.map_values(|e: (SweepItemId, H)| (e.0.haystack_index, e.1)));
        assert(!crate::marked::marked_indices(prev).contains(last.0.haystack_index)) by {
            if crate::marked::marked_indices(prev).contains(last.0.haystack_index) {
                let j = choose|j: int|
                    0 <= j < crate::marked::marked_indices(prev).len()
                        && crate::marked::marked_indices(prev)[j] == last.0.haystack_index;
                assert(prev[j].0 == d[j].0.haystack_index);
                assert(d[j] == items[j]);
                assert(items[j].0.haystack_index != items[items.len() - 1].0.haystack_index);
            }
        }
        assert(items.map_values(|e: (SweepItemId, H)| (e.0.haystack_index, e.1)) =~= prev.push(
            (last.0.haystack_index, last.1),
        ));
    } else {
        assert(items.map_values(|e: (SweepItemId, H)| (e.0.haystack_index, e.1)) =~= Seq::<
            (usize, H),
        >::empty());
    }
}

// ---------------------------------------------------------------------------------------
// Requests from the program around the window
// ---------------------------------------------------------------------------------------
/// What the program around the window asks of it.
pub enum FinderRequest {
    /// Set the input text.
    NeedleSet(String),
    /// Tell the input text.
    NeedleGet,
    /// Set the prompt, where one is given, and the prompt icon.
    PromptSet(Option<String>, Option<JsonValue>),
    /// Bind a chord to the action named `tag`; an empty tag unbinds it.
    Bind { chord: Vec<Key>, tag: String, desc: String },
    /// Tell the item under the cursor.
    Current,
    /// Take the marked items out and tell them.
    Marked,
    /// Put the cursor, and the first item shown, at this position.
    CursorSet(usize),
    /// Show the preview or not; with none given, toggle it.
    PreviewSet(Option<bool>),
    /// Rank with the scorer of this name, or with the next one.
    ScorerByName(Option<String>),
    /// Close the finder.
    Terminate,
}

/// What a request asks of the program around the window.
#[derive(Debug)]
pub enum RequestEffect<H> {
    Nothing,
    /// The input changed: rank the items again.
    Rerank,
    /// The input text, as asked.
    Needle(Vec<char>),
    /// Bind the chord to the action in the key map.
    Register(Vec<Key>, SweepAction),
    /// Tell the item under the cursor.
    Current,
    /// The marked items, in the order they were marked.
    Marked(Vec<H>),
    /// The list is to show its items from this position on.
    ListStart(usize),
    /// Whether a scorer was chosen; where one was, rank with the first of the scorers.
    Scorer(bool),
    /// Close the finder.
    Terminate,
}

/// What a binding of `tag` to `chord` comes to.
pub enum BindTarget {
    /// The chord is Backspace alone: the tag (none where it is empty) to report when it is
    /// pressed on an empty input.
    EmptyBackspace(Option<String>),
    /// An empty tag: the chord is bound to nothing.
    Unbind,
    /// The chord is bound to this action.
    Action(SweepAction),
}

/// A binding target by its plain values.
pub enum BindView {
    EmptyBackspace(Option<Seq<char>>),
    Unbind,
    Builtin(SweepAction),
    User(Seq<Key>, Seq<char>, Seq<char>),
}

pub open spec fn bind_view(b: BindTarget) -> BindView {
    match b {
        BindTarget::EmptyBackspace(t) => BindView::EmptyBackspace(
            match t {
                Some(x) => Some(x@),
                None => None,
            },
        ),
        BindTarget::Unbind => BindView::Unbind,
        BindTarget::Action(SweepAction::User { chord, tag, desc }) => BindView::User(
            chord@,
            tag@,
            desc@,
        ),
        BindTarget::Action(a) => BindView::Builtin(a),
    }
}

/// The first of `actions` named `name`.
pub open spec fn action_named(actions: Seq<SweepAction>, name: Seq<char>) -> Option<SweepAction>
    decreases actions.len(),
{
    if actions.len() == 0 {
        None
    } else {
        match action_named(actions.drop_last(), name) {
            Some(a) => Some(a),
            None => if sweep_action_desc(actions.last()).1 == name {
                Some(actions.last())
            } else {
                None
            },
        }
    }
}

/// What binding `tag` (described by `desc`) to `chord` comes to, given the user actions bound
/// so far: Backspace alone sets the tag of an empty input's Backspace; an empty tag unbinds;
/// a tag that names an action with a default binding binds that action; a tag bound before
/// binds the first user action of that tag; any other tag a new user action.
pub open spec fn bind_target_spec(
    chord: Seq<Key>,
    tag: Seq<char>,
    desc: Seq<char>,
    users: Seq<(Seq<Key>, Seq<char>, Seq<char>)>,
) -> BindView {
    if chord == seq![plain(KeyName::Backspace)] {
        BindView::EmptyBackspace(
            if tag.len() == 0 {
                None
            } else {
                Some(tag)
            },
        )
    } else if tag.len() == 0 {
        BindView::Unbind
    } else {
        match action_named(builtin_actions(), tag) {
            Some(a) => BindView::Builtin(a),
            None => match user_named(users, tag) {
                Some(u) => BindView::User(u.0, u.1, u.2),
                None => BindView::User(chord, tag, desc),
            },
        }
    }
}

/// An empty tag unbinds: bound to Backspace alone, no tag is reported on an empty input;
/// bound to any other chord, the chord is bound to nothing.
pub proof fn law_empty_tag_unbinds(
    chord: Seq<Key>,
    desc: Seq<char>,
    users: Seq<(Seq<Key>, Seq<char>, Seq<char>)>,
)
    ensures
        bind_target_spec(chord, Seq::empty(), desc, users) == if chord == seq![plain(KeyName::Backspace)] {
            BindView::EmptyBackspace(None)
        } else {
            BindView::Unbind
        },
{
}

proof fn lemma_builtin_not_user(actions: Seq<SweepAction>, name: Seq<char>)
    requires
        forall|i: int| 0 <= i < actions.len() ==> !(#[trigger] actions[i] is User),
    ensures
        action_named(actions, name) matches Some(a) ==> !(a is User),
    decreases actions.len(),
{
    if actions.len() > 0 {
        let d = actions.drop_last();
        assert forall|i: int| 0 <= i < d.len() implies !(#[trigger] d[i] is User) by {
            assert(d[i] == actions[i]);
        }
        lemma_builtin_not_user(d, name);
        assert(!(actions[actions.len() - 1] is User));
    }
}

proof fn lemma_action_named_prefix(actions: Seq<SweepAction>, k: int, name: Seq<char>)
    requires
        0 <= k <= actions.len(),
        action_named(actions.take(k), name) is Some,
    ensures
        action_named(actions, name) == action_named(actions.take(k), name),
    decreases actions.len() - k,
{
    if k < actions.len() {
        assert(actions.take(k + 1).drop_last() =~= actions.take(k));
        lemma_action_named_prefix(actions, k + 1, name);
    } else {
        assert(actions.take(k) =~= actions);
    }
}

/// The action with a default binding named `name`, if any.
fn builtin_named(name: &str) -> (r: Option<SweepAction>)
    ensures
        r == action_named(builtin_actions(), name@),
{
    let mut actions = SweepAction::all();
    let ghost all = actions@;
    let mut i: usize = 0;
    while i < actions.len()
        invariant
            actions@ == all,
            all == builtin_actions(),
            0 <= i <= all.len(),
            action_named(all.take(i as int), name@) is None,
        decreases all.len() - i,
    {
        proof {
            assert(all.take(i + 1).drop_last() =~= all.take(i as int));
            assert(all.take(i + 1).last() == all[i as int]);
        }
        let desc = actions[i].description();
        if text_is(desc.name.as_str(), name) {
            proof {
                lemma_action_named_prefix(all, i + 1, name@);
            }
            return Some(actions.remove(i));
        }
        i = i + 1;
    }
    proof {
        assert(all.take(i as int) =~= all);
    }
    None
}

/// A copy of the keys.
fn copy_keys(keys: &[Key]) -> (r: Vec<Key>)
    ensures
        r@ == keys@,
{
    let mut out: Vec<Key> = Vec::new();
    let mut i: usize = 0;
    while i < keys.len()
        invariant
            0 <= i <= keys@.len(),
            out@ == keys@.take(i as int),
        decreases keys@.len() - i,
    {
        out.push(keys[i]);
        i = i + 1;
        assert(out@ =~= keys@.take(i as int));
    }
    assert(keys@.take(i as int) =~= keys@);
    out
}

/// Index of the first of the user actions with this tag.
pub fn user_index(users: &[(Vec<Key>, String, String)], tag: &str) -> (r: Option<usize>)
    ensures
        r matches Some(i) ==> first_user(users_view(users@), tag@, i as int),
        r is None <==> user_named(users_view(users@), tag@) is None,
{
    let ghost us = users_view(users@);
    let mut i: usize = 0;
    while i < users.len()
        invariant
            us == users_view(users@),
            0 <= i <= users@.len(),
            forall|j: int| 0 <= j < i ==> us[j].1 != tag@,
        decreases users@.len() - i,
    {
        if text_is(users[i].1.as_str(), tag) {
            assert(first_user(us, tag@, i as int));
            return Some(i);
        }
        i = i + 1;
    }
    assert forall|k: int| !first_user(us, tag@, k) by {
        if 0 <= k < us.len() {
            assert(us[k].1 != tag@);
        }
    }
    None
}

/// What binding `tag` (described by `desc`) to `chord` comes to, given the user actions
/// bound so far.
pub fn bind_target(chord: &[Key], tag: &str, desc: &str, users: &[(Vec<Key>, String, String)]) -> (r: BindTarget)
    ensures
        bind_view(r) == bind_target_spec(chord@, tag@, desc@, users_view(users@)),
{
    let backspace = Key { name: KeyName::Backspace, mode: KeyMod::empty() };
    if chord.len() == 1 && chord[0] == backspace {
        assert(chord@ =~= seq![plain(KeyName::Backspace)]);
        if tag.is_empty() {
            return BindTarget::EmptyBackspace(None);
        } else {
            return BindTarget::EmptyBackspace(Some(tag.to_owned()));
        }
    }
    assert(chord@ != seq![plain(KeyName::Backspace)]) by {
        if chord@ == seq![plain(KeyName::Backspace)] {
            assert(chord@.len() == 1 && chord@[0] == backspace);
        }
    }
    if tag.is_empty() {
        return BindTarget::Unbind;
    }
    match builtin_named(tag) {
        Some(action) => {
            proof {
                lemma_builtins_not_user(tag@);
            }
            BindTarget::Action(action)
        },
        None => match user_index(users, tag) {
            Some(i) => {
                proof {
                    lemma_user_named(users_view(users@), tag@, i as int);
                }
                let user = &users[i];
                let keys = copy_keys(user.0.as_slice());
                BindTarget::Action(
                    SweepAction::User { chord: keys, tag: user.1.clone(), desc: user.2.clone() },
                )
            },
            None => {
                let keys = copy_keys(chord);
                BindTarget::Action(
                    SweepAction::User { chord: keys, tag: tag.to_owned(), desc: desc.to_owned() },
                )
            },
        },
    }
}

/// An action by its plain values.
pub open spec fn action_view(a: SweepAction) -> BindView {
    bind_view(BindTarget::Action(a))
}

/// The action a tag names, by its plain values: one with a default binding, else the first
/// user action bound with that tag.
pub open spec fn named_view(tag: Seq<char>, users: Seq<(Seq<Key>, Seq<char>, Seq<char>)>) -> Option<BindView> {
    match action_named(builtin_actions(), tag) {
        Some(a) => Some(BindView::Builtin(a)),
        None => match user_named(users, tag) {
            Some(u) => Some(BindView::User(u.0, u.1, u.2)),
            None => None,
        },
    }
}

proof fn lemma_builtins_not_user(tag: Seq<char>)
    ensures
        action_named(builtin_actions(), tag) matches Some(a) ==> !(a is User),
{
    assert forall|i: int| 0 <= i < builtin_actions().len() implies !(
    #[trigger] builtin_actions()[i] is User) by {
        if i >= 11 && i < 20 {
            assert(builtin_actions()[i] == SweepAction::Input(
                crate::widgets::InputAction::all_spec()[i - 11],
            ));
        } else if i >= 20 {
            assert(builtin_actions()[i] == SweepAction::List(
                crate::widgets::ListAction::all_spec()[i - 20],
            ));
        }
    }
    lemma_builtin_not_user(builtin_actions(), tag);
}

/// What a mouse event comes to.
#[derive(Debug)]
pub enum MouseDecision {
    Nothing,
    /// Apply this action.
    Apply(SweepAction),
    /// Report the tag, with the button as its chord.
    Report { tag: String, chord: Vec<Key> },
}

/// Chords as plain values.
pub open spec fn hotkeys_view(hs: Seq<Option<Vec<Key>>>) -> Seq<Option<Seq<Key>>> {
    hs.map_values(|h: Option<Vec<Key>>| match h {
        Some(c) => Some(c@),
        None => None,
    })
}

/// The hotkey bindings of items numbered from `offset` on: each item with a hotkey selects
/// itself by its number, in the order of the items.
pub open spec fn hotkey_spec(offset: int, hs: Seq<Option<Seq<Key>>>) -> Seq<(Seq<Key>, int)>
    decreases hs.len(),
{
    if hs.len() == 0 {
        Seq::empty()
    } else {
        let before = hotkey_spec(offset, hs.drop_last());
        match hs.last() {
            Some(c) => before.push((c, offset + hs.len() - 1)),
            None => before,
        }
    }
}

/// The bindings of the hotkeys of items appended after `offset` items: each item with a
/// hotkey is selected by it.
pub fn hotkey_bindings(offset: usize, hotkeys: &[Option<Vec<Key>>]) -> (r: Vec<(Vec<Key>, SweepAction)>)
    requires
        offset + hotkeys@.len() <= usize::MAX,
    ensures
        r@.len() == hotkey_spec(offset as int, hotkeys_view(hotkeys@)).len(),
        forall|j: int| 0 <= j < r@.len() ==> {
            &&& (#[trigger] r@[j]).0@ == hotkey_spec(offset as int, hotkeys_view(hotkeys@))[j].0
            &&& r@[j].1 matches SweepAction::SelectByIndex(n) && n == hotkey_spec(
                offset as int,
                hotkeys_view(hotkeys@),
            )[j].1
        },
{
    let ghost hs = hotkeys_view(hotkeys@);
    let mut out: Vec<(Vec<Key>, SweepAction)> = Vec::new();
    let mut i: usize = 0;
    while i < hotkeys.len()
        invariant
            hs == hotkeys_view(hotkeys@),
            0 <= i <= hotkeys@.len(),
            offset + hotkeys@.len() <= usize::MAX,
            out@.len() == hotkey_spec(offset as int, hs.take(i as int)).len(),
            forall|j: int| 0 <= j < out@.len() ==> {
                &&& (#[trigger] out@[j]).0@ == hotkey_spec(offset as int, hs.take(i as int))[j].0
                &&& out@[j].1 matches SweepAction::SelectByIndex(n) && n == hotkey_spec(
                    offset as int,
                    hs.take(i as int),
                )[j].1
            },
        decreases hotkeys@.len() - i,
    {
        proof {
            assert(hs.take(i + 1).drop_last() =~= hs.take(i as int));
            assert(hs.take(i + 1).last() == hs[i as int]);
        }
        match &hotkeys[i] {
            Some(chord) => {
                let keys = copy_keys(chord.as_slice());
                out.push((keys, SweepAction::SelectByIndex(offset + i)));
            },
            None => {},
        }
        i = i + 1;
    }
    proof {
        assert(hs.take(i as int) =~= hs);
    }
    out
}

/// Index of the first of `names` that is `name`.
pub fn scorer_index(names: &[String], name: &str) -> (r: Option<usize>)
    ensures
        r matches Some(i) ==> i < names@.len() && names@[i as int]@ == name@ && forall|j: int|
            0 <= j < i ==> names@[j]@ != name@,
        r is None <==> forall|j: int| 0 <= j < names@.len() ==> names@[j]@ != name@,
{
    let mut i: usize = 0;
    while i < names.len()
        invariant
            0 <= i <= names@.len(),
            forall|j: int| 0 <= j < i ==> names@[j]@ != name@,
        decreases names@.len() - i,
    {
        if text_is(names[i].as_str(), name) {
            return Some(i);
        }
        i = i + 1;
    }
    None
}

/// The rows the window starts at and the rows the terminal scrolls by, for a window of
/// `height` rows opened at cursor row `row` of a terminal of `term_height` rows: where the
/// window does not fit below the cursor, the terminal scrolls it into view; where it is
/// higher than the terminal, it starts at the top.
pub fn initial_row_offset(row: usize, height: usize, term_height: usize) -> (r: (usize, usize))
    requires
        row + height <= usize::MAX,
    ensures
        r == if height > term_height {
            (0usize, 0usize)
        } else if row + height > term_height {
            ((term_height - height) as usize, (row + height - term_height) as usize)
        } else {
            (row, 0usize)
        },
{
    if height > term_height {
        (0, 0)
    } else if row + height > term_height {
        (term_height - height, row + height - term_height)
    } else {
        (row, 0)
    }
}

impl<H> FinderState<H> {
    /// Carries out a request of the program around the window, and says what it is to do.
    pub fn request(&mut self, req: FinderRequest, scorers: &mut Vec<String>) -> (e: RequestEffect<H>)
        requires
            old(self).marked.wf(),
            req matches FinderRequest::ScorerByName(None) ==> old(scorers)@.len() > 0,
        ensures
            final(self).marked.wf(),
            !(req is Marked) ==> final(self).marked@ == old(self).marked@,
            !(req is CursorSet) ==> final(self).cursor == old(self).cursor,
            final(self).is_help == old(self).is_help,
            !(req is PreviewSet) ==> final(self).show_preview == old(self).show_preview,
            final(self).preview_row == old(self).preview_row,
            !(req is NeedleSet) ==> final(self).input.text() == old(self).input.text()
                && final(self).input.cursor() == old(self).input.cursor(),
            !(req is PromptSet) ==> final(self).prompt == old(self).prompt
                && final(self).prompt_icon == old(self).prompt_icon,
            !(req is Bind) ==> final(self).key_empty_backspace == old(self).key_empty_backspace
                && final(self).user_actions == old(self).user_actions,
            !(req is ScorerByName) ==> final(scorers)@ == old(scorers)@,
            match req {
                FinderRequest::NeedleSet(needle) => {
                    &&& e is Rerank
                    &&& final(self).input.text() == needle@
                    &&& final(self).input.cursor() == needle@.len()
                },
                FinderRequest::NeedleGet => e matches RequestEffect::Needle(t) && t@ == old(
                    self,
                ).input.text(),
                FinderRequest::PromptSet(prompt, icon) => {
                    &&& e is Nothing
                    &&& final(self).prompt == match prompt {
                        Some(p) => p,
                        None => old(self).prompt,
                    }
                    &&& final(self).prompt_icon == icon
                },
                FinderRequest::Bind { chord, tag, desc } => match bind_target_spec(
                    chord@,
                    tag@,
                    desc@,
                    users_view(old(self).user_actions@),
                ) {
                    BindView::EmptyBackspace(t) => {
                        &&& e is Nothing
                        &&& users_view(final(self).user_actions@) == users_view(
                            old(self).user_actions@,
                        )
                        &&& match final(self).key_empty_backspace {
                            Some(x) => t == Some(x@),
                            None => t is None,
                        }
                    },
                    BindView::Unbind => {
                        &&& final(self).key_empty_backspace == old(self).key_empty_backspace
                        &&& users_view(final(self).user_actions@) == users_view(
                            old(self).user_actions@,
                        )
                        &&& e matches RequestEffect::Register(c, SweepAction::User {
                            chord: uc,
                            tag: ut,
                            desc: ud,
                        }) && c@ == chord@ && uc@.len() == 0 && ut@.len() == 0 && ud@.len()
                            == 0
                    },
                    BindView::Builtin(a) => {
                        &&& final(self).key_empty_backspace == old(self).key_empty_backspace
                        &&& users_view(final(self).user_actions@) == users_view(
                            old(self).user_actions@,
                        )
                        &&& e matches RequestEffect::Register(c, b) && c@ == chord@ && b == a
                    },
                    BindView::User(uc, ut, ud) => {
                        &&& final(self).key_empty_backspace == old(self).key_empty_backspace
                        &&& users_view(final(self).user_actions@) == if user_named(
                            users_view(old(self).user_actions@),
                            tag@,
                        ) is None {
                            users_view(old(self).user_actions@).push((chord@, tag@, desc@))
                        } else {
                            users_view(old(self).user_actions@)
                        }
                        &&& e matches RequestEffect::Register(c, SweepAction::User {
                            chord: bc,
                            tag: bt,
                            desc: bd,
                        }) && c@ == chord@ && bc@ == uc && bt@ == ut && bd@ == ud
                    },
                },
                FinderRequest::Current => e is Current,
                FinderRequest::Marked => {
                    &&& e matches RequestEffect::Marked(items) && items@ == old(
                        self,
                    ).marked@.map_values(|m: (usize, H)| m.1)
                    &&& final(self).marked@ == Seq::<(usize, H)>::empty()
                },
                FinderRequest::CursorSet(position) => {
                    &&& e == RequestEffect::<H>::ListStart(position)
                    &&& final(self).cursor == position
                },
                FinderRequest::PreviewSet(show) => {
                    &&& e is Nothing
                    &&& final(self).show_preview == match show {
                        Some(v) => v,
                        None => !old(self).show_preview,
                    }
                },
                FinderRequest::ScorerByName(None) => {
                    &&& e == RequestEffect::<H>::Scorer(true)
                    &&& final(scorers)@ == old(scorers)@.skip(1).push(old(scorers)@[0])
                },
                FinderRequest::ScorerByName(Some(name)) => {
                    let found = exists|i: int|
                        0 <= i < old(scorers)@.len() && #[trigger] old(scorers)@[i]@ == name@;
                    &&& e == RequestEffect::<H>::Scorer(found)
                    &&& !found ==> final(scorers)@ == old(scorers)@
                    &&& found ==> exists|i: int|
                        0 <= i < old(scorers)@.len() && old(scorers)@[i]@ == name@ && (forall|j: int|
                            0 <= j < i ==> old(scorers)@[j]@ != name@) && final(scorers)@ == old(
                            scorers,
                        )@.update(0, old(scorers)@[i]).update(i, old(scorers)@[0])
                },
                FinderRequest::Terminate => e is Terminate,
            },
    {
        match req {
            FinderRequest::NeedleSet(needle) => {
                let text = chars_of(needle.as_str());
                self.input.set(text.as_slice());
                RequestEffect::Rerank
            },
            FinderRequest::NeedleGet => RequestEffect::Needle(self.input.get()),
            FinderRequest::PromptSet(prompt, icon) => {
                match prompt {
                    Some(p) => {
                        self.prompt = p;
                    },
                    None => {},
                }
                self.prompt_icon = icon;
                RequestEffect::Nothing
            },
            FinderRequest::Bind { chord, tag, desc } => {
                let known = user_index(self.user_actions.as_slice(), tag.as_str());
                let target = bind_target(
                    chord.as_slice(),
                    tag.as_str(),
                    desc.as_str(),
                    self.user_actions.as_slice(),
                );
                let ghost before = users_view(self.user_actions@);
                if known.is_none() {
                    if let BindTarget::Action(SweepAction::User { .. }) = &target {
                        let keys = copy_keys(chord.as_slice());
                        self.user_actions.push((keys, tag.clone(), desc.clone()));
                        assert(users_view(self.user_actions@) =~= before.push(
                            (chord@, tag@, desc@),
                        ));
                    }
                }
                match target {
                    BindTarget::EmptyBackspace(t) => {
                        self.key_empty_backspace = t;
                        RequestEffect::Nothing
                    },
                    BindTarget::Unbind => {
                        let none = SweepAction::User {
                            chord: Vec::new(),
                            tag: String::new(),
                            desc: String::new(),
                        };
                        RequestEffect::Register(chord, none)
                    },
                    BindTarget::Action(action) => RequestEffect::Register(chord, action),
                }
            },
            FinderRequest::Current => RequestEffect::Current,
            FinderRequest::Marked => RequestEffect::Marked(self.marked.take()),
            FinderRequest::CursorSet(position) => {
                self.cursor = position;
                RequestEffect::ListStart(position)
            },
            FinderRequest::PreviewSet(show) => {
                self.show_preview = match show {
                    Some(v) => v,
                    None => !self.show_preview,
                };
                RequestEffect::Nothing
            },
            FinderRequest::ScorerByName(None) => {
                let first = scorers.remove(0);
                scorers.push(first);
                assert(scorers@ =~= old(scorers)@.skip(1).push(old(scorers)@[0]));
                RequestEffect::Scorer(true)
            },
            FinderRequest::ScorerByName(Some(name)) => match scorer_index(
                scorers.as_slice(),
                name.as_str(),
            ) {
                Some(i) => {
                    let chosen = scorers[i].clone();
                    let front = scorers[0].clone();
                    scorers.set(0, chosen);
                    scorers.set(i, front);
                    proof {
                        assert(scorers@ =~= old(scorers)@.update(0, old(scorers)@[i as int]).update(
                            i as int,
                            old(scorers)@[0],
                        ));
                    }
                    RequestEffect::Scorer(true)
                },
                None => RequestEffect::Scorer(false),
            },
            FinderRequest::Terminate => RequestEffect::Terminate,
        }
    }
}

impl<H> FinderState<H> {
    /// What a key press comes to, given whether it starts a chord, the action the key map
    /// binds the chord it ends to, if any, and the action the items' hotkeys bind the key to,
    /// if any: Backspace starting a chord on an empty input reports the tag set for it, and
    /// does nothing where none is set; another bound key applies its action; a key no chord
    /// binds applies an item's hotkey; a character without modifiers that nothing binds is
    /// typed into the input; any other key does nothing.
    pub fn key_action(
        &self,
        key: Key,
        first_key: bool,
        bound: Option<SweepAction>,
        hotkey: Option<SweepAction>,
    ) -> (r: Option<SweepAction>)
        ensures
            match bound {
                Some(a) => if first_key && key == plain(KeyName::Backspace) && self.input.text().len()
                    == 0 {
                    match self.key_empty_backspace {
                        Some(t) => r matches Some(SweepAction::User { chord, tag, desc })
                            && chord@ == seq![key] && tag@ == t@ && desc@.len() == 0,
                        None => r is None,
                    }
                } else {
                    r == Some(a)
                },
                None => match hotkey {
                    Some(h) => r == Some(h),
                    None => if key.mode == (KeyMod { alt: false, ctrl: false, shift: false }) {
                        match key.name {
                            KeyName::Char(c) => r == Some(SweepAction::Input(InputAction::Insert(c))),
                            _ => r is None,
                        }
                    } else {
                        r is None
                    },
                },
            },
    {
        match bound {
            Some(action) => {
                let backspace = Key { name: KeyName::Backspace, mode: KeyMod::empty() };
                if first_key && key == backspace && self.input.get().len() == 0 {
                    match &self.key_empty_backspace {
                        Some(tag) => {
                            let mut chord: Vec<Key> = Vec::new();
                            chord.push(key);
                            Some(SweepAction::User { chord, tag: tag.clone(), desc: String::new() })
                        },
                        None => None,
                    }
                } else {
                    Some(action)
                }
            },
            None => match hotkey {
                Some(action) => Some(action),
                None => {
                    if key.mode == KeyMod::empty() {
                        match key.name {
                            KeyName::Char(c) => Some(SweepAction::Input(InputAction::Insert(c))),
                            _ => None,
                        }
                    } else {
                        None
                    }
                },
            },
        }
    }

    /// The action a tag names: one with a default binding, else the first user action bound
    /// with that tag.
    pub fn named_action(&self, tag: &str) -> (r: Option<SweepAction>)
        ensures
            match r {
                Some(a) => named_view(tag@, users_view(self.user_actions@)) == Some(action_view(a)),
                None => named_view(tag@, users_view(self.user_actions@)) is None,
            },
    {
        match builtin_named(tag) {
            Some(action) => {
                proof {
                    lemma_builtins_not_user(tag@);
                }
                Some(action)
            },
            None => match user_index(self.user_actions.as_slice(), tag) {
                Some(i) => {
                    proof {
                        lemma_user_named(users_view(self.user_actions@), tag@, i as int);
                    }
                    let user = &self.user_actions[i];
                    let keys = copy_keys(user.0.as_slice());
                    Some(SweepAction::User { chord: keys, tag: user.1.clone(), desc: user.2.clone() })
                },
                None => None,
            },
        }
    }

    /// What a mouse event on an area tagged `tag` (none where the tag is not text) comes to:
    /// a release without modifiers on an area whose tag names an action applies it; a press
    /// does nothing; any other event reports the tag with the button as its chord.
    pub fn mouse_action(&self, tag: Option<&str>, button: Key, press: bool) -> (r: MouseDecision)
        ensures
            match tag {
                None => r is Nothing,
                Some(t) => if named_view(t@, users_view(self.user_actions@)) is Some && !press
                    && button.mode == (KeyMod { alt: false, ctrl: false, shift: false }) {
                    r matches MouseDecision::Apply(a) && named_view(
                        t@,
                        users_view(self.user_actions@),
                    ) == Some(action_view(a))
                } else if press {
                    r is Nothing
                } else {
                    r matches MouseDecision::Report { tag: rt, chord } && rt@ == t@ && chord@
                        == seq![button]
                },
            },
    {
        match tag {
            None => MouseDecision::Nothing,
            Some(t) => {
                let named = self.named_action(t);
                if named.is_some() && !press && button.mode == KeyMod::empty() {
                    match named {
                        Some(action) => MouseDecision::Apply(action),
                        None => MouseDecision::Nothing,
                    }
                } else if press {
                    MouseDecision::Nothing
                } else {
                    let mut chord: Vec<Key> = Vec::new();
                    chord.push(button);
                    MouseDecision::Report { tag: t.to_owned(), chord }
                }
            },
        }
    }
}

} // verus!
