//! Editing state of the input line and cursor movement in the list.
use vstd::prelude::*;
use crate::text::{is_ascii_punctuation_spec, is_ascii_whitespace_spec};
use crate::keys::{
    ActionDesc, Key, KeyMod, KeyName, desc_view, describe, plain, single_keys, with_alt, with_ctrl,
};

verus! {

/// Characters that separate words when moving the cursor word by word.
pub open spec fn is_word_separator_spec(c: char) -> bool {
    is_ascii_punctuation_spec(c) || is_ascii_whitespace_spec(c)
}

pub fn is_word_separator(c: char) -> (r: bool)
    ensures
        r == is_word_separator_spec(c),
{
    let u = c as u32;
    (33 <= u && u <= 47) || (58 <= u && u <= 64) || (91 <= u && u <= 96) || (123 <= u && u <= 126)
        || u == 32 || u == 9 || u == 10 || u == 12 || u == 13
}

#[derive(Debug, Clone, Copy, PartialEq, Eq, Structural)]
pub enum InputAction {
    Insert(char),
    CursorForward,
    CursorBackward,
    CursorEnd,
    CursorStart,
    CursorNextWord,
    CursorPrevWord,
    DeleteBackward,
    DeleteForward,
    DeleteEnd,
}

impl InputAction {
    /// All actions that have a binding, in the order they are listed in help.
    pub open spec fn all_spec() -> Seq<InputAction> {
        seq![
            InputAction::CursorForward,
            InputAction::CursorBackward,
            InputAction::CursorEnd,
            InputAction::CursorStart,
            InputAction::CursorNextWord,
            InputAction::CursorPrevWord,
            InputAction::DeleteBackward,
            InputAction::DeleteForward,
            InputAction::DeleteEnd,
        ]
    }

    pub fn all() -> (r: Vec<InputAction>)
        ensures
            r@ == Self::all_spec(),
            r@ == seq![
                InputAction::CursorForward,
                InputAction::CursorBackward,
                InputAction::CursorEnd,
                InputAction::CursorStart,
                InputAction::CursorNextWord,
                InputAction::CursorPrevWord,
                InputAction::DeleteBackward,
                InputAction::DeleteForward,
                InputAction::DeleteEnd,
            ],
    {
        let mut r = Vec::new();
        r.push(InputAction::CursorForward);
        r.push(InputAction::CursorBackward);
        r.push(InputAction::CursorEnd);
        r.push(InputAction::CursorStart);
        r.push(InputAction::CursorNextWord);
        r.push(InputAction::CursorPrevWord);
        r.push(InputAction::DeleteBackward);
        r.push(InputAction::DeleteForward);
        r.push(InputAction::DeleteEnd);
        assert(r@ =~= seq![
            InputAction::CursorForward,
            InputAction::CursorBackward,
            InputAction::CursorEnd,
            InputAction::CursorStart,
            InputAction::CursorNextWord,
            InputAction::CursorPrevWord,
            InputAction::DeleteBackward,
            InputAction::DeleteForward,
            InputAction::DeleteEnd,
        ]);
        r
    }

    /// Default bindings, name and description.
    pub fn description(&self) -> (r: ActionDesc)
        ensures
            desc_view(r) == input_action_desc(*self),
    {
        let mut keys: Vec<Key> = Vec::new();
        match self {
            InputAction::Insert(_) => {
                describe(keys.as_slice(), "input.insert.char", "Insert character to the input field")
            },
            InputAction::CursorForward => {
                keys.push(Key { name: KeyName::Right, mode: KeyMod::empty() });
                describe(keys.as_slice(), "input.move.forward", "Move cursor forward in the input field")
            },
            InputAction::CursorBackward => {
                keys.push(Key { name: KeyName::Left, mode: KeyMod::empty() });
                describe(keys.as_slice(), "input.move.backward", "Move cursor backward in the input field")
            },
            InputAction::CursorEnd => {
                keys.push(Key { name: KeyName::Char('e'), mode: KeyMod::ctrl() });
                describe(keys.as_slice(), "input.move.end", "Move cursor to the end of the input")
            },
            InputAction::CursorStart => {
                keys.push(Key { name: KeyName::Char('a'), mode: KeyMod::ctrl() });
                describe(keys.as_slice(), "input.move.start", "Move cursor to the start of the input")
            },
            InputAction::CursorNextWord => {
                keys.push(Key { name: KeyName::Char('f'), mode: KeyMod::alt() });
                describe(keys.as_slice(), "input.move.next_word", "Move cursor to the end of the current word")
            },
            InputAction::CursorPrevWord => {
                keys.push(Key { name: KeyName::Char('b'), mode: KeyMod::alt() });
                describe(keys.as_slice(), "input.move.prev_word", "Move cursor to the start of the word")
            },
            InputAction::DeleteBackward => {
                keys.push(Key { name: KeyName::Backspace, mode: KeyMod::empty() });
                describe(keys.as_slice(), "input.delete.backward", "Delete previous char")
            },
            InputAction::DeleteForward => {
                keys.push(Key { name: KeyName::Delete, mode: KeyMod::empty() });
                describe(keys.as_slice(), "input.delete.forward", "Delete next char")
            },
            InputAction::DeleteEnd => {
                keys.push(Key { name: KeyName::Char('k'), mode: KeyMod::ctrl() });
                describe(keys.as_slice(), "input.delete.end", "Delete all input after cursor")
            },
        }
    }
}

/// Default bindings, name and description of an input action.
pub open spec fn input_action_desc(a: InputAction) -> (Seq<Seq<Key>>, Seq<char>, Seq<char>) {
    match a {
        InputAction::Insert(_) => (seq![], "input.insert.char"@, "Insert character to the input field"@),
        InputAction::CursorForward => (single_keys(seq![plain(KeyName::Right)]), "input.move.forward"@, "Move cursor forward in the input field"@),
        InputAction::CursorBackward => (single_keys(seq![plain(KeyName::Left)]), "input.move.backward"@, "Move cursor backward in the input field"@),
        InputAction::CursorEnd => (single_keys(seq![with_ctrl('e')]), "input.move.end"@, "Move cursor to the end of the input"@),
        InputAction::CursorStart => (single_keys(seq![with_ctrl('a')]), "input.move.start"@, "Move cursor to the start of the input"@),
        InputAction::CursorNextWord => (single_keys(seq![with_alt('f')]), "input.move.next_word"@, "Move cursor to the end of the current word"@),
        InputAction::CursorPrevWord => (single_keys(seq![with_alt('b')]), "input.move.prev_word"@, "Move cursor to the start of the word"@),
        InputAction::DeleteBackward => (single_keys(seq![plain(KeyName::Backspace)]), "input.delete.backward"@, "Delete previous char"@),
        InputAction::DeleteForward => (single_keys(seq![plain(KeyName::Delete)]), "input.delete.forward"@, "Delete next char"@),
        InputAction::DeleteEnd => (single_keys(seq![with_ctrl('k')]), "input.delete.end"@, "Delete all input after cursor"@),
    }
}

/// First index from `i` on where the separator-ness of the text differs from `sep`.
pub open spec fn skip_forward(t: Seq<char>, i: int, sep: bool) -> int
    decreases t.len() - i,
{
    if 0 <= i < t.len() && is_word_separator_spec(t[i]) == sep {
        skip_forward(t, i + 1, sep)
    } else {
        i
    }
}

/// Last index from `i` down where the character before differs in separator-ness from `sep`.
pub open spec fn skip_backward(t: Seq<char>, i: int, sep: bool) -> int
    decreases i,
{
    if 0 < i <= t.len() && is_word_separator_spec(t[i - 1]) == sep {
        skip_backward(t, i - 1, sep)
    } else {
        i
    }
}

/// Cursor after moving to the end of the current or next word.
pub open spec fn next_word_end(t: Seq<char>, cursor: int) -> int {
    skip_forward(t, skip_forward(t, cursor, true), false)
}

/// Cursor after moving to the start of the current or previous word.
pub open spec fn prev_word_start(t: Seq<char>, cursor: int) -> int {
    skip_backward(t, skip_backward(t, cursor, true), false)
}

/// Text and cursor after applying an action.
pub open spec fn input_apply_spec(t: Seq<char>, cursor: int, action: InputAction) -> (Seq<char>, int) {
    match action {
        InputAction::Insert(c) => (t.take(cursor).push(c) + t.skip(cursor), cursor + 1),
        InputAction::CursorForward => (t, if cursor < t.len() {
            cursor + 1
        } else {
            cursor
        }),
        InputAction::CursorBackward => (t, if cursor > 0 {
            cursor - 1
        } else {
            cursor
        }),
        InputAction::CursorEnd => (t, t.len() as int),
        InputAction::CursorStart => (t, 0),
        InputAction::CursorNextWord => (t, next_word_end(t, cursor)),
        InputAction::CursorPrevWord => (t, prev_word_start(t, cursor)),
        InputAction::DeleteBackward => if cursor > 0 {
            (t.take(cursor - 1) + t.skip(cursor), cursor - 1)
        } else {
            (t, cursor)
        },
        InputAction::DeleteForward => if cursor < t.len() {
            (t.take(cursor) + t.skip(cursor + 1), cursor)
        } else {
            (t, cursor)
        },
        InputAction::DeleteEnd => (t.take(cursor), cursor),
    }
}

/// The input line: text before the cursor, and the text after it kept reversed.
pub struct Input {
    before: Vec<char>,
    after: Vec<char>,
}

impl Input {
    /// The whole text.
    pub closed spec fn text(&self) -> Seq<char> {
        self.before@ + self.after@.reverse()
    }

    /// Cursor position: the number of characters before it.
    pub closed spec fn cursor(&self) -> int {
        self.before@.len() as int
    }

    pub proof fn lemma_cursor_bound(&self)
        ensures
            0 <= self.cursor() <= self.text().len(),
    {
    }

    pub fn new() -> (r: Self)
        ensures
            r.text() == Seq::<char>::empty(),
            r.cursor() == 0,
    {
        let r = Input { before: Vec::new(), after: Vec::new() };
        assert(r.text() =~= Seq::<char>::empty());
        r
    }

    /// Move the last char before the cursor behind it.
    fn step_back(&mut self)
        requires
            old(self).before@.len() > 0,
        ensures
            final(self).text() == old(self).text(),
            final(self).cursor() == old(self).cursor() - 1,
            final(self).before@.len() == old(self).before@.len() - 1,
            final(self).after@.len() == old(self).after@.len() + 1,
    {
        let ghost t = self.text();
        let c = self.before.pop().unwrap();
        self.after.push(c);
        assert(self.text() =~= t);
    }

    /// Move the first char after the cursor before it.
    fn step_forward(&mut self)
        requires
            old(self).after@.len() > 0,
        ensures
            final(self).text() == old(self).text(),
            final(self).cursor() == old(self).cursor() + 1,
            final(self).before@.len() == old(self).before@.len() + 1,
            final(self).after@.len() == old(self).after@.len() - 1,
    {
        let ghost t = self.text();
        let c = self.after.pop().unwrap();
        self.before.push(c);
        assert(self.text() =~= t);
    }

    proof fn lemma_char_at_cursor(&self)
        requires
            self.after@.len() > 0,
        ensures
            self.text()[self.cursor()] == self.after@.last(),
    {
        assert(self.after@.reverse()[0] == self.after@[self.after@.len() - 1]);
    }

    proof fn lemma_char_before_cursor(&self)
        requires
            self.before@.len() > 0,
        ensures
            self.text()[self.cursor() - 1] == self.before@.last(),
    {
    }

    pub fn apply(&mut self, action: &InputAction)
        ensures
            (final(self).text(), final(self).cursor()) == input_apply_spec(
                old(self).text(),
                old(self).cursor(),
                *action,
            ),
    {
        let ghost t = self.text();
        let ghost cur = self.cursor();
        match action {
            InputAction::Insert(c) => {
                self.before.push(*c);
                assert(self.text() =~= t.take(cur).push(*c) + t.skip(cur));
            },
            InputAction::CursorForward => {
                if self.after.len() > 0 {
                    self.step_forward();
                }
            },
            InputAction::CursorBackward => {
                if self.before.len() > 0 {
                    self.step_back();
                }
            },
            InputAction::CursorEnd => {
                while self.after.len() > 0
                    invariant
                        self.text() == t,
                    decreases self.after@.len(),
                {
                    self.step_forward();
                }
                assert(self.text() =~= self.before@);
            },
            InputAction::CursorStart => {
                while self.before.len() > 0
                    invariant
                        self.text() == t,
                    decreases self.before@.len(),
                {
                    self.step_back();
                }
            },
            InputAction::CursorNextWord => {
                self.skip_forward(true);
                self.skip_forward(false);
            },
            InputAction::CursorPrevWord => {
                self.skip_backward(true);
                self.skip_backward(false);
            },
            InputAction::DeleteEnd => {
                self.after.clear();
                assert(self.text() =~= t.take(cur));
            },
            InputAction::DeleteBackward => {
                if self.before.len() > 0 {
                    self.before.pop();
                    assert(self.text() =~= t.take(cur - 1) + t.skip(cur));
                }
            },
            InputAction::DeleteForward => {
                if self.after.len() > 0 {
                    let ghost a = self.after@;
                    self.after.pop();
                    assert(self.after@.reverse() =~= a.reverse().skip(1));
                    assert(self.text() =~= t.take(cur) + t.skip(cur + 1));
                }
            },
        }
    }

    /// Move the cursor forward while the char after it is (not) a separator.
    fn skip_forward(&mut self, sep: bool)
        ensures
            final(self).text() == old(self).text(),
            final(self).cursor() == skip_forward(old(self).text(), old(self).cursor(), sep),
    {
        let ghost t = self.text();
        while self.after.len() > 0 && is_word_separator(self.after[self.after.len() - 1]) == sep
            invariant
                self.text() == t,
                skip_forward(t, self.cursor(), sep) == skip_forward(t, old(self).cursor(), sep),
            decreases self.after@.len(),
        {
            proof {
                self.lemma_char_at_cursor();
            }
            self.step_forward();
        }
        proof {
            if self.after@.len() > 0 {
                self.lemma_char_at_cursor();
            }
        }
    }

    /// Move the cursor backward while the char before it is (not) a separator.
    fn skip_backward(&mut self, sep: bool)
        ensures
            final(self).text() == old(self).text(),
            final(self).cursor() == skip_backward(old(self).text(), old(self).cursor(), sep),
    {
        let ghost t = self.text();
        while self.before.len() > 0 && is_word_separator(self.before[self.before.len() - 1]) == sep
            invariant
                self.text() == t,
                skip_backward(t, self.cursor(), sep) == skip_backward(t, old(self).cursor(), sep),
            decreases self.before@.len(),
        {
            proof {
                self.lemma_char_before_cursor();
            }
            self.step_back();
        }
        proof {
            if self.before@.len() > 0 {
                self.lemma_char_before_cursor();
            }
        }
    }

    /// Insert pasted text before the cursor.
    pub fn paste(&mut self, text: &[char])
        ensures
            final(self).text() == old(self).text().take(old(self).cursor()) + text@ + old(
                self,
            ).text().skip(old(self).cursor()),
            final(self).cursor() == old(self).cursor() + text@.len(),
    {
        let ghost t = self.text();
        let ghost cur = self.cursor();
        let ghost b0 = self.before@;
        let ghost a0 = self.after@;
        assert(b0 =~= t.take(cur));
        assert(a0.reverse() =~= t.skip(cur));
        let mut i: usize = 0;
        while i < text.len()
            invariant
                0 <= i <= text@.len(),
                self.before@ == b0 + text@.take(i as int),
                self.after@ == a0,
            decreases text@.len() - i,
        {
            self.before.push(text[i]);
            i = i + 1;
            assert(self.before@ =~= b0 + text@.take(i as int));
        }
        assert(text@.take(i as int) =~= text@);
        assert(self.text() =~= t.take(cur) + text@ + t.skip(cur));
    }

    /// The whole text.
    pub fn get(&self) -> (r: Vec<char>)
        ensures
            r@ == self.text(),
    {
        let mut r = self.before.clone();
        let mut i = self.after.len();
        assert(r@ =~= self.before@);
        while i > 0
            invariant
                i <= self.after@.len(),
                r@ == self.before@ + self.after@.reverse().take(self.after@.len() - i),
            decreases i,
        {
            i = i - 1;
            r.push(self.after[i]);
            assert(r@ =~= self.before@ + self.after@.reverse().take(self.after@.len() - i));
        }
        assert(self.after@.reverse().take(self.after@.len() as int) =~= self.after@.reverse());
        r
    }

    /// Replace the text, with the cursor at its end.
    pub fn set(&mut self, text: &[char])
        ensures
            final(self).text() == text@,
            final(self).cursor() == text@.len(),
    {
        self.before.clear();
        self.after.clear();
        let mut i: usize = 0;
        while i < text.len()
            invariant
                0 <= i <= text@.len(),
                self.before@ == text@.take(i as int),
                self.after@.len() == 0,
            decreases text@.len() - i,
        {
            self.before.push(text[i]);
            i = i + 1;
            assert(self.before@ =~= text@.take(i as int));
        }
        assert(self.text() =~= text@);
    }
}

#[derive(Debug, Clone, Copy, PartialEq, Eq, Structural)]
pub enum ListAction {
    ItemNext,
    ItemPrev,
    PageNext,
    PagePrev,
    Home,
    End,
}

impl ListAction {
    /// All list actions, in the order they are listed in help.
    pub open spec fn all_spec() -> Seq<ListAction> {
        seq![
            ListAction::ItemNext,
            ListAction::ItemPrev,
            ListAction::PageNext,
            ListAction::PagePrev,
            ListAction::Home,
            ListAction::End,
        ]
    }

    pub fn all() -> (r: Vec<ListAction>)
        ensures
            r@ == Self::all_spec(),
            r@ == seq![
                ListAction::ItemNext,
                ListAction::ItemPrev,
                ListAction::PageNext,
                ListAction::PagePrev,
                ListAction::Home,
                ListAction::End,
            ],
    {
        let mut r = Vec::new();
        r.push(ListAction::ItemNext);
        r.push(ListAction::ItemPrev);
        r.push(ListAction::PageNext);
        r.push(ListAction::PagePrev);
        r.push(ListAction::Home);
        r.push(ListAction::End);
        assert(r@ =~= seq![
            ListAction::ItemNext,
            ListAction::ItemPrev,
            ListAction::PageNext,
            ListAction::PagePrev,
            ListAction::Home,
            ListAction::End,
        ]);
        r
    }

    /// Default bindings, name and description.
    pub fn description(&self) -> (r: ActionDesc)
        ensures
            desc_view(r) == list_action_desc(*self),
    {
        let mut keys: Vec<Key> = Vec::new();
        match self {
            ListAction::ItemNext => {
                keys.push(Key { name: KeyName::Down, mode: KeyMod::empty() });
                keys.push(Key { name: KeyName::Char('n'), mode: KeyMod::ctrl() });
                describe(keys.as_slice(), "list.item.next", "Move to the next item in the list")
            },
            ListAction::ItemPrev => {
                keys.push(Key { name: KeyName::Up, mode: KeyMod::empty() });
                keys.push(Key { name: KeyName::Char('p'), mode: KeyMod::ctrl() });
                describe(keys.as_slice(), "list.item.prev", "Move to the previous item in the list")
            },
            ListAction::PageNext => {
                keys.push(Key { name: KeyName::PageDown, mode: KeyMod::empty() });
                describe(keys.as_slice(), "input.page.next", "Move one page down in the list")
            },
            ListAction::PagePrev => {
                keys.push(Key { name: KeyName::PageUp, mode: KeyMod::empty() });
                describe(keys.as_slice(), "input.page.prev", "Move one page up in the list")
            },
            ListAction::Home => {
                keys.push(Key { name: KeyName::Home, mode: KeyMod::empty() });
                describe(keys.as_slice(), "list.home", "Move to the beginning of the list")
            },
            ListAction::End => {
                keys.push(Key { name: KeyName::End, mode: KeyMod::empty() });
                describe(keys.as_slice(), "list.end", "Move to the end of the list")
            },
        }
    }
}

/// Default bindings, name and description of a list action.
pub open spec fn list_action_desc(a: ListAction) -> (Seq<Seq<Key>>, Seq<char>, Seq<char>) {
    match a {
        ListAction::ItemNext => (single_keys(seq![plain(KeyName::Down), with_ctrl('n')]), "list.item.next"@, "Move to the next item in the list"@),
        ListAction::ItemPrev => (single_keys(seq![plain(KeyName::Up), with_ctrl('p')]), "list.item.prev"@, "Move to the previous item in the list"@),
        ListAction::PageNext => (single_keys(seq![plain(KeyName::PageDown)]), "input.page.next"@, "Move one page down in the list"@),
        ListAction::PagePrev => (single_keys(seq![plain(KeyName::PageUp)]), "input.page.prev"@, "Move one page up in the list"@),
        ListAction::Home => (single_keys(seq![plain(KeyName::Home)]), "list.home"@, "Move to the beginning of the list"@),
        ListAction::End => (single_keys(seq![plain(KeyName::End)]), "list.end"@, "Move to the end of the list"@),
    }
}

/// Cursor of a list of `len` items after an action, before clamping; pages move by the
/// number of visible items, at least one.
pub open spec fn list_move_spec(cursor: int, action: ListAction, len: int, visible: int) -> int {
    let page = if visible > 1 {
        visible
    } else {
        1
    };
    match action {
        ListAction::ItemNext => cursor + 1,
        ListAction::ItemPrev => if cursor > 0 {
            cursor - 1
        } else {
            cursor
        },
        ListAction::PageNext => cursor + page,
        ListAction::PagePrev => if cursor >= page {
            cursor - page
        } else {
            cursor
        },
        ListAction::Home => 0,
        ListAction::End => len - 1,
    }
}

/// Cursor of a list of `len` items after an action: moved, then kept on an item.
pub open spec fn list_apply_spec(cursor: int, action: ListAction, len: int, visible: int) -> int {
    let moved = list_move_spec(cursor, action, len, visible);
    if len > 0 {
        if moved > len - 1 {
            len - 1
        } else {
            moved
        }
    } else {
        0
    }
}

/// Apply a list action to the cursor; the second result tells whether the first visible
/// item goes back to the top. Moving to the end of an empty list is refused.
pub fn list_apply(cursor: usize, action: ListAction, len: usize, visible: usize) -> (r: (usize, bool))
    requires
        !(action == ListAction::End && len == 0),
        action == ListAction::ItemNext ==> cursor < usize::MAX,
        action == ListAction::PageNext ==> cursor + (if visible > 1 {
            visible
        } else {
            1
        }) <= usize::MAX,
    ensures
        r.0 == list_apply_spec(cursor as int, action, len as int, visible as int),
        r.1 == (action == ListAction::Home),
{
    let page = if visible > 1 {
        visible
    } else {
        1
    };
    let moved = match action {
        ListAction::ItemNext => cursor + 1,
        ListAction::ItemPrev => if cursor > 0 {
            cursor - 1
        } else {
            cursor
        },
        ListAction::PageNext => cursor + page,
        ListAction::PagePrev => if cursor >= page {
            cursor - page
        } else {
            cursor
        },
        ListAction::Home => 0,
        ListAction::End => len - 1,
    };
    let cursor = if len > 0 {
        if moved > len - 1 {
            len - 1
        } else {
            moved
        }
    } else {
        0
    };
    (cursor, matches!(action, ListAction::Home))
}

/// Row count of an item: at least one.
pub open spec fn rows_of(heights: Seq<usize>, k: int) -> int {
    if heights[k] == 0 {
        1
    } else {
        heights[k] as int
    }
}

/// First visible item before laying out: the last one stays at most `height` items from the
/// end, and the cursor is brought into the `height` items from it.
pub open spec fn list_start(prev: int, cursor: int, len: int, height: int) -> int {
    let bottom = if len > height {
        len - height
    } else {
        0
    };
    let o = if prev < bottom {
        prev
    } else {
        bottom
    };
    if o > cursor {
        cursor
    } else if height > 0 && o + height - 1 < cursor {
        cursor - height + 1
    } else {
        o
    }
}

/// Drop items from the top while they take more than `height` rows, unless the one left is
/// the item under the cursor; the state is the first item, the count and the rows used.
pub open spec fn list_shrink(
    heights: Seq<usize>,
    start: int,
    index: int,
    cursor: int,
    height: int,
    first: int,
    count: int,
    used: int,
) -> (int, int, int)
    decreases count,
{
    if used > height && !(index == cursor && count == 1) && count > 0 {
        list_shrink(
            heights,
            start,
            index,
            cursor,
            height,
            first + 1,
            count - 1,
            used - rows_of(heights, first - start),
        )
    } else {
        (first, count, used)
    }
}

/// Lay out items from `index` on, up to twice `height` items from `start`, while there are
/// items (and their heights, which `heights` gives from `start` on): an item that does not
/// fit stops the layout when it comes after the cursor, else items are dropped from the
/// top.
pub open spec fn list_fill(
    heights: Seq<usize>,
    len: int,
    start: int,
    index: int,
    cursor: int,
    height: int,
    first: int,
    count: int,
    used: int,
) -> (int, int)
    decreases start + 2 * height - index,
{
    if index >= start + 2 * height || index >= len || index - start >= heights.len() || index < start {
        (first, count)
    } else {
        let used1 = used + rows_of(heights, index - start);
        let count1 = count + 1;
        if used1 > height && index > cursor {
            (first, count1)
        } else {
            let (f, c, u) = list_shrink(heights, start, index, cursor, height, first, count1, used1);
            list_fill(heights, len, start, index + 1, cursor, height, f, c, u)
        }
    }
}

/// The first visible item and the number of visible items of a list of `len` items with the
/// cursor at `cursor`, in `height` rows, where `heights` holds the rows of the items from
/// the first one that may be shown (see `list_start`) on.
/// A list of no rows shows nothing and keeps where it starts.
pub open spec fn list_layout_spec(prev: int, cursor: int, len: int, height: int, heights: Seq<usize>) -> (int, int) {
    if height < 1 {
        (prev, 0)
    } else {
        let start = list_start(prev, cursor, len, height);
        list_fill(heights, len, start, start, cursor, height, start, 0, 0)
    }
}

/// First item that may be shown: `prev` moved so that the cursor can be seen.
pub fn list_layout_start(prev: usize, cursor: usize, len: usize, height: usize) -> (r: usize)
    ensures
        r == list_start(prev as int, cursor as int, len as int, height as int),
{
    let bottom = if len > height {
        len - height
    } else {
        0
    };
    let o = if prev < bottom {
        prev
    } else {
        bottom
    };
    if o > cursor {
        cursor
    } else if height > 0 && o as u128 + height as u128 - 1 < cursor as u128 {
        cursor - height + 1
    } else {
        o
    }
}

/// Rows taken by the items `a..b`, counted from `start`.
pub open spec fn rows_sum(heights: Seq<usize>, start: int, a: int, b: int) -> int
    decreases b - a,
{
    if a >= b {
        0
    } else {
        rows_of(heights, a - start) + rows_sum(heights, start, a + 1, b)
    }
}

proof fn lemma_rows_sum_push(heights: Seq<usize>, start: int, a: int, b: int)
    requires
        a <= b,
    ensures
        rows_sum(heights, start, a, b + 1) == rows_sum(heights, start, a, b) + rows_of(heights, b - start),
    decreases b - a,
{
    if a < b {
        lemma_rows_sum_push(heights, start, a + 1, b);
    } else {
        reveal_with_fuel(rows_sum, 2);
    }
}

proof fn lemma_rows_sum_nonneg(heights: Seq<usize>, start: int, a: int, b: int)
    ensures
        rows_sum(heights, start, a, b) >= 0,
    decreases b - a,
{
    if a < b {
        lemma_rows_sum_nonneg(heights, start, a + 1, b);
    }
}

/// Which items a list shows: the first visible item and how many, given the rows each item
/// takes from `list_layout_start` on. The first visible item is also where the list starts
/// the next time.
pub fn list_layout(prev: usize, cursor: usize, len: usize, height: usize, heights: &[usize]) -> (r: (usize, usize))
    ensures
        r.0 == list_layout_spec(prev as int, cursor as int, len as int, height as int, heights@).0,
        r.1 == list_layout_spec(prev as int, cursor as int, len as int, height as int, heights@).1,
{
    if height == 0 {
        return (prev, 0);
    }
    let start = list_layout_start(prev, cursor, len, height);
    let ghost total = list_layout_spec(prev as int, cursor as int, len as int, height as int, heights@);
    let mut first = start;
    let mut count: usize = 0;
    let mut used: u128 = 0;
    let mut index = start;
    let limit: u128 = start as u128 + 2 * (height as u128);
    while (index as u128) < limit && index < len && index - start < heights.len()
        invariant
            start <= first <= index,
            first + count == index,
            height >= 1,
            limit == start + 2 * height,
            used == rows_sum(heights@, start as int, first as int, index as int),
            used <= usize::MAX,
            total == list_layout_spec(prev as int, cursor as int, len as int, height as int, heights@),
            list_fill(heights@, len as int, start as int, index as int, cursor as int, height as int, first as int, count as int, used as int) == total,
        decreases limit - index,
    {
        let k = index - start;
        let rows: u128 = if heights[k] == 0 {
            1
        } else {
            heights[k] as u128
        };
        assert(rows == rows_of(heights@, k as int));
        proof {
            lemma_rows_sum_push(heights@, start as int, first as int, index as int);
        }
        let used1 = used + rows;
        let count1 = count + 1;
        if used1 > height as u128 && index > cursor {
            assert(list_fill(heights@, len as int, start as int, index as int, cursor as int, height as int, first as int, count as int, used as int) == (first as int, count1 as int));
            return (first, count1);
        }
        let mut f = first;
        let mut c = count1;
        let mut u = used1;
        while u > height as u128 && !(index == cursor && c == 1) && c > 0
            invariant
                start <= f,
                f + c == index + 1,
                index < len,
                height >= 1,
                k == index - start,
                index - start < heights@.len(),
                u == rows_sum(heights@, start as int, f as int, index + 1),
                list_shrink(heights@, start as int, index as int, cursor as int, height as int, f as int, c as int, u as int)
                    == list_shrink(heights@, start as int, index as int, cursor as int, height as int, first as int, count1 as int, used1 as int),
            decreases c,
        {
            let front: u128 = if heights[f - start] == 0 {
                1
            } else {
                heights[f - start] as u128
            };
            assert(front == rows_of(heights@, f - start));
            proof {
                lemma_rows_sum_nonneg(heights@, start as int, f + 1, index + 1);
            }
            u = u - front;
            f = f + 1;
            c = c - 1;
        }
        proof {
            if !(u <= height) {
                assert(index == cursor && c == 1);
                assert(f == index);
                assert(u == rows_of(heights@, k as int)) by {
                    reveal_with_fuel(rows_sum, 2);
                }
            }
        }
        first = f;
        count = c;
        used = u;
        index = index + 1;
    }
    (first, count)
}

proof fn lemma_shrink_keeps_cursor(
    heights: Seq<usize>,
    start: int,
    index: int,
    cursor: int,
    height: int,
    first: int,
    count: int,
    used: int,
)
    requires
        first + count == index + 1,
        count >= 1,
    ensures
        ({
            let (f, c, u) = list_shrink(heights, start, index, cursor, height, first, count, used);
            &&& f + c == index + 1
            &&& f >= first
            &&& c >= 0
            &&& (index == cursor ==> c >= 1)
            &&& (used <= height ==> f == first && c == count)
        }),
    decreases count,
{
    if used > height && !(index == cursor && count == 1) && count > 0 {
        if count > 1 {
            lemma_shrink_keeps_cursor(
                heights,
                start,
                index,
                cursor,
                height,
                first + 1,
                count - 1,
                used - rows_of(heights, first - start),
            );
        } else {
            assert(list_shrink(heights, start, index, cursor, height, first + 1, 0, used - rows_of(heights, first - start))
                == (first + 1, 0int, used - rows_of(heights, first - start)));
        }
    }
}

proof fn lemma_fill_after_cursor(
    heights: Seq<usize>,
    len: int,
    start: int,
    index: int,
    cursor: int,
    height: int,
    first: int,
    count: int,
    used: int,
)
    requires
        index > cursor,
        first <= cursor < first + count,
        first + count == index,
    ensures
        ({
            let (f, c) = list_fill(heights, len, start, index, cursor, height, first, count, used);
            f <= cursor < f + c
        }),
    decreases start + 2 * height - index,
{
    if !(index >= start + 2 * height || index >= len || index - start >= heights.len() || index < start) {
        let used1 = used + rows_of(heights, index - start);
        if !(used1 > height && index > cursor) {
            lemma_shrink_keeps_cursor(heights, start, index, cursor, height, first, count + 1, used1);
            let (f, c, u) = list_shrink(heights, start, index, cursor, height, first, count + 1, used1);
            lemma_fill_after_cursor(heights, len, start, index + 1, cursor, height, f, c, u);
        }
    }
}

proof fn lemma_fill_before_cursor(
    heights: Seq<usize>,
    len: int,
    start: int,
    index: int,
    cursor: int,
    height: int,
    first: int,
    count: int,
    used: int,
)
    requires
        start <= index <= cursor,
        cursor < len,
        cursor < start + 2 * height,
        cursor - start < heights.len(),
        first + count == index,
        count >= 0,
    ensures
        ({
            let (f, c) = list_fill(heights, len, start, index, cursor, height, first, count, used);
            f <= cursor < f + c
        }),
    decreases cursor - index,
{
    let used1 = used + rows_of(heights, index - start);
    lemma_shrink_keeps_cursor(heights, start, index, cursor, height, first, count + 1, used1);
    let (f, c, u) = list_shrink(heights, start, index, cursor, height, first, count + 1, used1);
    if index == cursor {
        lemma_fill_after_cursor(heights, len, start, index + 1, cursor, height, f, c, u);
    } else {
        lemma_fill_before_cursor(heights, len, start, index + 1, cursor, height, f, c, u);
    }
}

/// How the list actions move the cursor of a list of `len` items, one page being the
/// number of items shown (at least one): one item down or up, one page down or up, to the
/// first or the last item; the cursor never leaves the list, and an empty list keeps it at
/// the top. One item down and then one up comes back where it started.
pub proof fn law_list_moves(cursor: int, len: int, visible: int)
    requires
        0 <= cursor < len,
    ensures
        ({
            let page = if visible > 1 {
                visible
            } else {
                1
            };
            &&& list_apply_spec(cursor, ListAction::ItemNext, len, visible) == if cursor + 1 < len {
                cursor + 1
            } else {
                len - 1
            }
            &&& list_apply_spec(cursor, ListAction::ItemPrev, len, visible) == if cursor > 0 {
                cursor - 1
            } else {
                0
            }
            &&& list_apply_spec(cursor, ListAction::PageNext, len, visible) == if cursor + page
                < len {
                cursor + page
            } else {
                len - 1
            }
            &&& list_apply_spec(cursor, ListAction::PagePrev, len, visible) == if cursor >= page {
                cursor - page
            } else {
                cursor
            }
            &&& list_apply_spec(cursor, ListAction::Home, len, visible) == 0
            &&& list_apply_spec(cursor, ListAction::End, len, visible) == len - 1
        }),
        forall|a: ListAction| 0 <= #[trigger] list_apply_spec(cursor, a, len, visible) < len,
        cursor + 1 < len ==> list_apply_spec(
            list_apply_spec(cursor, ListAction::ItemNext, len, visible),
            ListAction::ItemPrev,
            len,
            visible,
        ) == cursor,
{
}

/// An empty list keeps its cursor at the top, whatever the action.
pub proof fn law_list_empty(cursor: int, a: ListAction, visible: int)
    ensures
        list_apply_spec(cursor, a, 0, visible) == 0,
{
}

/// The list always shows the item under the cursor, given the rows of the items up to it.
pub proof fn law_list_shows_cursor(prev: int, cursor: int, len: int, height: int, heights: Seq<usize>)
    requires
        height >= 1,
        0 <= prev,
        0 <= cursor < len,
        cursor - list_start(prev, cursor, len, height) < heights.len(),
    ensures
        ({
            let (first, count) = list_layout_spec(prev, cursor, len, height, heights);
            first <= cursor < first + count
        }),
{
    let start = list_start(prev, cursor, len, height);
    assert(start <= cursor < start + height);
    lemma_fill_before_cursor(heights, len, start, start, cursor, height, start, 0, 0);
}

/// No modifier.
pub open spec fn no_mod(m: KeyMod) -> bool {
    !m.alt && !m.ctrl && !m.shift
}

/// Control alone.
pub open spec fn ctrl_only(m: KeyMod) -> bool {
    !m.alt && m.ctrl && !m.shift
}

/// Alt alone.
pub open spec fn alt_only(m: KeyMod) -> bool {
    m.alt && !m.ctrl && !m.shift
}

/// The input action a key stands for: characters are typed, the arrows move, backspace and
/// delete delete; with control `e`, `a` and `k` go to the end, to the start and delete to
/// the end; with alt `f` and `b` move by words.
pub open spec fn input_key_action(key: Key) -> Option<InputAction> {
    if no_mod(key.mode) {
        match key.name {
            KeyName::Char(c) => Some(InputAction::Insert(c)),
            KeyName::Backspace => Some(InputAction::DeleteBackward),
            KeyName::Delete => Some(InputAction::DeleteForward),
            KeyName::Left => Some(InputAction::CursorBackward),
            KeyName::Right => Some(InputAction::CursorForward),
            _ => None,
        }
    } else if ctrl_only(key.mode) {
        if key.name == KeyName::Char('e') {
            Some(InputAction::CursorEnd)
        } else if key.name == KeyName::Char('a') {
            Some(InputAction::CursorStart)
        } else if key.name == KeyName::Char('k') {
            Some(InputAction::DeleteEnd)
        } else {
            None
        }
    } else if alt_only(key.mode) {
        if key.name == KeyName::Char('f') {
            Some(InputAction::CursorNextWord)
        } else if key.name == KeyName::Char('b') {
            Some(InputAction::CursorPrevWord)
        } else {
            None
        }
    } else {
        None
    }
}

/// The input action a key stands for, if any.
pub fn input_key(key: Key) -> (r: Option<InputAction>)
    ensures
        r == input_key_action(key),
{
    let m = key.mode;
    if !m.alt && !m.ctrl && !m.shift {
        match key.name {
            KeyName::Char(c) => Some(InputAction::Insert(c)),
            KeyName::Backspace => Some(InputAction::DeleteBackward),
            KeyName::Delete => Some(InputAction::DeleteForward),
            KeyName::Left => Some(InputAction::CursorBackward),
            KeyName::Right => Some(InputAction::CursorForward),
            _ => None,
        }
    } else if !m.alt && m.ctrl && !m.shift {
        match key.name {
            KeyName::Char('e') => Some(InputAction::CursorEnd),
            KeyName::Char('a') => Some(InputAction::CursorStart),
            KeyName::Char('k') => Some(InputAction::DeleteEnd),
            _ => None,
        }
    } else if m.alt && !m.ctrl && !m.shift {
        match key.name {
            KeyName::Char('f') => Some(InputAction::CursorNextWord),
            KeyName::Char('b') => Some(InputAction::CursorPrevWord),
            _ => None,
        }
    } else {
        None
    }
}

impl Input {
    /// Handle a key: apply the action it stands for, if any.
    pub fn handle(&mut self, key: Key)
        ensures
            match input_key_action(key) {
                Some(a) => (final(self).text(), final(self).cursor()) == input_apply_spec(
                    old(self).text(),
                    old(self).cursor(),
                    a,
                ),
                None => final(self).text() == old(self).text() && final(self).cursor() == old(
                    self,
                ).cursor(),
            },
    {
        match input_key(key) {
            Some(action) => self.apply(&action),
            None => {},
        }
    }
}

/// The list action a key stands for: the arrows and pages move; with control `n` and `p`
/// go to the next and the previous item.
pub open spec fn list_key_action(key: Key) -> Option<ListAction> {
    if no_mod(key.mode) {
        match key.name {
            KeyName::Down => Some(ListAction::ItemNext),
            KeyName::Up => Some(ListAction::ItemPrev),
            KeyName::PageDown => Some(ListAction::PageNext),
            KeyName::PageUp => Some(ListAction::PagePrev),
            _ => None,
        }
    } else if ctrl_only(key.mode) {
        if key.name == KeyName::Char('n') {
            Some(ListAction::ItemNext)
        } else if key.name == KeyName::Char('p') {
            Some(ListAction::ItemPrev)
        } else {
            None
        }
    } else {
        None
    }
}

/// The list action a key stands for, if any.
pub fn list_key(key: Key) -> (r: Option<ListAction>)
    ensures
        r == list_key_action(key),
{
    let m = key.mode;
    if !m.alt && !m.ctrl && !m.shift {
        match key.name {
            KeyName::Down => Some(ListAction::ItemNext),
            KeyName::Up => Some(ListAction::ItemPrev),
            KeyName::PageDown => Some(ListAction::PageNext),
            KeyName::PageUp => Some(ListAction::PagePrev),
            _ => None,
        }
    } else if !m.alt && m.ctrl && !m.shift {
        match key.name {
            KeyName::Char('n') => Some(ListAction::ItemNext),
            KeyName::Char('p') => Some(ListAction::ItemPrev),
            _ => None,
        }
    } else {
        None
    }
}

/// Typing a character and deleting it again gives back the text and the cursor; moving the
/// cursor never changes the text, and the cursor stays within it.
pub proof fn law_input_edits(t: Seq<char>, cursor: int, c: char, action: InputAction)
    requires
        0 <= cursor <= t.len(),
    ensures
        ({
            let (t1, c1) = input_apply_spec(t, cursor, InputAction::Insert(c));
            input_apply_spec(t1, c1, InputAction::DeleteBackward)
        }) == (t, cursor),
        (action is CursorForward || action is CursorBackward || action is CursorEnd
            || action is CursorStart || action is CursorNextWord || action is CursorPrevWord)
            ==> input_apply_spec(t, cursor, action).0 == t,
{
    let (t1, c1) = input_apply_spec(t, cursor, InputAction::Insert(c));
    assert(t1.take(c1 - 1) + t1.skip(c1) =~= t);
}

/// Moving forward over characters of one kind (word separators when `sep`) from `i` stops
/// at the first character of the other kind, or at the end.
proof fn lemma_skip_forward(t: Seq<char>, i: int, sep: bool)
    requires
        0 <= i <= t.len(),
    ensures
        i <= skip_forward(t, i, sep) <= t.len(),
        forall|j: int| i <= j < skip_forward(t, i, sep) ==> is_word_separator_spec(#[trigger] t[j]) == sep,
        skip_forward(t, i, sep) < t.len() ==> is_word_separator_spec(t[skip_forward(t, i, sep)]) != sep,
    decreases t.len() - i,
{
    if i < t.len() && is_word_separator_spec(t[i]) == sep {
        lemma_skip_forward(t, i + 1, sep);
    }
}

/// Moving back over characters of one kind from `i` stops after the last character of the
/// other kind, or at the start.
proof fn lemma_skip_backward(t: Seq<char>, i: int, sep: bool)
    requires
        0 <= i <= t.len(),
    ensures
        0 <= skip_backward(t, i, sep) <= i,
        forall|j: int| skip_backward(t, i, sep) <= j < i ==> is_word_separator_spec(#[trigger] t[j]) == sep,
        skip_backward(t, i, sep) > 0 ==> is_word_separator_spec(t[skip_backward(t, i, sep) - 1]) != sep,
    decreases i,
{
    if i > 0 && is_word_separator_spec(t[i - 1]) == sep {
        lemma_skip_backward(t, i - 1, sep);
    }
}

/// What each editing action does to the text and the cursor: a character is typed at the
/// cursor, which moves past it; Backspace and Delete take out the character before and
/// after the cursor; the cursor moves one character forward or back, to the start or to
/// the end, never past either end; Ctrl-K cuts the text at the cursor.
pub proof fn law_input_actions(t: Seq<char>, cursor: int, c: char)
    requires
        0 <= cursor <= t.len(),
    ensures
        ({
            let (u, k) = input_apply_spec(t, cursor, InputAction::Insert(c));
            &&& u.len() == t.len() + 1
            &&& k == cursor + 1
            &&& u[cursor] == c
            &&& forall|i: int| 0 <= i < cursor ==> u[i] == t[i]
            &&& forall|i: int| cursor <= i < t.len() ==> u[i + 1] == t[i]
        }),
        cursor < t.len() ==> input_apply_spec(t, cursor, InputAction::CursorForward) == (t, cursor + 1),
        cursor == t.len() ==> input_apply_spec(t, cursor, InputAction::CursorForward) == (t, cursor),
        cursor > 0 ==> input_apply_spec(t, cursor, InputAction::CursorBackward) == (t, cursor - 1),
        cursor == 0 ==> input_apply_spec(t, cursor, InputAction::CursorBackward) == (t, 0int),
        input_apply_spec(t, cursor, InputAction::CursorStart) == (t, 0int),
        input_apply_spec(t, cursor, InputAction::CursorEnd) == (t, t.len() as int),
        cursor > 0 ==> ({
            let (u, k) = input_apply_spec(t, cursor, InputAction::DeleteBackward);
            &&& u.len() == t.len() - 1
            &&& k == cursor - 1
            &&& forall|i: int| 0 <= i < cursor - 1 ==> u[i] == t[i]
            &&& forall|i: int| cursor <= i < t.len() ==> u[i - 1] == t[i]
        }),
        cursor == 0 ==> input_apply_spec(t, cursor, InputAction::DeleteBackward) == (t, cursor),
        cursor < t.len() ==> ({
            let (u, k) = input_apply_spec(t, cursor, InputAction::DeleteForward);
            &&& u.len() == t.len() - 1
            &&& k == cursor
            &&& forall|i: int| 0 <= i < cursor ==> u[i] == t[i]
            &&& forall|i: int| cursor < i < t.len() ==> u[i - 1] == t[i]
        }),
        cursor == t.len() ==> input_apply_spec(t, cursor, InputAction::DeleteForward) == (t, cursor),
        ({
            let (u, k) = input_apply_spec(t, cursor, InputAction::DeleteEnd);
            &&& u.len() == cursor
            &&& k == cursor
            &&& forall|i: int| 0 <= i < cursor ==> u[i] == t[i]
        }),
        cursor < t.len() ==> ({
            let (u, k) = input_apply_spec(t, cursor, InputAction::CursorForward);
            input_apply_spec(u, k, InputAction::CursorBackward)
        }) == (t, cursor),
{
    let (u, k) = input_apply_spec(t, cursor, InputAction::Insert(c));
    assert(u.len() == t.len() + 1);
    assert forall|i: int| 0 <= i < cursor implies u[i] == t[i] by {
        assert(u[i] == t.take(cursor)[i]);
    }
    assert forall|i: int| cursor <= i < t.len() implies u[i + 1] == t[i] by {
        assert(u[i + 1] == t.skip(cursor)[i - cursor]);
    }
    if cursor > 0 {
        let (d, _) = input_apply_spec(t, cursor, InputAction::DeleteBackward);
        assert forall|i: int| 0 <= i < cursor - 1 implies d[i] == t[i] by {
            assert(d[i] == t.take(cursor - 1)[i]);
        }
        assert forall|i: int| cursor <= i < t.len() implies d[i - 1] == t[i] by {
            assert(d[i - 1] == t.skip(cursor)[i - cursor]);
        }
    }
    if cursor < t.len() {
        let (d, _) = input_apply_spec(t, cursor, InputAction::DeleteForward);
        assert forall|i: int| 0 <= i < cursor implies d[i] == t[i] by {
            assert(d[i] == t.take(cursor)[i]);
        }
        assert forall|i: int| cursor < i < t.len() implies d[i - 1] == t[i] by {
            assert(d[i - 1] == t.skip(cursor + 1)[i - cursor - 1]);
        }
    }
}

/// Forward from `cursor`, `cursor..k` are word separators and `k..r` a word: `k` is the
/// first character that is not a separator and `r` the first separator after it (or the
/// end).
pub open spec fn forward_word_move(t: Seq<char>, cursor: int, k: int, r: int) -> bool {
    &&& cursor <= k <= r <= t.len()
    &&& forall|i: int| cursor <= i < k ==> is_word_separator_spec(#[trigger] t[i])
    &&& forall|i: int| k <= i < r ==> !is_word_separator_spec(#[trigger] t[i])
    &&& (k < t.len() ==> !is_word_separator_spec(t[k]))
    &&& (r < t.len() ==> is_word_separator_spec(t[r]))
}

/// Back from `cursor`, `k..cursor` are word separators and `r..k` a word: `k` is just after
/// the last character that is not a separator and `r` just after the separator before it
/// (or the start).
pub open spec fn backward_word_move(t: Seq<char>, cursor: int, k: int, r: int) -> bool {
    &&& 0 <= r <= k <= cursor
    &&& forall|i: int| k <= i < cursor ==> is_word_separator_spec(#[trigger] t[i])
    &&& forall|i: int| r <= i < k ==> !is_word_separator_spec(#[trigger] t[i])
    &&& (k > 0 ==> !is_word_separator_spec(t[k - 1]))
    &&& (r > 0 ==> is_word_separator_spec(t[r - 1]))
}

/// Moving by words: forward, the cursor passes the word separators after it and then the
/// word that follows, stopping before the next separator or at the end; back, it passes the
/// separators before it and then the word before them, stopping after the separator before
/// that word or at the start. The text stays as it is.
pub proof fn law_input_word_moves(t: Seq<char>, cursor: int)
    requires
        0 <= cursor <= t.len(),
    ensures
        input_apply_spec(t, cursor, InputAction::CursorNextWord).0 == t,
        exists|k: int| #[trigger] forward_word_move(
            t,
            cursor,
            k,
            input_apply_spec(t, cursor, InputAction::CursorNextWord).1,
        ),
        input_apply_spec(t, cursor, InputAction::CursorPrevWord).0 == t,
        exists|k: int| #[trigger] backward_word_move(
            t,
            cursor,
            k,
            input_apply_spec(t, cursor, InputAction::CursorPrevWord).1,
        ),
{
    let k = skip_forward(t, cursor, true);
    lemma_skip_forward(t, cursor, true);
    lemma_skip_forward(t, k, false);
    assert(forward_word_move(t, cursor, k, next_word_end(t, cursor)));
    assert(input_apply_spec(t, cursor, InputAction::CursorNextWord) == (t, next_word_end(t, cursor)));
    assert(forward_word_move(t, cursor, k, input_apply_spec(t, cursor, InputAction::CursorNextWord).1));
    let j = skip_backward(t, cursor, true);
    lemma_skip_backward(t, cursor, true);
    lemma_skip_backward(t, j, false);
    assert(backward_word_move(t, cursor, j, prev_word_start(t, cursor)));
    assert(input_apply_spec(t, cursor, InputAction::CursorPrevWord) == (t, prev_word_start(t, cursor)));
    assert(backward_word_move(t, cursor, j, input_apply_spec(t, cursor, InputAction::CursorPrevWord).1));
}

/// The first column an input shows, given the one it showed and the width it has: moved
/// just enough to show the cursor at `cursor`, never past it.
pub open spec fn input_offset_spec(offset: int, cursor: int, size: int) -> int {
    if offset > cursor {
        cursor
    } else if offset + size < cursor + 1 {
        cursor - size + 1
    } else {
        offset
    }
}

/// Scrolls an input so that its cursor is shown.
pub fn input_fix_offset(offset: usize, cursor: usize, size: usize) -> (r: usize)
    requires
        offset + size <= usize::MAX,
        cursor < usize::MAX,
    ensures
        r == input_offset_spec(offset as int, cursor as int, size as int),
{
    if offset > cursor {
        cursor
    } else if offset + size < cursor + 1 {
        cursor - size + 1
    } else {
        offset
    }
}

/// The first row a list shows, given the one it showed and its height: moved just enough
/// to show the cursor.
pub open spec fn list_offset_spec(offset: int, cursor: int, height: int) -> int {
    if offset > cursor {
        cursor
    } else if height > 0 && offset + height - 1 < cursor {
        cursor - height + 1
    } else {
        offset
    }
}

/// Scrolls a list so that its cursor is shown.
pub fn list_offset_fix(offset: usize, cursor: usize, height: usize) -> (r: usize)
    requires
        offset + height <= usize::MAX,
    ensures
        r == list_offset_spec(offset as int, cursor as int, height as int),
{
    if offset > cursor {
        cursor
    } else if height > 0 && offset + height - 1 < cursor {
        cursor - height + 1
    } else {
        offset
    }
}

/// After scrolling, the cursor is in view: an input of positive width shows the cursor's
/// column, a list of positive height shows the cursor's row.
pub proof fn law_offset_shows_cursor(offset: int, cursor: int, size: int)
    requires
        0 <= offset,
        0 <= cursor,
        0 < size,
    ensures
        input_offset_spec(offset, cursor, size) <= cursor < input_offset_spec(offset, cursor, size)
            + size,
        list_offset_spec(offset, cursor, size) <= cursor < list_offset_spec(offset, cursor, size)
            + size,
{
}

} // verus!
