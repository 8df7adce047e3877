//! Keys, chords and the descriptions of bindable actions.
use vstd::prelude::*;

verus! {

/// Name of a key.
#[derive(Debug, Clone, Copy, PartialEq, Eq, Hash, Structural)]
pub enum KeyName {
    Char(char),
    Left,
    Right,
    Up,
    Down,
    Backspace,
    Delete,
    PageUp,
    PageDown,
    Home,
    End,
    Enter,
    Esc,
}

/// Modifiers held with a key.
#[derive(Debug, Clone, Copy, PartialEq, Eq, Hash, Structural)]
pub struct KeyMod {
    pub alt: bool,
    pub ctrl: bool,
    pub shift: bool,
}

impl KeyMod {
    pub fn empty() -> (r: Self)
        ensures
            r == (KeyMod { alt: false, ctrl: false, shift: false }),
    {
        KeyMod { alt: false, ctrl: false, shift: false }
    }

    pub fn ctrl() -> (r: Self)
        ensures
            r == (KeyMod { alt: false, ctrl: true, shift: false }),
    {
        KeyMod { alt: false, ctrl: true, shift: false }
    }

    pub fn alt() -> (r: Self)
        ensures
            r == (KeyMod { alt: true, ctrl: false, shift: false }),
    {
        KeyMod { alt: true, ctrl: false, shift: false }
    }

    pub fn alt_shift() -> (r: Self)
        ensures
            r == (KeyMod { alt: true, ctrl: false, shift: true }),
    {
        KeyMod { alt: true, ctrl: false, shift: true }
    }
}

/// A key with its modifiers.
#[derive(Debug, Clone, Copy, PartialEq, Eq, Hash, Structural)]
pub struct Key {
    pub name: KeyName,
    pub mode: KeyMod,
}

/// A key without modifiers, as a spec value.
pub open spec fn plain(name: KeyName) -> Key {
    Key { name, mode: KeyMod { alt: false, ctrl: false, shift: false } }
}

/// A key held with control.
pub open spec fn with_ctrl(c: char) -> Key {
    Key { name: KeyName::Char(c), mode: KeyMod { alt: false, ctrl: true, shift: false } }
}

/// A key held with alt.
pub open spec fn with_alt(c: char) -> Key {
    Key { name: KeyName::Char(c), mode: KeyMod { alt: true, ctrl: false, shift: false } }
}

/// A key held with alt and shift.
pub open spec fn with_alt_shift(c: char) -> Key {
    Key { name: KeyName::Char(c), mode: KeyMod { alt: true, ctrl: false, shift: true } }
}

/// What an action is: its default bindings (each a sequence of keys), its name and what it
/// does.
#[derive(Debug, Clone)]
pub struct ActionDesc {
    pub chords: Vec<Vec<Key>>,
    pub name: String,
    pub description: String,
}

/// Chords, name and description of a description, as plain values.
pub open spec fn desc_view(d: ActionDesc) -> (Seq<Seq<Key>>, Seq<char>, Seq<char>) {
    (d.chords@.map_values(|c: Vec<Key>| c@), d.name@, d.description@)
}

/// One chord of one key each, in order.
pub open spec fn single_keys(keys: Seq<Key>) -> Seq<Seq<Key>> {
    keys.map_values(|k: Key| seq![k])
}

/// Chords of single keys.
pub fn single_key_chords(keys: &[Key]) -> (r: Vec<Vec<Key>>)
    ensures
        r@.map_values(|c: Vec<Key>| c@) == single_keys(keys@),
{
    let mut r: Vec<Vec<Key>> = Vec::new();
    let mut i: usize = 0;
    while i < keys.len()
        invariant
            0 <= i <= keys@.len(),
            r@.map_values(|c: Vec<Key>| c@) == single_keys(keys@.take(i as int)),
        decreases keys@.len() - i,
    {
        let ghost before = r@;
        let mut chord: Vec<Key> = Vec::new();
        chord.push(keys[i]);
        assert(chord@ =~= seq![keys@[i as int]]);
        r.push(chord);
        assert(r@.map_values(|c: Vec<Key>| c@) =~= before.map_values(|c: Vec<Key>| c@).push(
            seq![keys@[i as int]],
        ));
        i = i + 1;
        assert(r@.map_values(|c: Vec<Key>| c@) =~= single_keys(keys@.take(i as int)));
    }
    assert(keys@.take(i as int) =~= keys@);
    r
}

/// Description made of chords of one key each.
pub fn describe(keys: &[Key], name: &str, description: &str) -> (r: ActionDesc)
    ensures
        desc_view(r) == (single_keys(keys@), name@, description@),
{
    ActionDesc {
        chords: single_key_chords(keys),
        name: name.to_owned(),
        description: description.to_owned(),
    }
}

} // verus!
