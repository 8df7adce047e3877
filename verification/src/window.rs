//! Windows: their identifiers, and the stack of open windows with the active one on top.
use vstd::prelude::*;
use crate::text::{chars_of, decimal, decimal_chars, parse_u64, parse_u64_spec, string_from_chars};

verus! {

/// Identifier of a window: a name or a number.
#[derive(Debug, Clone, PartialEq, Eq, Hash)]
pub enum WindowId {
    String(String),
    Number(u64),
}

/// A window identifier as a plain value: a name (`Ok`) or a number (`Err`).
pub type WindowKey = Result<Seq<char>, u64>;

pub open spec fn window_key(w: WindowId) -> WindowKey {
    match w {
        WindowId::String(s) => Ok(s@),
        WindowId::Number(n) => Err(n),
    }
}

/// The text of an identifier: its name, or its number in decimal.
pub open spec fn window_text(w: WindowId) -> Seq<char> {
    match w {
        WindowId::String(s) => s@,
        WindowId::Number(n) => decimal(n as nat),
    }
}

impl WindowId {
    /// Identifier of a window that belongs to this one: this one's text, `/` and the suffix.
    pub fn with_suffix(&self, suffix: &str) -> (r: WindowId)
        ensures
            window_key(r) == Ok::<Seq<char>, u64>(window_text(*self) + seq!['/'] + suffix@),
    {
        let mut text = match self {
            WindowId::String(name) => chars_of(name.as_str()),
            WindowId::Number(n) => decimal_chars(*n),
        };
        let ghost head = text@;
        text.push('/');
        let mut rest = chars_of(suffix);
        text.append(&mut rest);
        assert(text@ =~= head + seq!['/'] + suffix@);
        WindowId::String(string_from_chars(text.as_slice()))
    }

    /// A copy of the identifier.
    fn copy_of(&self) -> (r: WindowId)
        ensures
            window_key(r) == window_key(*self),
    {
        match self {
            WindowId::String(name) => WindowId::String(name.clone()),
            WindowId::Number(n) => WindowId::Number(*n),
        }
    }

    /// Whether two identifiers are the same.
    pub fn same(&self, other: &WindowId) -> (r: bool)
        ensures
            r == (window_key(*self) == window_key(*other)),
    {
        match (self, other) {
            (WindowId::String(a), WindowId::String(b)) => *a == *b,
            (WindowId::Number(a), WindowId::Number(b)) => *a == *b,
            _ => false,
        }
    }
}

impl From<u64> for WindowId {
    fn from(value: u64) -> (r: Self) {
        WindowId::Number(value)
    }
}

impl vstd::std_specs::convert::FromSpecImpl<u64> for WindowId {
    open spec fn obeys_from_spec() -> bool {
        true
    }

    open spec fn from_spec(v: u64) -> Self {
        WindowId::Number(v)
    }
}

impl From<String> for WindowId {
    fn from(value: String) -> (r: Self) {
        WindowId::String(value)
    }
}

impl vstd::std_specs::convert::FromSpecImpl<String> for WindowId {
    open spec fn obeys_from_spec() -> bool {
        true
    }

    open spec fn from_spec(v: String) -> Self {
        WindowId::String(v)
    }
}

/// Identifier given on the command line: none when empty, a number when it reads as one,
/// else a name.
pub fn parse_window_id(value: &str) -> (r: Result<Option<WindowId>, String>)
    ensures
        r matches Ok(id) && if value@.len() == 0 {
            id is None
        } else {
            id matches Some(w) && window_key(w) == match parse_u64_spec(value@) {
                Some(n) => Err::<Seq<char>, u64>(n),
                None => Ok(value@),
            }
        },
{
    let chars = chars_of(value);
    if chars.len() == 0 {
        return Ok(None);
    }
    let id = match parse_u64(chars.as_slice()) {
        Some(n) => WindowId::Number(n),
        None => WindowId::String(value.to_owned()),
    };
    Ok(Some(id))
}

/// A change of the window stack, as it is reported.
#[derive(Debug, Clone)]
pub enum WindowEvent {
    Closed(WindowId),
    Opened(WindowId),
    Switched { from: Option<WindowId>, to: WindowId },
}

/// Identifiers of the windows of a stack, bottom first.
pub open spec fn keys_of<W>(s: Seq<(WindowKey, W)>) -> Seq<WindowKey> {
    s.map_values(|e: (WindowKey, W)| e.0)
}

/// No identifier occurs twice.
pub open spec fn stack_wf<W>(s: Seq<(WindowKey, W)>) -> bool {
    keys_of(s).no_duplicates()
}

/// Position of the window with the given identifier.
pub open spec fn key_index<W>(s: Seq<(WindowKey, W)>, k: WindowKey) -> int {
    keys_of(s).index_of(k)
}

/// The stack after opening a window that is not in it: the top one is closed first when
/// `close` is set.
pub open spec fn stack_open<W>(s: Seq<(WindowKey, W)>, k: WindowKey, w: W, close: bool) -> Seq<
    (WindowKey, W),
> {
    let base = if close && s.len() > 0 {
        s.drop_last()
    } else {
        s
    };
    base.push((k, w))
}

/// The stack after switching to the window at `i`: the top one is closed first when `close`
/// is set, then the window at `i` and the top one trade places.
pub open spec fn stack_switch<W>(s: Seq<(WindowKey, W)>, i: int, close: bool) -> Seq<(WindowKey, W)> {
    let base = if close {
        s.drop_last()
    } else {
        s
    };
    base.update(i, base.last()).update(base.len() - 1, s[i])
}

/// What closing a window did.
pub enum CloseOutcome<W> {
    /// there is no window at all: the interface quits
    Quit,
    /// there is no window with that identifier
    NotFound,
    /// the window was taken out; when it was the active one and another is left, that one
    /// is resumed
    Closed { uid: WindowId, window: W, resume: bool },
}

/// What opening a window did.
pub enum OpenOutcome<W> {
    /// a window with that identifier is open already: switch to it instead
    Exists,
    /// the window is on top; the top window was closed before when asked, and `from` is the
    /// window that was active
    Opened { closed: Option<(WindowId, W)>, from: Option<WindowId> },
}

/// What switching to a window did.
pub enum SwitchOutcome<W> {
    /// no such window, or it is active already
    Nothing,
    /// the window is on top; `from` was active, and was closed when asked
    Switched { from: WindowId, closed: Option<(WindowId, W)> },
}

/// Windows, the active one last.
pub struct WindowStack<W> {
    entries: Vec<(WindowId, W)>,
}

impl<W> View for WindowStack<W> {
    type V = Seq<(WindowKey, W)>;

    closed spec fn view(&self) -> Seq<(WindowKey, W)> {
        self.entries@.map_values(|e: (WindowId, W)| (window_key(e.0), e.1))
    }
}

proof fn lemma_key_index<W>(s: Seq<(WindowKey, W)>, i: int)
    requires
        stack_wf(s),
        0 <= i < s.len(),
    ensures
        key_index(s, s[i].0) == i,
        keys_of(s).contains(s[i].0),
{
    let ks = keys_of(s);
    assert(ks[i] == s[i].0);
    let j = key_index(s, s[i].0);
    assert(0 <= j < ks.len() && ks[j] == s[i].0);
}

proof fn lemma_keys_remove<W>(s: Seq<(WindowKey, W)>, i: int)
    requires
        stack_wf(s),
        0 <= i < s.len(),
    ensures
        keys_of(s.remove(i)) == keys_of(s).remove(i),
        stack_wf(s.remove(i)),
{
    assert(keys_of(s.remove(i)) =~= keys_of(s).remove(i));
}

impl<W> WindowStack<W> {
    pub fn new() -> (r: Self)
        ensures
            r@ == Seq::<(WindowKey, W)>::empty(),
    {
        let r = WindowStack { entries: Vec::new() };
        assert(r@ =~= Seq::<(WindowKey, W)>::empty());
        r
    }

    pub fn len(&self) -> (r: usize)
        ensures
            r == self@.len(),
    {
        self.entries.len()
    }

    /// Identifier of the window at `index`.
    pub fn uid(&self, index: usize) -> (r: &WindowId)
        requires
            index < self@.len(),
        ensures
            window_key(*r) == self@[index as int].0,
    {
        &self.entries[index].0
    }

    /// The window at `index`.
    pub fn get(&self, index: usize) -> (r: &W)
        requires
            index < self@.len(),
        ensures
            *r == self@[index as int].1,
    {
        &self.entries[index].1
    }

    /// The window at `index`, to change it; identifiers stay as they are.
    pub fn get_mut(&mut self, index: usize) -> (r: &mut W)
        requires
            index < old(self)@.len(),
        ensures
            *r == old(self)@[index as int].1,
            final(self)@ == old(self)@.update(index as int, (old(self)@[index as int].0, *final(r))),
    {
        &mut self.entries[index].1
    }

    /// Position of the window with the given identifier.
    pub fn position(&self, uid: &WindowId) -> (r: Option<usize>)
        requires
            stack_wf(self@),
        ensures
            r is Some <==> keys_of(self@).contains(window_key(*uid)),
            r matches Some(i) ==> i == key_index(self@, window_key(*uid)) && i < self@.len(),
    {
        let mut i: usize = 0;
        while i < self.entries.len()
            invariant
                0 <= i <= self@.len(),
                stack_wf(self@),
                self@.len() == self.entries@.len(),
                forall|j: int| 0 <= j < i ==> #[trigger] self@[j].0 != window_key(*uid),
            decreases self@.len() - i,
        {
            if self.entries[i].0.same(uid) {
                proof {
                    lemma_key_index(self@, i as int);
                }
                return Some(i);
            }
            i = i + 1;
        }
        assert(!keys_of(self@).contains(window_key(*uid))) by {
            if keys_of(self@).contains(window_key(*uid)) {
                let j = choose|j: int| 0 <= j < keys_of(self@).len() && keys_of(self@)[j] == window_key(*uid);
                assert(self@[j].0 == window_key(*uid));
            }
        }
        None
    }

    /// Close the window with the given identifier, or the active one.
    pub fn close(&mut self, uid: Option<WindowId>) -> (r: CloseOutcome<W>)
        requires
            stack_wf(old(self)@),
        ensures
            stack_wf(final(self)@),
            (r is Quit) <==> (uid is None && old(self)@.len() == 0),
            (r is NotFound) <==> (uid matches Some(u) && !keys_of(old(self)@).contains(window_key(u))),
            !(r is Closed) ==> final(self)@ == old(self)@,
            r matches CloseOutcome::Closed { uid: c, window, resume } ==> {
                let k = match uid {
                    Some(u) => window_key(u),
                    None => old(self)@.last().0,
                };
                let i = key_index(old(self)@, k);
                &&& 0 <= i < old(self)@.len()
                &&& old(self)@[i].0 == k
                &&& window_key(c) == k
                &&& window == old(self)@[i].1
                &&& final(self)@ == old(self)@.remove(i)
                &&& resume == (i == old(self)@.len() - 1 && old(self)@.len() > 1)
            },
    {
        let target = match uid {
            Some(u) => u,
            None => {
                if self.entries.len() == 0 {
                    return CloseOutcome::Quit;
                }
                let last = self.entries.len() - 1;
                proof {
                    lemma_key_index(self@, last as int);
                }
                self.entries[last].0.copy_of()
            },
        };
        let ghost k = window_key(target);
        assert(k == match uid {
            Some(u) => window_key(u),
            None => old(self)@.last().0,
        });
        let index = match self.position(&target) {
            Some(i) => i,
            None => {
                return CloseOutcome::NotFound;
            },
        };
        let ghost before = self@;
        let (closed, window) = self.entries.remove(index);
        proof {
            assert(self@ =~= before.remove(index as int));
            lemma_keys_remove(before, index as int);
            lemma_key_index(before, index as int);
        }
        let resume = index == self.entries.len() && self.entries.len() > 0;
        CloseOutcome::Closed { uid: closed, window, resume }
    }

    /// Open a window on top, unless one with its identifier is open already.
    pub fn open(&mut self, uid: WindowId, window: W, close: bool) -> (r: OpenOutcome<W>)
        requires
            stack_wf(old(self)@),
        ensures
            stack_wf(final(self)@),
            (r is Exists) <==> keys_of(old(self)@).contains(window_key(uid)),
            r is Exists ==> final(self)@ == old(self)@,
            r matches OpenOutcome::Opened { closed, from } ==> {
                &&& final(self)@ == stack_open(old(self)@, window_key(uid), window, close)
                &&& (closed is Some <==> close && old(self)@.len() > 0)
                &&& closed matches Some(c) ==> window_key(c.0) == old(self)@.last().0 && c.1
                    == old(self)@.last().1
                &&& (from is Some <==> old(self)@.len() > 0)
                &&& from matches Some(f) ==> window_key(f) == old(self)@.last().0
            },
    {
        if self.position(&uid).is_some() {
            return OpenOutcome::Exists;
        }
        let ghost before = self@;
        let ghost k = window_key(uid);
        let closed = if close && self.entries.len() > 0 {
            let last = self.entries.pop().unwrap();
            proof {
                assert(self@ =~= before.drop_last());
                assert(keys_of(self@) =~= keys_of(before).drop_last());
            }
            Some(last)
        } else {
            None
        };
        let from = match &closed {
            Some(c) => Some(c.0.copy_of()),
            None => if self.entries.len() > 0 {
                Some(self.entries[self.entries.len() - 1].0.copy_of())
            } else {
                None
            },
        };
        let ghost base = self@;
        self.entries.push((uid, window));
        proof {
            assert(self@ =~= base.push((k, window)));
            assert(keys_of(self@) =~= keys_of(base).push(k));
            assert(!keys_of(base).contains(k)) by {
                if keys_of(base).contains(k) {
                    let j = choose|j: int| 0 <= j < keys_of(base).len() && keys_of(base)[j] == k;
                    assert(keys_of(before)[j] == k);
                }
            }
        }
        OpenOutcome::Opened { closed, from }
    }

    /// Bring the window with the given identifier on top, trading places with the active
    /// one, which is closed first when asked.
    pub fn switch(&mut self, uid: &WindowId, close: bool) -> (r: SwitchOutcome<W>)
        requires
            stack_wf(old(self)@),
        ensures
            stack_wf(final(self)@),
            (r is Nothing) <==> (!keys_of(old(self)@).contains(window_key(*uid))
                || key_index(old(self)@, window_key(*uid)) == old(self)@.len() - 1),
            r is Nothing ==> final(self)@ == old(self)@,
            r matches SwitchOutcome::Switched { from, closed } ==> {
                let i = key_index(old(self)@, window_key(*uid));
                &&& 0 <= i < old(self)@.len() - 1
                &&& old(self)@[i].0 == window_key(*uid)
                &&& final(self)@ == stack_switch(old(self)@, i, close)
                &&& window_key(from) == old(self)@.last().0
                &&& (closed is Some <==> close)
                &&& closed matches Some(c) ==> window_key(c.0) == old(self)@.last().0 && c.1
                    == old(self)@.last().1
            },
    {
        let index_to = match self.position(uid) {
            Some(i) => i,
            None => {
                return SwitchOutcome::Nothing;
            },
        };
        let index_from = self.entries.len() - 1;
        if index_from == index_to {
            return SwitchOutcome::Nothing;
        }
        let ghost before = self@;
        let from = self.entries[index_from].0.copy_of();
        let closed = if close {
            let last = self.entries.pop().unwrap();
            Some(last)
        } else {
            None
        };
        let ghost base = self@;
        proof {
            if close {
                assert(base =~= before.drop_last());
            }
        }
        let last_index = self.entries.len() - 1;
        if index_to < last_index {
            let top = self.entries.pop().unwrap();
            let target = self.entries.remove(index_to);
            self.entries.insert(index_to, top);
            self.entries.push(target);
        }
        proof {
            assert(self@ =~= stack_switch(before, index_to as int, close));
            lemma_key_index(before, index_to as int);
            let ks = keys_of(self@);
            assert forall|a: int, b: int| 0 <= a < ks.len() && 0 <= b < ks.len() && a != b implies ks[a]
                != ks[b] by {
                let kb = keys_of(before);
                let pa = if a == index_to {
                    last_index as int
                } else if a == last_index {
                    index_to as int
                } else {
                    a
                };
                let pb = if b == index_to {
                    last_index as int
                } else if b == last_index {
                    index_to as int
                } else {
                    b
                };
                assert(ks[a] == kb[pa]);
                assert(ks[b] == kb[pb]);
            }
        }
        SwitchOutcome::Switched { from, closed }
    }
}

/// What the interface is asked to do with its windows.
pub enum WindowAction<W, A> {
    /// Stop the interface.
    Quit,
    Nothing,
    /// Close the window with this identifier, or the active one.
    Close(Option<WindowId>),
    /// Open a window on top, closing the active one first when asked.
    Open { uid: WindowId, window: W, close: bool },
    /// Switch to a window and resume it with the arguments (none for none), closing the
    /// active one first when asked.
    Switch { uid: WindowId, args: Option<A>, close: bool },
}

/// What carrying out a window action comes to.
pub enum WindowStep<W, A> {
    /// Stop the interface.
    Stop,
    /// Wait for the next event.
    Wait,
    /// Carry out this action next.
    Next(WindowAction<W, A>),
    /// The stack changed: report the events; where `resume` is given, resume the window on
    /// top with the arguments (none for none), report that it was switched to from the
    /// window given, and carry out the action it returns. `closed` is the window taken out.
    Changed { events: Vec<WindowEvent>, resume: Option<(Option<A>, Option<WindowId>)>, closed: Option<W> },
}

/// A reported change as plain values.
pub enum EventView {
    Closed(WindowKey),
    Opened(WindowKey),
    Switched(Option<WindowKey>, WindowKey),
}

pub open spec fn event_view(e: WindowEvent) -> EventView {
    match e {
        WindowEvent::Closed(u) => EventView::Closed(window_key(u)),
        WindowEvent::Opened(u) => EventView::Opened(window_key(u)),
        WindowEvent::Switched { from, to } => EventView::Switched(
            match from {
                Some(f) => Some(window_key(f)),
                None => None,
            },
            window_key(to),
        ),
    }
}

pub open spec fn events_view(es: Seq<WindowEvent>) -> Seq<EventView> {
    es.map_values(|e: WindowEvent| event_view(e))
}

pub open spec fn key_of(u: Option<WindowId>) -> Option<WindowKey> {
    match u {
        Some(x) => Some(window_key(x)),
        None => None,
    }
}

impl<W> WindowStack<W> {
    /// Carries out a window action: closing with no window left stops the interface; opening
    /// a window that is open already switches to it; a change of the stack is reported, and
    /// the window that becomes active is resumed.
    pub fn step<A>(&mut self, action: WindowAction<W, A>) -> (r: WindowStep<W, A>)
        requires
            stack_wf(old(self)@),
        ensures
            stack_wf(final(self)@),
            match action {
                WindowAction::Quit => r is Stop && final(self)@ == old(self)@,
                WindowAction::Nothing => r is Wait && final(self)@ == old(self)@,
                WindowAction::Close(uid) => if uid is None && old(self)@.len() == 0 {
                    r is Stop && final(self)@ == old(self)@
                } else if uid matches Some(u) && !keys_of(old(self)@).contains(window_key(u)) {
                    r is Wait && final(self)@ == old(self)@
                } else {
                    let k = match uid {
                        Some(u) => window_key(u),
                        None => old(self)@.last().0,
                    };
                    let i = key_index(old(self)@, k);
                    &&& 0 <= i < old(self)@.len()
                    &&& final(self)@ == old(self)@.remove(i)
                    &&& r matches WindowStep::Changed { events, resume, closed }
                    &&& events_view(events@) == seq![EventView::Closed(k)]
                    &&& closed == Some(old(self)@[i].1)
                    &&& (resume is Some <==> (i == old(self)@.len() - 1 && old(self)@.len() > 1))
                    &&& resume matches Some(p) ==> p.0 is None && key_of(p.1) == Some(k)
                },
                WindowAction::Open { uid, window, close } => if keys_of(old(self)@).contains(
                    window_key(uid),
                ) {
                    &&& final(self)@ == old(self)@
                    &&& r matches WindowStep::Next(WindowAction::Switch { uid: u2, args, close: c2 })
                    &&& window_key(u2) == window_key(uid) && args is None && !c2
                } else {
                    let shut = close && old(self)@.len() > 0;
                    &&& final(self)@ == stack_open(old(self)@, window_key(uid), window, close)
                    &&& r matches WindowStep::Changed { events, resume, closed }
                    &&& events_view(events@) == if shut {
                        seq![EventView::Closed(old(self)@.last().0), EventView::Opened(window_key(uid))]
                    } else {
                        seq![EventView::Opened(window_key(uid))]
                    }
                    &&& closed == if shut { Some(old(self)@.last().1) } else { None::<W> }
                    &&& resume matches Some(p) && p.0 is None && key_of(p.1) == if old(self)@.len() > 0 {
                        Some(old(self)@.last().0)
                    } else {
                        None::<WindowKey>
                    }
                },
                WindowAction::Switch { uid, args, close } => if !keys_of(old(self)@).contains(
                    window_key(uid),
                ) || key_index(old(self)@, window_key(uid)) == old(self)@.len() - 1 {
                    r is Wait && final(self)@ == old(self)@
                } else {
                    let i = key_index(old(self)@, window_key(uid));
                    &&& final(self)@ == stack_switch(old(self)@, i, close)
                    &&& r matches WindowStep::Changed { events, resume, closed }
                    &&& events_view(events@) == if close {
                        seq![EventView::Closed(old(self)@.last().0)]
                    } else {
                        Seq::<EventView>::empty()
                    }
                    &&& closed == if close { Some(old(self)@.last().1) } else { None::<W> }
                    &&& resume matches Some(p) && p.0 == args && key_of(p.1) == Some(old(self)@.last().0)
                },
            },
    {
        match action {
            WindowAction::Quit => WindowStep::Stop,
            WindowAction::Nothing => WindowStep::Wait,
            WindowAction::Close(uid) => match self.close(uid) {
                CloseOutcome::Quit => WindowStep::Stop,
                CloseOutcome::NotFound => WindowStep::Wait,
                CloseOutcome::Closed { uid: closed_uid, window, resume } => {
                    let from = closed_uid.copy_of();
                    let mut events: Vec<WindowEvent> = Vec::new();
                    events.push(WindowEvent::Closed(closed_uid));
                    assert(events_view(events@) =~= seq![EventView::Closed(window_key(from))]);
                    let resume = if resume {
                        Some((None, Some(from)))
                    } else {
                        None
                    };
                    WindowStep::Changed { events, resume, closed: Some(window) }
                },
            },
            WindowAction::Open { uid, window, close } => {
                let target = uid.copy_of();
                match self.open(uid, window, close) {
                    OpenOutcome::Exists => WindowStep::Next(
                        WindowAction::Switch { uid: target, args: None, close: false },
                    ),
                    OpenOutcome::Opened { closed, from } => {
                        let mut events: Vec<WindowEvent> = Vec::new();
                        let closed = match closed {
                            Some((closed_uid, w)) => {
                                events.push(WindowEvent::Closed(closed_uid));
                                Some(w)
                            },
                            None => None,
                        };
                        events.push(WindowEvent::Opened(target));
                        proof {
                            if close && old(self)@.len() > 0 {
                                assert(events_view(events@) =~= seq![
                                    EventView::Closed(old(self)@.last().0),
                                    EventView::Opened(window_key(uid)),
                                ]);
                            } else {
                                assert(events_view(events@) =~= seq![EventView::Opened(window_key(uid))]);
                            }
                        }
                        WindowStep::Changed { events, resume: Some((None, from)), closed }
                    },
                }
            },
            WindowAction::Switch { uid, args, close } => match self.switch(&uid, close) {
                SwitchOutcome::Nothing => WindowStep::Wait,
                SwitchOutcome::Switched { from, closed } => {
                    let mut events: Vec<WindowEvent> = Vec::new();
                    let closed = match closed {
                        Some((closed_uid, w)) => {
                            events.push(WindowEvent::Closed(closed_uid));
                            Some(w)
                        },
                        None => None,
                    };
                    proof {
                        if close {
                            assert(events_view(events@) =~= seq![EventView::Closed(old(self)@.last().0)]);
                        } else {
                            assert(events_view(events@) =~= Seq::<EventView>::empty());
                        }
                    }
                    WindowStep::Changed { events, resume: Some((args, Some(from))), closed }
                },
            },
        }
    }
}

/// Opening a window that is not open, without closing the active one, and then closing the
/// new window gives the stack back as it was; the new window is active in between.
pub proof fn law_open_then_close<W>(s: Seq<(WindowKey, W)>, k: WindowKey, w: W)
    requires
        stack_wf(s),
        !keys_of(s).contains(k),
    ensures
        stack_open(s, k, w, false).last() == (k, w),
        stack_wf(stack_open(s, k, w, false)),
        stack_open(s, k, w, false).remove(key_index(stack_open(s, k, w, false), k)) == s,
{
    let t = stack_open(s, k, w, false);
    assert(keys_of(t) =~= keys_of(s).push(k));
    assert(keys_of(t).no_duplicates()) by {
        assert forall|a: int, b: int|
            0 <= a < keys_of(t).len() && 0 <= b < keys_of(t).len() && a != b implies keys_of(t)[a]
            != keys_of(t)[b] by {
            if a == s.len() as int {
                assert(keys_of(s)[b] == keys_of(t)[b]);
            } else if b == s.len() as int {
                assert(keys_of(s)[a] == keys_of(t)[a]);
            }
        }
    }
    lemma_key_index(t, s.len() as int);
    assert(t.remove(s.len() as int) =~= s);
}

/// Switching to a window without closing the active one keeps the same windows, puts the
/// chosen one on top, and moves the one that was active to its place.
pub proof fn law_switch_keeps_windows<W>(s: Seq<(WindowKey, W)>, i: int)
    requires
        stack_wf(s),
        0 <= i < s.len() - 1,
    ensures
        stack_switch(s, i, false).len() == s.len(),
        stack_switch(s, i, false).last() == s[i],
        stack_switch(s, i, false)[i] == s.last(),
        forall|j: int|
            0 <= j < s.len() && j != i && j != s.len() - 1 ==> #[trigger] stack_switch(s, i, false)[j]
                == s[j],
        stack_switch(s, i, false).to_multiset() == s.to_multiset(),
{
    let t = stack_switch(s, i, false);
    let last = s.len() - 1;
    assert(t =~= s.update(i, s[last]).update(last, s[i]));
    let u = s.update(i, s[last]);
    broadcast use vstd::seq_lib::group_seq_properties, vstd::multiset::group_multiset_properties;
    vstd::seq_lib::to_multiset_update(s, i, s[last]);
    vstd::seq_lib::to_multiset_update(u, last, s[i]);
    let m = s.to_multiset();
    assert(s.contains(s[i]));
    assert(m.count(s[i]) > 0);
    assert(m.insert(s[last]).remove(s[i]).insert(s[i]) =~= m.insert(s[last]));
    assert(m.insert(s[last]).remove(s[last]) =~= m);
    assert(t.to_multiset() =~= s.to_multiset());
}

} // verus!
