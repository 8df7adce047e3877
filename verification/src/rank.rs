//! Decisions of the ranker: what each command changes, and what the next ranking scores.
use vstd::prelude::*;
use crate::text::chars_of;

verus! {

/// What the next ranking does.
#[derive(Debug, Clone, Copy, PartialEq, Eq, Structural)]
pub enum RankAction {
    /// nothing changed
    DoNothing,
    /// only report the last result again
    Notify,
    /// score the items from this offset on
    Offset(usize),
    /// score the current matches again
    CurrentMatch,
    /// score every item
    All,
}

/// A command sent to the ranker.
#[derive(Debug, Clone)]
pub enum RankerCmd {
    HaystackClear,
    /// that many items were appended
    HaystackAppend(usize),
    Needle(String),
    /// the scorer was replaced
    Scorer,
    KeepOrder(Option<bool>),
    /// someone waits until the commands before this one are ranked
    Sync,
}

/// State of the ranker between rankings.
pub struct RankerState {
    /// changes each time the items are cleared
    pub haystack_gen: usize,
    /// number of items collected
    pub haystack_len: usize,
    /// number of items appended since the last ranking
    pub pending: usize,
    pub needle: String,
    pub keep_order: bool,
    /// changes each time a ranking is done
    pub rank_gen: usize,
    /// number of waiters to release after the next ranking
    pub synced: usize,
    pub action: RankAction,
}

/// The action after a needle change from `old` to `new`, where the needle differs or
/// something is already due.
pub open spec fn needle_action(action: RankAction, old: Seq<char>, new: Seq<char>) -> RankAction {
    if (action is DoNothing || action is CurrentMatch) && old.is_prefix_of(new) {
        RankAction::CurrentMatch
    } else {
        RankAction::All
    }
}

/// The action after items were appended.
pub open spec fn append_action(action: RankAction, haystack_len: usize) -> RankAction {
    match action {
        RankAction::DoNothing => RankAction::Offset(haystack_len),
        RankAction::Offset(offset) => RankAction::Offset(offset),
        _ => RankAction::All,
    }
}

/// Whether `prefix` starts `s`.
fn starts_with(s: &Vec<char>, prefix: &Vec<char>) -> (r: bool)
    ensures
        r == prefix@.is_prefix_of(s@),
{
    if prefix.len() > s.len() {
        return false;
    }
    let mut i: usize = 0;
    while i < prefix.len()
        invariant
            prefix@.len() <= s@.len(),
            0 <= i <= prefix@.len(),
            forall|k: int| 0 <= k < i ==> prefix@[k] == s@[k],
        decreases prefix@.len() - i,
    {
        if prefix[i] != s[i] {
            return false;
        }
        i = i + 1;
    }
    assert(prefix@ =~= s@.take(prefix@.len() as int));
    true
}

impl RankerState {
    /// The state of a ranker that has nothing: no items, an empty needle, sorted by score.
    pub fn new() -> (r: Self)
        ensures
            r.haystack_gen == 0,
            r.haystack_len == 0,
            r.pending == 0,
            r.needle@ == Seq::<char>::empty(),
            !r.keep_order,
            r.rank_gen == 0,
            r.synced == 0,
            r.action == RankAction::DoNothing,
    {
        RankerState {
            haystack_gen: 0,
            haystack_len: 0,
            pending: 0,
            needle: String::new(),
            keep_order: false,
            rank_gen: 0,
            synced: 0,
            action: RankAction::DoNothing,
        }
    }

    /// Take a command into account; tells whether the scorer has to be made again (for a
    /// new needle or a new scorer). Once something is due, the action never goes back to
    /// doing nothing.
    pub fn process(&mut self, cmd: RankerCmd) -> (rebuild: bool)
        requires
            cmd matches RankerCmd::HaystackAppend(n) ==> old(self).haystack_len + old(self).pending
                + n <= usize::MAX,
            cmd is Sync ==> old(self).synced < usize::MAX,
        ensures
            !(old(self).action is DoNothing) ==> !(final(self).action is DoNothing),
            match cmd {
                RankerCmd::Needle(n) => if old(self).action is DoNothing && n@ == old(self).needle@ {
                    &&& !rebuild
                    &&& final(self).action == old(self).action
                    &&& final(self).needle@ == old(self).needle@
                } else {
                    &&& rebuild
                    &&& final(self).action == needle_action(
                        old(self).action,
                        old(self).needle@,
                        n@,
                    )
                    &&& final(self).needle@ == n@
                },
                RankerCmd::Scorer => rebuild && final(self).needle@ == old(self).needle@,
                _ => !rebuild && final(self).needle@ == old(self).needle@,
            },
            match cmd {
                RankerCmd::Scorer => final(self).action == RankAction::All,
                RankerCmd::HaystackAppend(n) => final(self).action == append_action(
                    old(self).action,
                    old(self).haystack_len,
                ) && final(self).pending == old(self).pending + n,
                RankerCmd::HaystackClear => {
                    &&& final(self).action == RankAction::All
                    &&& final(self).haystack_gen == (if old(self).haystack_gen == usize::MAX {
                        0
                    } else {
                        old(self).haystack_gen + 1
                    })
                    &&& final(self).haystack_len == 0
                    &&& final(self).pending == 0
                },
                RankerCmd::KeepOrder(t) => {
                    &&& final(self).action == RankAction::All
                    &&& final(self).keep_order == match t {
                        None => !old(self).keep_order,
                        Some(v) => v,
                    }
                },
                RankerCmd::Sync => {
                    &&& final(self).action == if old(self).action is DoNothing {
                        RankAction::Notify
                    } else {
                        old(self).action
                    }
                    &&& final(self).synced == old(self).synced + 1
                },
                RankerCmd::Needle(_) => true,
            },
            !(cmd is HaystackAppend || cmd is HaystackClear) ==> final(self).pending == old(
                self,
            ).pending,
            !(cmd is HaystackClear) ==> final(self).haystack_len == old(self).haystack_len
                && final(self).haystack_gen == old(self).haystack_gen,
            !(cmd is KeepOrder) ==> final(self).keep_order == old(self).keep_order,
            !(cmd is Sync) ==> final(self).synced == old(self).synced,
            final(self).rank_gen == old(self).rank_gen,
    {
        match cmd {
            RankerCmd::Needle(needle_new) => {
                if matches!(self.action, RankAction::DoNothing) && needle_new == self.needle {
                    return false;
                }
                let prefix = chars_of(self.needle.as_str());
                let chars = chars_of(needle_new.as_str());
                let extends = starts_with(&chars, &prefix);
                let resumable = matches!(self.action, RankAction::DoNothing | RankAction::CurrentMatch);
                self.action = if resumable && extends {
                    RankAction::CurrentMatch
                } else {
                    RankAction::All
                };
                self.needle = needle_new;
                true
            },
            RankerCmd::Scorer => {
                self.action = RankAction::All;
                true
            },
            RankerCmd::HaystackAppend(n) => {
                self.action = match self.action {
                    RankAction::DoNothing => RankAction::Offset(self.haystack_len),
                    RankAction::Offset(offset) => RankAction::Offset(offset),
                    _ => RankAction::All,
                };
                self.pending = self.pending + n;
                false
            },
            RankerCmd::HaystackClear => {
                self.action = RankAction::All;
                self.haystack_gen = self.haystack_gen.wrapping_add(1);
                self.haystack_len = 0;
                self.pending = 0;
                false
            },
            RankerCmd::KeepOrder(toggle) => {
                self.action = RankAction::All;
                match toggle {
                    None => self.keep_order = !self.keep_order,
                    Some(value) => self.keep_order = value,
                }
                false
            },
            RankerCmd::Sync => {
                self.action = match self.action {
                    RankAction::DoNothing => RankAction::Notify,
                    _ => self.action,
                };
                self.synced = self.synced + 1;
                false
            },
        }
    }

    /// Collect the appended items and decide what the ranking scores. Unless nothing is due,
    /// a ranking is done: the generation moves on and the waiters are released. The action
    /// stays as it is.
    pub fn rank(&mut self) -> (r: RankAction)
        requires
            old(self).haystack_len + old(self).pending <= usize::MAX,
        ensures
            r == old(self).action,
            final(self).action == old(self).action,
            final(self).haystack_len == old(self).haystack_len + old(self).pending,
            final(self).pending == 0,
            final(self).rank_gen == if r is DoNothing {
                old(self).rank_gen as int
            } else if old(self).rank_gen == usize::MAX {
                0
            } else {
                old(self).rank_gen + 1
            },
            final(self).synced == if r is DoNothing {
                old(self).synced
            } else {
                0
            },
            final(self).haystack_gen == old(self).haystack_gen,
            final(self).needle@ == old(self).needle@,
            final(self).keep_order == old(self).keep_order,
    {
        self.haystack_len = self.haystack_len + self.pending;
        self.pending = 0;
        if matches!(self.action, RankAction::DoNothing) {
            return RankAction::DoNothing;
        }
        self.rank_gen = self.rank_gen.wrapping_add(1);
        self.synced = 0;
        self.action
    }
}

} // verus!
