//! Items of the list and the set of marked (multi-selected) ones.
use vstd::prelude::*;

verus! {

/// Identity of an item of the list: the generations of the items and of the ranking it
/// comes from, its index among the items and its place in the ranking.
#[derive(Debug, Clone, Copy, PartialEq, Eq, PartialOrd, Ord, Hash, Structural)]
pub struct SweepItemId {
    pub haystack_gen: usize,
    pub haystack_index: usize,
    pub rank_gen: usize,
    pub rank_index: usize,
}

/// Item indices of marked items, in the order they were marked.
pub open spec fn marked_indices<H>(s: Seq<(usize, H)>) -> Seq<usize> {
    s.map_values(|e: (usize, H)| e.0)
}

/// The marked items after marking, or unmarking, the item with the given index.
pub open spec fn marked_toggle<H>(s: Seq<(usize, H)>, index: usize, item: H) -> Seq<(usize, H)> {
    if marked_indices(s).contains(index) {
        s.remove(marked_indices(s).index_of(index))
    } else {
        s.push((index, item))
    }
}

/// Marked items, in the order they were marked; an item is marked at most once.
pub struct MarkedItems<H> {
    items: Vec<(usize, H)>,
}

impl<H> View for MarkedItems<H> {
    type V = Seq<(usize, H)>;

    closed spec fn view(&self) -> Seq<(usize, H)> {
        self.items@
    }
}

proof fn lemma_index_of_unique<H>(s: Seq<(usize, H)>, i: int)
    requires
        marked_indices(s).no_duplicates(),
        0 <= i < s.len(),
    ensures
        marked_indices(s).contains(s[i].0),
        marked_indices(s).index_of(s[i].0) == i,
{
    let ks = marked_indices(s);
    assert(ks[i] == s[i].0);
    let j = ks.index_of(s[i].0);
    assert(0 <= j < ks.len() && ks[j] == s[i].0);
}

impl<H> MarkedItems<H> {
    /// No item is marked twice.
    pub open spec fn wf(&self) -> bool {
        marked_indices(self@).no_duplicates()
    }

    pub fn new() -> (r: Self)
        ensures
            r@ == Seq::<(usize, H)>::empty(),
            r.wf(),
    {
        MarkedItems { items: Vec::new() }
    }

    /// Number of marked items.
    pub fn len(&self) -> (r: usize)
        ensures
            r == self@.len(),
    {
        self.items.len()
    }

    pub fn is_empty(&self) -> (r: bool)
        ensures
            r == (self@.len() == 0),
    {
        self.items.len() == 0
    }

    fn find(&self, index: usize) -> (r: Option<usize>)
        requires
            self.wf(),
        ensures
            r is Some <==> marked_indices(self@).contains(index),
            r matches Some(i) ==> i == marked_indices(self@).index_of(index) && i < self@.len(),
    {
        let mut i: usize = 0;
        while i < self.items.len()
            invariant
                0 <= i <= self@.len(),
                self.wf(),
                forall|j: int| 0 <= j < i ==> #[trigger] self@[j].0 != index,
            decreases self@.len() - i,
        {
            if self.items[i].0 == index {
                proof {
                    lemma_index_of_unique(self@, i as int);
                }
                return Some(i);
            }
            i = i + 1;
        }
        assert(!marked_indices(self@).contains(index)) by {
            if marked_indices(self@).contains(index) {
                let j = choose|j: int|
                    0 <= j < marked_indices(self@).len() && marked_indices(self@)[j] == index;
                assert(self@[j].0 == index);
            }
        }
        None
    }

    /// Mark the item, or unmark it when it is marked.
    pub fn toggle(&mut self, id: SweepItemId, haystack: H)
        requires
            old(self).wf(),
        ensures
            final(self).wf(),
            final(self)@ == marked_toggle(old(self)@, id.haystack_index, haystack),
    {
        let ghost before = self@;
        match self.find(id.haystack_index) {
            Some(i) => {
                self.items.remove(i);
                proof {
                    assert(marked_indices(self@) =~= marked_indices(before).remove(i as int));
                }
            },
            None => {
                self.items.push((id.haystack_index, haystack));
                proof {
                    let ks = marked_indices(self@);
                    assert(ks =~= marked_indices(before).push(id.haystack_index));
                    assert forall|a: int, b: int|
                        0 <= a < ks.len() && 0 <= b < ks.len() && a != b implies ks[a] != ks[b] by {
                        if a == before.len() as int {
                            assert(marked_indices(before)[b] == ks[b]);
                        } else if b == before.len() as int {
                            assert(marked_indices(before)[a] == ks[a]);
                        }
                    }
                }
            },
        }
    }

    /// Take the marked items out, in the order they were marked.
    pub fn take(&mut self) -> (r: Vec<H>)
        ensures
            final(self)@ == Seq::<(usize, H)>::empty(),
            final(self).wf(),
            r@ == old(self)@.map_values(|e: (usize, H)| e.1),
    {
        let mut r: Vec<H> = Vec::new();
        let mut rest: Vec<(usize, H)> = Vec::new();
        std::mem::swap(&mut rest, &mut self.items);
        let ghost all = rest@;
        let mut taken: Vec<H> = Vec::new();
        while rest.len() > 0
            invariant
                all.map_values(|e: (usize, H)| e.1) == rest@.map_values(|e: (usize, H)| e.1)
                    + taken@.reverse(),
            decreases rest@.len(),
        {
            let ghost prev = rest@;
            let (_, h) = rest.pop().unwrap();
            let ghost t = taken@;
            taken.push(h);
            assert(prev.map_values(|e: (usize, H)| e.1) =~= rest@.map_values(|e: (usize, H)| e.1).push(
                h,
            ));
            assert(taken@.reverse() =~= seq![h] + t.reverse());
        }
        while taken.len() > 0
            invariant
                all.map_values(|e: (usize, H)| e.1) == r@ + taken@.reverse(),
            decreases taken@.len(),
        {
            let ghost t = taken@;
            let h = taken.pop().unwrap();
            r.push(h);
            assert(t.reverse() =~= seq![h] + taken@.reverse());
        }
        proof {
            assert(rest@.map_values(|e: (usize, H)| e.1) =~= Seq::<H>::empty());
            assert(r@ =~= all.map_values(|e: (usize, H)| e.1));
            assert(self@ =~= Seq::<(usize, H)>::empty());
        }
        r
    }

    /// Whether the item with this identity is marked: items are told apart by their index.
    pub fn contains_id(&self, id: SweepItemId) -> (r: bool)
        requires
            self.wf(),
        ensures
            r == marked_indices(self@).contains(id.haystack_index),
    {
        self.find(id.haystack_index).is_some()
    }
}

/// Marking an item that is not marked and then toggling it again leaves the marks as they
/// were.
pub proof fn law_toggle_twice<H>(s: Seq<(usize, H)>, index: usize, a: H, b: H)
    requires
        marked_indices(s).no_duplicates(),
        !marked_indices(s).contains(index),
    ensures
        marked_indices(marked_toggle(s, index, a)).contains(index),
        marked_toggle(marked_toggle(s, index, a), index, b) == s,
{
    let t = marked_toggle(s, index, a);
    assert(t == s.push((index, a)));
    assert(marked_indices(t) =~= marked_indices(s).push(index));
    assert(marked_indices(t)[s.len() as int] == index);
    assert(marked_indices(t).no_duplicates()) by {
        let ks = marked_indices(t);
        assert forall|x: int, y: int| 0 <= x < ks.len() && 0 <= y < ks.len() && x != y implies ks[x]
            != ks[y] by {
            if x == s.len() as int {
                assert(marked_indices(s)[y] == ks[y]);
            } else if y == s.len() as int {
                assert(marked_indices(s)[x] == ks[x]);
            }
        }
    }
    lemma_index_of_unique(t, s.len() as int);
    assert(t.remove(s.len() as int) =~= s);
}

} // verus!
