//! Knuth-Morris-Pratt substring search.
use vstd::prelude::*;

verus! {

/// Items a pattern can be built from. `same` must be plain equality.
pub trait PatternItem: Sized + Copy {
    fn same(&self, other: &Self) -> (r: bool)
        ensures
            r == (*self == *other),
    ;
}

impl PatternItem for u8 {
    fn same(&self, other: &Self) -> (r: bool) {
        *self == *other
    }
}

impl PatternItem for char {
    fn same(&self, other: &Self) -> (r: bool) {
        *self == *other
    }
}

/// `k` is a proper border of `s`: the prefix of length `k` is also a suffix.
pub open spec fn is_border<T>(s: Seq<T>, k: int) -> bool {
    &&& 0 <= k < s.len()
    &&& s.take(k) == s.subrange(s.len() - k, s.len() as int)
}

/// `k` is the longest proper border of `s`.
pub open spec fn is_longest_border<T>(s: Seq<T>, k: int) -> bool {
    &&& is_border(s, k)
    &&& forall|x: int| k < x < s.len() ==> !is_border(s, x)
}

/// `table[j]` is the length of the longest proper border of `needle[..=j]`.
pub open spec fn is_failure_table<T>(needle: Seq<T>, table: Seq<usize>) -> bool {
    &&& table.len() == needle.len()
    &&& forall|j: int|
        0 <= j < needle.len() ==> #[trigger] is_longest_border(needle.take(j + 1), table[j] as int)
}

/// `needle` occurs in `haystack` starting at index `i`.
pub open spec fn occurs_at<T>(haystack: Seq<T>, needle: Seq<T>, i: int) -> bool {
    &&& 0 <= i
    &&& i + needle.len() <= haystack.len()
    &&& haystack.subrange(i, i + needle.len()) == needle
}

/// The first occurrence of a non-empty `needle` in `haystack`, if any.
#[verifier::opaque]
pub open spec fn first_occurrence<T>(haystack: Seq<T>, needle: Seq<T>) -> Option<int> {
    if needle.len() > 0 && exists|i: int| occurs_at(haystack, needle, i) {
        Some(choose|i: int| occurs_at(haystack, needle, i) && forall|j: int| 0 <= j < i ==> !occurs_at(haystack, needle, j))
    } else {
        None
    }
}

/// The prefix of length `k` of `needle` is a suffix of `text`.
pub open spec fn suffix_prefix<T>(text: Seq<T>, needle: Seq<T>, k: int) -> bool {
    &&& 0 <= k <= needle.len()
    &&& k <= text.len()
    &&& needle.take(k) == text.subrange(text.len() - k, text.len() as int)
}

/// A border of a border is a border; a shorter border lies inside the longer one.
proof fn lemma_border_of_border<T>(s: Seq<T>, y: int, x: int)
    requires
        is_border(s, y),
        0 <= x < y,
    ensures
        is_border(s, x) <==> is_border(s.take(y), x),
{
    let sy = s.take(y);
    assert(sy.take(x) =~= s.take(x));
    assert(sy.subrange(y - x, y) =~= s.subrange(s.len() - x, s.len() as int)) by {
        assert forall|i: int| 0 <= i < x implies #[trigger] sy.subrange(y - x, y)[i] == s.subrange(
            s.len() - x,
            s.len() as int,
        )[i] by {
            assert(sy[y - x + i] == s.take(y)[y - x + i]);
            assert(s.subrange(s.len() - y, s.len() as int)[y - x + i] == s[s.len() - x + i]);
        }
    }
}

/// Extending both sides of a border by one matching item.
proof fn lemma_border_extend<T>(s: Seq<T>, c: T, x: int)
    requires
        0 <= x < s.len(),
    ensures
        is_border(s.push(c), x + 1) <==> (is_border(s, x) && s[x] == c),
{
    let t = s.push(c);
    if is_border(t, x + 1) {
        assert(t.take(x + 1)[x] == t.subrange(t.len() - (x + 1), t.len() as int)[x]);
        assert(s.take(x) =~= t.take(x + 1).take(x));
        assert(s.subrange(s.len() - x, s.len() as int) =~= t.subrange(
            t.len() - (x + 1),
            t.len() as int,
        ).take(x));
    }
    if is_border(s, x) && s[x] == c {
        assert(t.take(x + 1) =~= s.take(x).push(c));
        assert(t.subrange(t.len() - (x + 1), t.len() as int) =~= s.subrange(
            s.len() - x,
            s.len() as int,
        ).push(c));
    }
}

/// Inside a text, a shorter suffix-prefix is a border of the longer one.
proof fn lemma_suffix_prefix_border<T>(text: Seq<T>, needle: Seq<T>, y: int, x: int)
    requires
        suffix_prefix(text, needle, y),
        0 <= x < y,
    ensures
        suffix_prefix(text, needle, x) <==> is_border(needle.take(y), x),
{
    let ny = needle.take(y);
    assert(ny.take(x) =~= needle.take(x));
    assert(ny.subrange(y - x, y) =~= text.subrange(text.len() - x, text.len() as int)) by {
        assert forall|i: int| 0 <= i < x implies #[trigger] ny.subrange(y - x, y)[i] == text.subrange(
            text.len() - x,
            text.len() as int,
        )[i] by {
            assert(ny[y - x + i] == text.subrange(text.len() - y, text.len() as int)[y - x + i]);
        }
    }
}

/// Extending a text by one item.
proof fn lemma_suffix_prefix_extend<T>(text: Seq<T>, needle: Seq<T>, c: T, x: int)
    requires
        0 <= x < needle.len(),
    ensures
        suffix_prefix(text.push(c), needle, x + 1) <==> (suffix_prefix(text, needle, x)
            && needle[x] == c),
{
    let t = text.push(c);
    if suffix_prefix(t, needle, x + 1) {
        assert(needle.take(x + 1)[x] == t.subrange(t.len() - (x + 1), t.len() as int)[x]);
        assert(needle.take(x) =~= needle.take(x + 1).take(x));
        assert(text.subrange(text.len() - x, text.len() as int) =~= t.subrange(
            t.len() - (x + 1),
            t.len() as int,
        ).take(x));
    }
    if suffix_prefix(text, needle, x) && needle[x] == c {
        assert(needle.take(x + 1) =~= needle.take(x).push(c));
        assert(t.subrange(t.len() - (x + 1), t.len() as int) =~= text.subrange(
            text.len() - x,
            text.len() as int,
        ).push(c));
    }
}

/// A full suffix-prefix of a text prefix is an occurrence ending there.
proof fn lemma_suffix_prefix_occurs<T>(haystack: Seq<T>, needle: Seq<T>, end: int)
    requires
        0 <= end <= haystack.len(),
        needle.len() <= end,
    ensures
        suffix_prefix(haystack.take(end), needle, needle.len() as int) <==> occurs_at(
            haystack,
            needle,
            end - needle.len(),
        ),
{
    let t = haystack.take(end);
    assert(needle.take(needle.len() as int) =~= needle);
    assert(t.subrange(t.len() - needle.len(), t.len() as int) =~= haystack.subrange(
        end - needle.len(),
        end,
    ));
}

/// An occurrence with no earlier one is the first occurrence.
proof fn lemma_first_occurrence_unique<T>(haystack: Seq<T>, needle: Seq<T>, i: int)
    requires
        needle.len() > 0,
        occurs_at(haystack, needle, i),
        forall|j: int| 0 <= j < i ==> !occurs_at(haystack, needle, j),
    ensures
        first_occurrence(haystack, needle) == Some(i),
{
    reveal(first_occurrence);
    let w = choose|w: int|
        occurs_at(haystack, needle, w) && forall|j: int| 0 <= j < w ==> !occurs_at(haystack, needle, j);
    assert(occurs_at(haystack, needle, w) && forall|j: int| 0 <= j < w ==> !occurs_at(haystack, needle, j));
    if w < i {
        assert(!occurs_at(haystack, needle, w));
    }
    if i < w {
        assert(!occurs_at(haystack, needle, i));
    }
}

/// Knuth-Morris-Pratt pattern
pub struct KMPPattern<T> {
    needle: Vec<T>,
    table: Vec<usize>,
}

impl<T> KMPPattern<T> {
    /// The pattern's needle.
    pub closed spec fn needle_view(&self) -> Seq<T> {
        self.needle@
    }

    /// The pattern's failure table.
    pub closed spec fn table_view(&self) -> Seq<usize> {
        self.table@
    }

    #[verifier::type_invariant]
    spec fn well_formed(&self) -> bool {
        self.needle@.len() == 0 && self.table@.len() == 0 || is_failure_table(
            self.needle@,
            self.table@,
        )
    }
}

impl<T: PatternItem> KMPPattern<T> {
    pub fn new(needle: Vec<T>) -> (r: Self)
        ensures
            r.needle_view() == needle@,
            needle@.len() == 0 ==> r.table_view().len() == 0,
            needle@.len() > 0 ==> is_failure_table(needle@, r.table_view()),
    {
        if needle.len() == 0 {
            return Self { needle, table: Vec::new() };
        }
        let m = needle.len();
        let mut table: Vec<usize> = vec![0; m];
        let ghost n = needle@;
        assert(is_longest_border(n.take(1), 0)) by {
            assert(n.take(1).take(0) =~= n.take(1).subrange(1, 1));
        }
        let mut i: usize = 0;
        let mut j: usize = 1;
        while j < m
            invariant
                n == needle@,
                m == n.len(),
                1 <= j <= m,
                table@.len() == m,
                i == table@[j - 1],
                forall|k: int| 0 <= k < j ==> #[trigger] is_longest_border(n.take(k + 1), table@[k] as int),
            decreases m - j,
        {
            let ghost s = n.take(j as int);
            assert(is_longest_border(s, i as int)) by {
                assert(is_longest_border(n.take((j - 1) as int + 1), table@[j - 1] as int));
                assert((j - 1) as int + 1 == j as int);
            }
            while i > 0 && !needle[i].same(&needle[j])
                invariant
                    n == needle@,
                    m == n.len(),
                    1 <= j < m,
                    s == n.take(j as int),
                    table@.len() == m,
                    forall|k: int| 0 <= k < j ==> #[trigger] is_longest_border(n.take(k + 1), table@[k] as int),
                    is_border(s, i as int),
                    forall|x: int| i < x < j && #[trigger] is_border(s, x) ==> n[x] != n[j as int],
                decreases i,
            {
                let ghost old_i = i as int;
                assert(is_longest_border(n.take(old_i), table@[old_i - 1] as int)) by {
                    assert(n.take((old_i - 1) + 1) == n.take(old_i));
                }
                i = table[i - 1];
                assert(n.take(old_i) =~= s.take(old_i));
                proof {
                    lemma_border_of_border(s, old_i, i as int);
                }
                assert forall|x: int| i < x < j && #[trigger] is_border(s, x) implies n[x] != n[j as int] by {
                    if x < old_i {
                        lemma_border_of_border(s, old_i, x);
                    }
                }
            }
            let ghost c = n[j as int];
            assert(n.take(j as int + 1) =~= s.push(c));
            if needle[i].same(&needle[j]) {
                proof {
                    lemma_border_extend(s, c, i as int);
                }
                i = i + 1;
            } else {
                assert(n.take(j as int + 1).take(0) =~= n.take(j as int + 1).subrange(
                    j as int + 1,
                    j as int + 1,
                ));
            }
            assert forall|x: int| i < x < j + 1 implies !#[trigger] is_border(n.take(j as int + 1), x) by {
                if is_border(n.take(j as int + 1), x) {
                    lemma_border_extend(s, c, x - 1);
                }
            }
            table.set(j, i);
            j = j + 1;
        }
        Self { needle, table }
    }

    pub fn len(&self) -> (r: usize)
        ensures
            r == self.needle_view().len(),
    {
        self.needle.len()
    }

    pub fn is_empty(&self) -> (r: bool)
        ensures
            r == (self.needle_view().len() == 0),
    {
        self.needle.len() == 0
    }

    /// The failure table: the length of the longest proper border of each needle prefix.
    pub fn table(&self) -> (r: &Vec<usize>)
        ensures
            r@ == self.table_view(),
    {
        &self.table
    }

    /// Search for the match in the haystack, return start of the match on success
    pub fn search(&self, haystack: &[T]) -> (r: Option<usize>)
        ensures
            r matches Some(i) ==> first_occurrence(haystack@, self.needle_view()) == Some(i as int),
            r matches Some(i) ==> occurs_at(haystack@, self.needle_view(), i as int),
            r matches Some(i) ==> forall|j: int| 0 <= j < i ==> !occurs_at(haystack@, self.needle_view(), j),
            r is None ==> first_occurrence(haystack@, self.needle_view()) is None,
    {
        proof {
            use_type_invariant(self);
        }
        let ghost h = haystack@;
        let ghost n = self.needle@;
        if self.needle.len() == 0 {
            proof {
                reveal(first_occurrence);
            }
            return None;
        }
        let m = self.needle.len();
        let mut n_index: usize = 0;
        let mut h_index: usize = 0;
        assert(suffix_prefix(h.take(0), n, 0)) by {
            assert(n.take(0) =~= h.take(0).subrange(0, 0));
        }
        while h_index < haystack.len()
            invariant
                h == haystack@,
                n == self.needle@,
                m == n.len(),
                m > 0,
                is_failure_table(n, self.table@),
                0 <= h_index <= h.len(),
                n_index < m,
                suffix_prefix(h.take(h_index as int), n, n_index as int),
                forall|k: int| 0 <= k <= m && #[trigger] suffix_prefix(h.take(h_index as int), n, k) ==> k <= n_index,
                forall|i: int| #[trigger] occurs_at(h, n, i) ==> i + m > h_index,
            decreases h.len() - h_index,
        {
            let ghost t = h.take(h_index as int);
            let ghost c = h[h_index as int];
            while n_index > 0 && !self.needle[n_index].same(&haystack[h_index])
                invariant
                    h == haystack@,
                    n == self.needle@,
                    m == n.len(),
                    is_failure_table(n, self.table@),
                    0 <= h_index < h.len(),
                    t == h.take(h_index as int),
                    c == h[h_index as int],
                    n_index < m,
                    suffix_prefix(t, n, n_index as int),
                    forall|k: int| n_index < k < m && #[trigger] suffix_prefix(t, n, k) ==> n[k] != c,
                decreases n_index,
            {
                let ghost old_n = n_index as int;
                assert(is_longest_border(n.take(old_n), self.table@[old_n - 1] as int)) by {
                    assert(n.take((old_n - 1) + 1) == n.take(old_n));
                }
                n_index = self.table[n_index - 1];
                proof {
                    lemma_suffix_prefix_border(t, n, old_n, n_index as int);
                }
                assert forall|k: int| n_index < k < m && #[trigger] suffix_prefix(t, n, k) implies n[k] != c by {
                    if k < old_n {
                        lemma_suffix_prefix_border(t, n, old_n, k);
                    }
                }
            }
            let ghost ni = n_index as int;
            assert(h.take(h_index as int + 1) =~= t.push(c));
            if self.needle[n_index].same(&haystack[h_index]) {
                proof {
                    lemma_suffix_prefix_extend(t, n, c, n_index as int);
                }
                n_index = n_index + 1;
            } else {
                assert(n.take(0) =~= h.take(h_index as int + 1).subrange(
                    h_index as int + 1,
                    h_index as int + 1,
                ));
            }
            assert forall|k: int| 0 <= k <= m && #[trigger] suffix_prefix(h.take(h_index as int + 1), n, k) implies k <= n_index by {
                if k > n_index {
                    lemma_suffix_prefix_extend(t, n, c, k - 1);
                    assert(suffix_prefix(t, n, k - 1) && n[k - 1] == c);
                    if k - 1 > ni {
                        assert(n[k - 1] != c);
                    }
                }
            }
            if n_index == m {
                proof {
                    lemma_suffix_prefix_occurs(h, n, h_index as int + 1);
                }
                let r = h_index + 1 - n_index;
                assert(occurs_at(h, n, r as int));
                assert(forall|j: int| 0 <= j < r ==> !occurs_at(h, n, j));
                proof {
                    lemma_first_occurrence_unique(h, n, r as int);
                }
                return Some(r);
            }
            h_index = h_index + 1;
            assert forall|i: int| #[trigger] occurs_at(h, n, i) implies i + m > h_index by {
                if i + m == h_index {
                    lemma_suffix_prefix_occurs(h, n, h_index as int);
                }
            }
        }
        proof {
            assert(forall|i: int| !occurs_at(h, n, i));
            reveal(first_occurrence);
        }
        None
    }
}

} // verus!
