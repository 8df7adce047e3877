//! Scorers' matching logic and the bit-set of matched positions.
use vstd::prelude::*;
use crate::kmp::{KMPPattern, first_occurrence, occurs_at};
use crate::text::{lowercase, lowercase_spec, split_by, split_on};

verus! {

/// Words of a needle: the non-empty pieces between spaces.
pub open spec fn needle_words(needle: Seq<char>) -> Seq<Seq<char>> {
    split_on(needle, ' ').filter(|w: Seq<char>| w.len() > 0)
}

/// Words matched one after another, each at its first occurrence after the end of the
/// previous one: the start of each word and the end of the last one.
pub open spec fn greedy_match(words: Seq<Seq<char>>, haystack: Seq<char>) -> Option<(Seq<int>, int)>
    decreases words.len(),
{
    if words.len() == 0 {
        Some((Seq::empty(), 0))
    } else {
        match greedy_match(words.drop_last(), haystack) {
            None => None,
            Some((starts, end)) => match first_occurrence(haystack.skip(end), words.last()) {
                None => None,
                Some(p) => Some((starts.push(end + p), end + p + words.last().len())),
            },
        }
    }
}

/// Matched positions: for each word, the indices it covers, in order.
pub open spec fn word_positions(words: Seq<Seq<char>>, starts: Seq<int>) -> Seq<int>
    decreases words.len(),
{
    if words.len() == 0 {
        Seq::empty()
    } else {
        word_positions(words.drop_last(), starts.drop_last()) + Seq::new(
            words.last().len(),
            |k: int| starts.last() + k,
        )
    }
}

/// Outcome of a substring match.
#[derive(Debug, Clone, PartialEq, Eq)]
pub enum SubstrMatch {
    /// The needle has no words: everything matches.
    Any,
    /// Matched span from the start of the first word to the end of the last one, and the
    /// matched positions.
    Span { start: usize, end: usize, positions: Vec<usize> },
}

/// Sub-string scorer
///
/// This scorer splits needle into words and finds each word as uninterrupted sequence of
/// characters inside the haystack.
pub struct SubstrScorer {
    needle: Vec<char>,
    words: Vec<KMPPattern<char>>,
}

impl SubstrScorer {
    pub closed spec fn needle_view(&self) -> Seq<char> {
        self.needle@
    }

    pub closed spec fn words_view(&self) -> Seq<Seq<char>> {
        self.words@.map_values(|w: KMPPattern<char>| w.needle_view())
    }

    pub fn new(needle: Vec<char>) -> (r: Self)
        ensures
            r.needle_view() == needle@,
            r.words_view() == needle_words(needle@),
    {
        let parts = split_by(needle.as_slice(), ' ');
        let ghost ps = split_on(needle@, ' ');
        let ghost pred = |w: Seq<char>| w.len() > 0;
        let mut words: Vec<KMPPattern<char>> = Vec::new();
        let mut i: usize = 0;
        while i < parts.len()
            invariant
                parts.deep_view() == ps,
                0 <= i <= ps.len(),
                pred == (|w: Seq<char>| w.len() > 0),
                words@.map_values(|w: KMPPattern<char>| w.needle_view()) == ps.take(i as int).filter(pred),
            decreases ps.len() - i,
        {
            let ghost before = words@.map_values(|w: KMPPattern<char>| w.needle_view());
            proof {
                reveal(Seq::filter);
                assert(ps.take(i as int + 1).drop_last() =~= ps.take(i as int));
                assert(ps.take(i as int + 1).last() == ps[i as int]);
            }
            assert(parts@[i as int]@ == ps[i as int]);
            if parts[i].len() > 0 {
                let w = parts[i].clone();
                assert(w@ == parts@[i as int]@) by {
                    assert(w@ =~= parts@[i as int]@);
                }
                let pattern = KMPPattern::new(w);
                words.push(pattern);
                assert(words@.map_values(|w: KMPPattern<char>| w.needle_view()) =~= before.push(
                    ps[i as int],
                ));
            }
            i = i + 1;
        }
        assert(ps.take(ps.len() as int) =~= ps);
        SubstrScorer { needle, words }
    }

    /// Name of the scorer
    pub fn name(&self) -> (r: &'static str)
        ensures
            r@ == "substr"@,
    {
        "substr"
    }

    /// Needle
    pub fn needle(&self) -> (r: &[char])
        ensures
            r@ == self.needle_view(),
    {
        self.needle.as_slice()
    }

    /// Match the words of the needle one after another in the haystack.
    pub fn score_ref(&self, haystack: &[char]) -> (r: Option<SubstrMatch>)
        ensures
            self.words_view().len() == 0 ==> r == Some(SubstrMatch::Any),
            self.words_view().len() > 0 ==> (r is None <==> greedy_match(
                self.words_view(),
                haystack@,
            ) is None),
            self.words_view().len() > 0 && r is Some ==> r->Some_0 is Span,
            r matches Some(SubstrMatch::Span { start, end, positions }) ==> ({
                let (starts, e) = greedy_match(self.words_view(), haystack@)->Some_0;
                &&& self.words_view().len() > 0
                &&& start == starts[0]
                &&& end == e
                &&& positions@.map_values(|p: usize| p as int) == word_positions(
                    self.words_view(),
                    starts,
                )
            }),
    {
        let ghost words = self.words_view();
        let ghost h = haystack@;
        if self.words.len() == 0 {
            return Some(SubstrMatch::Any);
        }
        let mut positions: Vec<usize> = Vec::new();
        let mut match_start: usize = 0;
        let mut match_end: usize = 0;
        let mut i: usize = 0;
        let ghost mut starts: Seq<int> = Seq::empty();
        assert(words.take(0) =~= Seq::<Seq<char>>::empty());
        while i < self.words.len()
            invariant
                words == self.words_view(),
                h == haystack@,
                words.len() == self.words@.len(),
                words.len() > 0,
                0 <= i <= words.len(),
                greedy_match(words.take(i as int), h) == Some((starts, match_end as int)),
                match_end <= h.len(),
                starts.len() == i,
                i > 0 ==> match_start == starts[0],
                positions@.map_values(|p: usize| p as int) == word_positions(words.take(i as int), starts),
            decreases words.len() - i,
        {
            let ghost old_positions = positions@.map_values(|p: usize| p as int);
            let ghost w = words[i as int];
            assert(self.words@[i as int].needle_view() == w);
            let tail = &haystack[match_end..haystack.len()];
            assert(tail@ == h.skip(match_end as int));
            let found = self.words[i].search(tail);
            proof {
                assert(words.take(i as int + 1).drop_last() =~= words.take(i as int));
                assert(words.take(i as int + 1).last() == w);
            }
            let p = match found {
                Some(p) => p,
                None => {
                    proof {
                        assert(greedy_match(words.take(i as int + 1), h) is None);
                        lemma_greedy_prefix_none(words, h, i as int + 1);
                        assert(words.take(words.len() as int) =~= words);
                    }
                    return None;
                },
            };
            let word_len = self.words[i].len();
            assert(occurs_at(h.skip(match_end as int), w, p as int));
            let word_start = match_end + p;
            if i == 0 {
                match_start = word_start;
            }
            let ghost old_end = match_end;
            match_end = word_start + word_len;
            let mut k = word_start;
            while k < match_end
                invariant
                    word_start <= k <= match_end,
                    positions@.map_values(|p: usize| p as int) == old_positions + Seq::new(
                        (k - word_start) as nat,
                        |j: int| word_start + j,
                    ),
                decreases match_end - k,
            {
                let ghost pm = positions@;
                positions.push(k);
                assert(positions@.map_values(|p: usize| p as int) =~= pm.map_values(|p: usize| p as int).push(k as int));
                k = k + 1;
                assert(positions@.map_values(|p: usize| p as int) =~= old_positions + Seq::new(
                    (k - word_start) as nat,
                    |j: int| word_start + j,
                ));
            }
            proof {
                let old_starts = starts;
                starts = starts.push(word_start as int);
                assert(starts.drop_last() =~= old_starts);
                assert(k == match_end);
                assert(word_len == w.len());
                let wt = words.take(i as int + 1);
                assert(wt.drop_last() =~= words.take(i as int));
                                assert(starts.last() == word_start);
                assert(wt.last() == w);
                assert(word_positions(wt, starts) == word_positions(
                    words.take(i as int),
                    starts.drop_last(),
                ) + Seq::new(w.len(), |j: int| starts.last() + j));
                assert(Seq::new((k - word_start) as nat, |j: int| word_start + j) =~= Seq::new(
                    w.len(),
                    |j: int| starts.last() + j,
                ));
                if i > 0 {
                    assert(starts[0] == starts.drop_last()[0]);
                }
            }
            i = i + 1;
        }
        assert(words.take(words.len() as int) =~= words);
        Some(SubstrMatch::Span { start: match_start, end: match_end, positions })
    }
}

/// Once a prefix of the words fails to match, every longer prefix fails too.
proof fn lemma_greedy_prefix_none(words: Seq<Seq<char>>, h: Seq<char>, k: int)
    requires
        0 <= k <= words.len(),
        greedy_match(words.take(k), h) is None,
    ensures
        greedy_match(words, h) is None,
    decreases words.len() - k,
{
    if k < words.len() {
        assert(words.take(k + 1).drop_last() =~= words.take(k));
        lemma_greedy_prefix_none(words, h, k + 1);
    } else {
        assert(words.take(k) =~= words);
    }
}

/// `needle` embeds in `haystack` at the strictly increasing indices `idx`.
pub open spec fn embeds_at(idx: Seq<int>, needle: Seq<char>, haystack: Seq<char>) -> bool {
    &&& idx.len() == needle.len()
    &&& forall|i: int| 0 <= i < idx.len() ==> 0 <= #[trigger] idx[i] < haystack.len() && haystack[idx[i]] == needle[i]
    &&& forall|i: int, j: int| 0 <= i < j < idx.len() ==> idx[i] < idx[j]
}

/// `needle` is a sub-sequence of `haystack`.
pub open spec fn is_subsequence(needle: Seq<char>, haystack: Seq<char>) -> bool {
    exists|idx: Seq<int>| embeds_at(idx, needle, haystack)
}

/// An embedding into a haystack that uses only indices below `b` embeds into its prefix.
proof fn lemma_embeds_prefix(idx: Seq<int>, needle: Seq<char>, haystack: Seq<char>, b: int)
    requires
        embeds_at(idx, needle, haystack),
        0 <= b <= haystack.len(),
        forall|i: int| 0 <= i < idx.len() ==> #[trigger] idx[i] < b,
    ensures
        embeds_at(idx, needle, haystack.take(b)),
{
    assert forall|i: int| 0 <= i < idx.len() implies 0 <= #[trigger] idx[i] < haystack.take(b).len() && haystack.take(b)[idx[i]] == needle[i] by {
        assert(haystack.take(b)[idx[i]] == haystack[idx[i]]);
    }
}

/// Fuzzy scorer
///
/// This will match any haystack item as long as the needle is a sub-sequence of the haystack.
pub struct FuzzyScorer {
    needle: Vec<char>,
}

impl FuzzyScorer {
    pub closed spec fn needle_view(&self) -> Seq<char> {
        self.needle@
    }

    pub fn new(needle: Vec<char>) -> (r: Self)
        ensures
            r.needle_view() == needle@,
    {
        FuzzyScorer { needle }
    }

    /// Name of the scorer
    pub fn name(&self) -> (r: &'static str)
        ensures
            r@ == "fuzzy"@,
    {
        "fuzzy"
    }

    /// Needle
    pub fn needle(&self) -> (r: &[char])
        ensures
            r@ == self.needle_view(),
    {
        self.needle.as_slice()
    }

    /// Whether the needle is a sub-sequence of the haystack.
    pub fn subseq(needle: &[char], haystack: &[char]) -> (r: bool)
        ensures
            r == is_subsequence(needle@, haystack@),
    {
        let ghost n = needle@;
        let ghost h = haystack@;
        if needle.len() == 0 {
            assert(embeds_at(Seq::empty(), n, h));
            return true;
        }
        let mut k: usize = 0;
        let mut j: usize = 0;
        let ghost mut idx: Seq<int> = Seq::empty();
        proof {
            assert(embeds_at(idx, n.take(0), h.take(0)));
            assert forall|e: Seq<int>| !#[trigger] embeds_at(e, n.take(1), h.take(0)) by {
                if embeds_at(e, n.take(1), h.take(0)) {
                    assert(0 <= e[0] < h.take(0).len());
                }
            }
        }
        while j < haystack.len()
            invariant
                n == needle@,
                h == haystack@,
                n.len() > 0,
                0 <= k < n.len(),
                0 <= j <= h.len(),
                embeds_at(idx, n.take(k as int), h.take(j as int)),
                forall|e: Seq<int>| !#[trigger] embeds_at(e, n.take(k as int + 1), h.take(j as int)),
            decreases h.len() - j,
        {
            let ghost t = h.take(j as int);
            let ghost t1 = h.take(j as int + 1);
            proof {
                assert forall|i: int| 0 <= i < idx.len() implies 0 <= #[trigger] idx[i] < t1.len() && t1[idx[i]] == n.take(k as int)[i] by {
                    assert(t1[idx[i]] == t[idx[i]]);
                }
            }
            if needle[k] == haystack[j] {
                let ghost new_idx = idx.push(j as int);
                proof {
                    assert(embeds_at(new_idx, n.take(k as int + 1), t1)) by {
                        assert forall|i: int| 0 <= i < new_idx.len() implies 0 <= #[trigger] new_idx[i] < t1.len() && t1[new_idx[i]] == n.take(k as int + 1)[i] by {
                            if i < idx.len() {
                                assert(new_idx[i] == idx[i]);
                            }
                        }
                    }
                }
                if k + 1 == needle.len() {
                    proof {
                        assert(n.take(k as int + 1) =~= n);
                        assert forall|i: int| 0 <= i < new_idx.len() implies 0 <= #[trigger] new_idx[i] < h.len() && h[new_idx[i]] == n[i] by {
                            assert(t1[new_idx[i]] == h[new_idx[i]]);
                        }
                        assert(embeds_at(new_idx, n, h));
                    }
                    return true;
                }
                proof {
                    assert forall|e: Seq<int>| !#[trigger] embeds_at(e, n.take(k as int + 2), h.take(j as int + 1)) by {
                        if embeds_at(e, n.take(k as int + 2), t1) {
                            let e0 = e.drop_last();
                            assert(embeds_at(e0, n.take(k as int + 1), t1)) by {
                                assert forall|i: int| 0 <= i < e0.len() implies 0 <= #[trigger] e0[i] < t1.len() && t1[e0[i]] == n.take(k as int + 1)[i] by {
                                    assert(e0[i] == e[i]);
                                }
                            }
                            assert forall|i: int| 0 <= i < e0.len() implies #[trigger] e0[i] < j by {
                                assert(e[i] < e[k as int + 1]);
                            }
                            lemma_embeds_prefix(e0, n.take(k as int + 1), t1, j as int);
                            assert(t1.take(j as int) =~= t);
                        }
                    }
                }
                k = k + 1;
                proof {
                    idx = new_idx;
                }
            } else {
                proof {
                    assert forall|e: Seq<int>| !#[trigger] embeds_at(e, n.take(k as int + 1), h.take(j as int + 1)) by {
                        if embeds_at(e, n.take(k as int + 1), t1) {
                            if e[k as int] == j {
                                assert(t1[j as int] == h[j as int]);
                            } else {
                                assert forall|i: int| 0 <= i < e.len() implies #[trigger] e[i] < j by {
                                    if i < k {
                                        assert(e[i] < e[k as int]);
                                    }
                                }
                                lemma_embeds_prefix(e, n.take(k as int + 1), t1, j as int);
                                assert(t1.take(j as int) =~= t);
                            }
                        }
                    }
                }
            }
            j = j + 1;
        }
        proof {
            assert(h.take(j as int) =~= h);
            if is_subsequence(n, h) {
                let e = choose|e: Seq<int>| embeds_at(e, n, h);
                let e1 = e.take(k as int + 1);
                assert(embeds_at(e1, n.take(k as int + 1), h)) by {
                    assert forall|i: int| 0 <= i < e1.len() implies 0 <= #[trigger] e1[i] < h.len() && h[e1[i]] == n.take(k as int + 1)[i] by {
                        assert(e1[i] == e[i]);
                    }
                }
            }
        }
        false
    }
}

/// Kind of bonus a haystack character gets from the character before it.
#[derive(Debug, Clone, Copy, PartialEq, Eq)]
pub enum Bonus {
    Nothing,
    Slash,
    Word,
    Dot,
    Capital,
}

/// Bonus of `c` following `prev`: lower case letters and digits after `/`, a word
/// separator or `.`; upper case letters also after a lower case letter.
pub open spec fn bonus_spec(prev: char, c: char) -> Bonus {
    if ('a' <= c <= 'z') || ('0' <= c <= '9') || ('A' <= c <= 'Z') {
        if prev == '/' {
            Bonus::Slash
        } else if prev == '-' || prev == '_' || prev == ' ' {
            Bonus::Word
        } else if prev == '.' {
            Bonus::Dot
        } else if ('A' <= c <= 'Z') && ('a' <= prev <= 'z') {
            Bonus::Capital
        } else {
            Bonus::Nothing
        }
    } else {
        Bonus::Nothing
    }
}

/// The bonus of a character by the one before it: a letter or digit right after `/` gets
/// the slash bonus, right after `-`, `_` or a space the word bonus, right after `.` the dot
/// bonus, and an upper case letter right after a lower case one the capital bonus; any other
/// character, and a letter or digit after anything else, gets none.
pub proof fn law_bonus(prev: char, c: char)
    ensures
        ({
            let alnum = ('a' <= c <= 'z') || ('0' <= c <= '9') || ('A' <= c <= 'Z');
            &&& !alnum ==> bonus_spec(prev, c) == Bonus::Nothing
            &&& alnum && prev == '/' ==> bonus_spec(prev, c) == Bonus::Slash
            &&& alnum && (prev == '-' || prev == '_' || prev == ' ') ==> bonus_spec(prev, c)
                == Bonus::Word
            &&& alnum && prev == '.' ==> bonus_spec(prev, c) == Bonus::Dot
            &&& ('A' <= c <= 'Z') && ('a' <= prev <= 'z') ==> bonus_spec(prev, c) == Bonus::Capital
            &&& alnum && !(prev == '/' || prev == '-' || prev == '_' || prev == ' ' || prev == '.')
                && !(('A' <= c <= 'Z') && ('a' <= prev <= 'z')) ==> bonus_spec(prev, c)
                == Bonus::Nothing
        }),
{
}

/// In a haystack, a letter or digit right after `-`, `_` or a space starts a word and gets
/// the word bonus; the first character gets the slash bonus where it is a letter or digit.
pub proof fn law_bonus_in_haystack(h: Seq<char>, i: int)
    requires
        0 <= i < h.len(),
        ('a' <= h[i] <= 'z') || ('0' <= h[i] <= '9') || ('A' <= h[i] <= 'Z'),
    ensures
        i == 0 ==> bonus_spec('/', h[i]) == Bonus::Slash,
        i > 0 && (h[i - 1] == '-' || h[i - 1] == '_' || h[i - 1] == ' ') ==> bonus_spec(
            h[i - 1],
            h[i],
        ) == Bonus::Word,
{
}

impl FuzzyScorer {
    /// Bonus kind of every haystack character; the first one follows `/`.
    pub fn bonus(haystack: &[char]) -> (r: Vec<Bonus>)
        ensures
            r@.len() == haystack@.len(),
            forall|i: int|
                0 <= i < r@.len() ==> #[trigger] r@[i] == bonus_spec(
                    if i == 0 {
                        '/'
                    } else {
                        haystack@[i - 1]
                    },
                    haystack@[i],
                ),
    {
        let mut r: Vec<Bonus> = Vec::new();
        let mut prev = '/';
        let mut i: usize = 0;
        while i < haystack.len()
            invariant
                0 <= i <= haystack@.len(),
                r@.len() == i,
                prev == if i == 0 {
                    '/'
                } else {
                    haystack@[i - 1]
                },
                forall|k: int|
                    0 <= k < i ==> #[trigger] r@[k] == bonus_spec(
                        if k == 0 {
                            '/'
                        } else {
                            haystack@[k - 1]
                        },
                        haystack@[k],
                    ),
            decreases haystack@.len() - i,
        {
            let c = haystack[i];
            let b = if ('a' <= c && c <= 'z') || ('0' <= c && c <= '9') || ('A' <= c && c <= 'Z') {
                if prev == '/' {
                    Bonus::Slash
                } else if prev == '-' || prev == '_' || prev == ' ' {
                    Bonus::Word
                } else if prev == '.' {
                    Bonus::Dot
                } else if ('A' <= c && c <= 'Z') && ('a' <= prev && prev <= 'z') {
                    Bonus::Capital
                } else {
                    Bonus::Nothing
                }
            } else {
                Bonus::Nothing
            };
            r.push(b);
            prev = c;
            i = i + 1;
        }
        r
    }
}

/// Case-insensitive fuzzy scorer: its needle is the given one in lowercase.
pub fn fuzzy_scorer(needle: &str) -> (r: FuzzyScorer)
    ensures
        r.needle_view() == lowercase_spec(needle@),
{
    FuzzyScorer::new(lowercase(needle))
}

/// Case-insensitive sub-string scorer: its needle is the given one in lowercase.
pub fn substr_scorer(needle: &str) -> (r: SubstrScorer)
    ensures
        r.needle_view() == lowercase_spec(needle@),
        r.words_view() == needle_words(lowercase_spec(needle@)),
{
    SubstrScorer::new(lowercase(needle))
}

/// Whether the needle is a sub-sequence of the haystack, both taken in lowercase.
pub fn subseq_ignore_case(needle: &str, haystack: &str) -> (r: bool)
    ensures
        r == is_subsequence(lowercase_spec(needle@), lowercase_spec(haystack@)),
{
    let n = lowercase(needle);
    let h = lowercase(haystack);
    FuzzyScorer::subseq(n.as_slice(), h.as_slice())
}

/// Byte index and bit mask of a position in the bit-set.
pub fn positions_offset(index: usize) -> (r: (usize, u8))
    ensures
        r.0 == index / 8,
        r.1 == (1u8 << ((index % 8) as u8)),
{
    let byte_index = index / 8;
    let bit = (index % 8) as u8;
    (byte_index, 1u8 << bit)
}

/// Bytes needed to hold positions below `size`.
pub fn positions_data_size(size: usize) -> (r: usize)
    ensures
        r == if size == 0 {
            0
        } else {
            (size - 1) / 8 + 1
        },
{
    if size == 0 {
        0
    } else {
        (size - 1) / 8 + 1
    }
}

/// Bit `b` of a byte.
pub open spec fn bit_of(byte: u8, b: int) -> bool {
    (byte >> (b as u8)) & 1 == 1
}

/// The bytes of a position set, held in a `smallvec::SmallVec` that keeps up to 16 bytes
/// inline. Verus does not take a declaration of `SmallVec` (its parameter is bound by the
/// crate's `Array` trait), so the vector is held here, out of Verus's sight.
#[verifier::external_body]
#[derive(Debug)]
pub struct SmallBytes {
    inner: smallvec::SmallVec<[u8; 16]>,
}

/// The bytes a small vector holds, in order.
pub uninterp spec fn small_bytes(v: SmallBytes) -> Seq<u8>;

/// `SmallVec::from_elem(0, n)`: claimed to hold `n` zero bytes.
#[verifier::external_body]
fn small_zeroed(n: usize) -> (r: SmallBytes)
    ensures
        small_bytes(r).len() == n,
        forall|i: int| 0 <= i < n ==> #[trigger] small_bytes(r)[i] == 0u8,
{
    SmallBytes { inner: smallvec::SmallVec::from_elem(0u8, n) }
}

/// `SmallVec::from_vec`: claimed to hold the bytes of the vector.
#[verifier::external_body]
fn small_from_vec(v: Vec<u8>) -> (r: SmallBytes)
    ensures
        small_bytes(r) == v@,
{
    SmallBytes { inner: smallvec::SmallVec::from_vec(v) }
}

/// `SmallVec::len`: claimed to be the number of bytes held.
#[verifier::external_body]
fn small_len(v: &SmallBytes) -> (r: usize)
    ensures
        r == small_bytes(*v).len(),
{
    v.inner.len()
}

/// Indexing a `SmallVec`: claimed to give the byte at `i`.
#[verifier::external_body]
fn small_get(v: &SmallBytes, i: usize) -> (r: u8)
    requires
        i < small_bytes(*v).len(),
    ensures
        r == small_bytes(*v)[i as int],
{
    v.inner[i]
}

/// Assigning through `IndexMut` of a `SmallVec`: claimed to replace the byte at `i` and keep
/// the others.
#[verifier::external_body]
fn small_set(v: &mut SmallBytes, i: usize, b: u8)
    requires
        i < small_bytes(*old(v)).len(),
    ensures
        small_bytes(*final(v)) == small_bytes(*old(v)).update(i as int, b),
{
    v.inner[i] = b;
}

/// `SmallVec::clone`: claimed to hold the same bytes.
#[verifier::external_body]
fn small_clone(v: &SmallBytes) -> (r: SmallBytes)
    ensures
        small_bytes(r) == small_bytes(*v),
{
    SmallBytes { inner: v.inner.clone() }
}

/// Position set implemented as bit-set
#[derive(Debug)]
pub struct PositionsRef {
    data: SmallBytes,
}

impl Clone for PositionsRef {
    fn clone(&self) -> (r: Self)
        ensures
            r.bytes() == self.bytes(),
    {
        PositionsRef { data: small_clone(&self.data) }
    }
}

/// Owned bit-set of matched positions.
pub type Positions = PositionsRef;

proof fn lemma_or_mask(byte: u8, k: u8, b: u8)
    requires
        k < 8,
        b < 8,
    ensures
        ((byte | (1u8 << k)) >> b) & 1 == 1 <==> ((byte >> b) & 1 == 1 || b == k),
{
    assert(((byte | (1u8 << k)) >> b) & 1 == 1 <==> ((byte >> b) & 1 == 1 || b == k)) by (bit_vector)
        requires
            k < 8,
            b < 8,
    ;
}

proof fn lemma_and_mask(byte: u8, k: u8)
    requires
        k < 8,
    ensures
        (byte & (1u8 << k) != 0) <==> ((byte >> k) & 1 == 1),
{
    assert((byte & (1u8 << k) != 0) <==> ((byte >> k) & 1 == 1)) by (bit_vector)
        requires
            k < 8,
    ;
}

proof fn lemma_zero_bits(b: u8)
    requires
        b < 8,
    ensures
        !(((0u8 >> b) & 1) == 1),
{
    assert(!(((0u8 >> b) & 1) == 1)) by (bit_vector);
}

proof fn lemma_byte_bits_eq(x: u8, y: u8)
    requires
        forall|b: u8| b < 8 ==> (((x >> b) & 1 == 1) <==> ((y >> b) & 1 == 1)),
    ensures
        x == y,
{
    assert(((x >> 0u8) & 1 == 1) <==> ((y >> 0u8) & 1 == 1));
    assert(((x >> 1u8) & 1 == 1) <==> ((y >> 1u8) & 1 == 1));
    assert(((x >> 2u8) & 1 == 1) <==> ((y >> 2u8) & 1 == 1));
    assert(((x >> 3u8) & 1 == 1) <==> ((y >> 3u8) & 1 == 1));
    assert(((x >> 4u8) & 1 == 1) <==> ((y >> 4u8) & 1 == 1));
    assert(((x >> 5u8) & 1 == 1) <==> ((y >> 5u8) & 1 == 1));
    assert(((x >> 6u8) & 1 == 1) <==> ((y >> 6u8) & 1 == 1));
    assert(((x >> 7u8) & 1 == 1) <==> ((y >> 7u8) & 1 == 1));
    assert(x == y) by (bit_vector)
        requires
            ((x >> 0u8) & 1 == 1) <==> ((y >> 0u8) & 1 == 1),
            ((x >> 1u8) & 1 == 1) <==> ((y >> 1u8) & 1 == 1),
            ((x >> 2u8) & 1 == 1) <==> ((y >> 2u8) & 1 == 1),
            ((x >> 3u8) & 1 == 1) <==> ((y >> 3u8) & 1 == 1),
            ((x >> 4u8) & 1 == 1) <==> ((y >> 4u8) & 1 == 1),
            ((x >> 5u8) & 1 == 1) <==> ((y >> 5u8) & 1 == 1),
            ((x >> 6u8) & 1 == 1) <==> ((y >> 6u8) & 1 == 1),
            ((x >> 7u8) & 1 == 1) <==> ((y >> 7u8) & 1 == 1),
    ;
}

impl PositionsRef {
    /// The bytes of the set.
    pub closed spec fn bytes(&self) -> Seq<u8> {
        small_bytes(self.data)
    }

    /// Whether `index` is in the set.
    pub open spec fn has(&self, index: int) -> bool {
        0 <= index && index / 8 < self.bytes().len() && bit_of(self.bytes()[index / 8], index % 8)
    }

    /// Empty set able to hold positions below `size`.
    pub fn new(size: usize) -> (r: Self)
        ensures
            r.bytes().len() == if size == 0 {
                0
            } else {
                (size - 1) / 8 + 1
            },
            forall|i: int| !#[trigger] r.has(i),
    {
        let n = positions_data_size(size);
        let data = small_zeroed(n);
        let r = PositionsRef { data };
        assert forall|i: int| !#[trigger] r.has(i) by {
            if 0 <= i && i / 8 < r.bytes().len() {
                lemma_zero_bits((i % 8) as u8);
            }
        }
        r
    }

    pub fn new_data(data: Vec<u8>) -> (r: Self)
        ensures
            r.bytes() == data@,
    {
        PositionsRef { data: small_from_vec(data) }
    }

    /// check if index is present
    pub fn get(&self, index: usize) -> (r: bool)
        ensures
            r == self.has(index as int),
    {
        let (byte, mask) = positions_offset(index);
        if byte < small_len(&self.data) {
            proof {
                lemma_and_mask(self.bytes()[byte as int], (index % 8) as u8);
            }
            small_get(&self.data, byte) & mask != 0
        } else {
            false
        }
    }

    pub fn as_ref(&self) -> (r: PositionsRef)
        ensures
            r.bytes() == self.bytes(),
    {
        PositionsRef { data: small_clone(&self.data) }
    }

    pub fn as_mut(&mut self) -> (r: &mut Self)
        ensures
            *r == *old(self),
            *final(self) == *final(r),
    {
        self
    }

    /// set specified index as selected
    pub fn set(&mut self, index: usize)
        requires
            index / 8 < old(self).bytes().len(),
        ensures
            final(self).bytes().len() == old(self).bytes().len(),
            forall|i: int| #[trigger] final(self).has(i) <==> (old(self).has(i) || i == index),
    {
        let (byte, mask) = positions_offset(index);
        let old_byte = small_get(&self.data, byte);
        let ghost before = *self;
        small_set(&mut self.data, byte, old_byte | mask);
        assert forall|i: int| #[trigger] self.has(i) <==> (before.has(i) || i == index) by {
            if 0 <= i && i / 8 < self.bytes().len() {
                if i / 8 == byte {
                    lemma_or_mask(old_byte, (index % 8) as u8, (i % 8) as u8);
                    assert(i == index <==> i % 8 == index % 8);
                } else {
                    assert(self.bytes()[i / 8] == before.bytes()[i / 8]);
                }
            }
        }
    }

    /// unset all
    pub fn clear(&mut self)
        ensures
            final(self).bytes().len() == old(self).bytes().len(),
            forall|i: int| !#[trigger] final(self).has(i),
    {
        let n = small_len(&self.data);
        let mut i: usize = 0;
        while i < n
            invariant
                n == self.bytes().len(),
                0 <= i <= n,
                forall|k: int| 0 <= k < i ==> self.bytes()[k] == 0u8,
            decreases n - i,
        {
            small_set(&mut self.data, i, 0u8);
            i = i + 1;
        }
        assert forall|i: int| !#[trigger] self.has(i) by {
            if 0 <= i && i / 8 < self.bytes().len() {
                lemma_zero_bits((i % 8) as u8);
            }
        }
    }

    /// Set every position in `indices`.
    pub fn extend(&mut self, indices: &[usize])
        requires
            forall|k: int| 0 <= k < indices@.len() ==> #[trigger] indices@[k] / 8 < old(self).bytes().len(),
        ensures
            final(self).bytes().len() == old(self).bytes().len(),
            forall|i: int| #[trigger] final(self).has(i) <==> (old(self).has(i) || exists|j: int| 0 <= j < indices@.len() && indices@[j] == i),
    {
        let ghost before = *self;
        let mut k: usize = 0;
        while k < indices.len()
            invariant
                0 <= k <= indices@.len(),
                forall|j: int| 0 <= j < indices@.len() ==> #[trigger] indices@[j] / 8 < self.bytes().len(),
                self.bytes().len() == before.bytes().len(),
                forall|i: int| #[trigger] self.has(i) <==> (before.has(i) || exists|j: int| 0 <= j < k && indices@[j] == i),
            decreases indices@.len() - k,
        {
            let ghost mid = *self;
            let index = indices[k];
            self.set(index);
            assert forall|i: int| #[trigger] self.has(i) <==> (before.has(i) || exists|j: int| 0 <= j < k + 1 && indices@[j] == i) by {
                assert(self.has(i) <==> (mid.has(i) || i == index));
                if i == index {
                    assert(indices@[k as int] == i);
                }
            }
            k = k + 1;
        }
    }

    /// Positions in the set, in increasing order.
    pub open spec fn members(&self) -> Seq<usize> {
        Seq::new((self.bytes().len() * 8) as nat, |i: int| i as usize).filter(
            |x: usize| self.has(x as int),
        )
    }

    /// The positions in the set, in increasing order.
    pub fn indices(&self) -> (r: Vec<usize>)
        ensures
            r@ == self.members(),
    {
        let bits = self.iter();
        let ghost pred = |x: usize| self.has(x as int);
        let mut r: Vec<usize> = Vec::new();
        let mut i: usize = 0;
        assert(Seq::new(0, |k: int| k as usize).filter(pred) =~= Seq::<usize>::empty()) by {
            reveal(Seq::filter);
        }
        while i < bits.len()
            invariant
                bits@.len() == self.bytes().len() * 8,
                forall|k: int| 0 <= k < bits@.len() ==> #[trigger] bits@[k] == self.has(k),
                pred == (|x: usize| self.has(x as int)),
                0 <= i <= bits@.len(),
                r@ == Seq::new(i as nat, |k: int| k as usize).filter(pred),
            decreases bits@.len() - i,
        {
            proof {
                let prev = Seq::new(i as nat, |k: int| k as usize);
                assert(Seq::new((i + 1) as nat, |k: int| k as usize) =~= prev.push(i));
                prev.lemma_filter_push(i, pred);
            }
            if bits[i] {
                r.push(i);
            }
            i = i + 1;
        }
        r
    }

    /// Number of bytes of the set.
    pub fn data_len(&self) -> (r: usize)
        ensures
            r == self.bytes().len(),
    {
        small_len(&self.data)
    }

    /// Iterator over the membership of each position, from the first.
    pub fn into_iter(&self) -> (r: PositionsIter)
        ensures
            r.data_view() == self.bytes(),
            r.index_view() == 0,
    {
        PositionsIter { data: small_clone(&self.data), index: 0 }
    }

    /// Same positions in both sets, whatever the trailing zero bytes.
    pub fn eq(&self, other: &PositionsRef) -> (r: bool)
        ensures
            r == (forall|i: int| #[trigger] self.has(i) <==> other.has(i)),
    {
        let (large, small) = if small_len(&self.data) >= small_len(&other.data) {
            (&self.data, &other.data)
        } else {
            (&other.data, &self.data)
        };
        let mut i: usize = 0;
        while i < small_len(small)
            invariant
                small_bytes(*small).len() <= small_bytes(*large).len(),
                0 <= i <= small_bytes(*small).len(),
                self.bytes().len() >= other.bytes().len() ==> small_bytes(*large) == self.bytes() && small_bytes(*small) == other.bytes(),
                self.bytes().len() < other.bytes().len() ==> small_bytes(*large) == other.bytes() && small_bytes(*small) == self.bytes(),
                forall|k: int| 0 <= k < i ==> small_bytes(*large)[k] == small_bytes(*small)[k],
            decreases small_bytes(*small).len() - i,
        {
            if small_get(large, i) != small_get(small, i) {
                proof {
                    let x = small_bytes(*large)[i as int];
                    let y = small_bytes(*small)[i as int];
                    if forall|b: u8| b < 8 ==> (((x >> b) & 1 == 1) <==> ((y >> b) & 1 == 1)) {
                        lemma_byte_bits_eq(x, y);
                    }
                    let b = choose|b: u8| b < 8 && !(((x >> b) & 1 == 1) <==> ((y >> b) & 1 == 1));
                    let p = i * 8 + b;
                    assert(p / 8 == i && p % 8 == b) by (nonlinear_arith)
                        requires
                            p == i * 8 + b,
                            b < 8,
                    ;
                    assert(bit_of(x, p % 8) <==> ((x >> b) & 1 == 1));
                    assert(bit_of(y, p % 8) <==> ((y >> b) & 1 == 1));
                    if self.bytes().len() >= other.bytes().len() {
                        assert(self.bytes()[p / 8] == x && other.bytes()[p / 8] == y);
                    } else {
                        assert(self.bytes()[p / 8] == y && other.bytes()[p / 8] == x);
                    }
                    assert(self.has(p) != other.has(p));
                }
                return false;
            }
            i = i + 1;
        }
        while i < small_len(large)
            invariant
                small_bytes(*small).len() <= i <= small_bytes(*large).len(),
                self.bytes().len() >= other.bytes().len() ==> small_bytes(*large) == self.bytes() && small_bytes(*small) == other.bytes(),
                self.bytes().len() < other.bytes().len() ==> small_bytes(*large) == other.bytes() && small_bytes(*small) == self.bytes(),
                forall|k: int| 0 <= k < small_bytes(*small).len() ==> small_bytes(*large)[k] == small_bytes(*small)[k],
                forall|k: int| small_bytes(*small).len() <= k < i ==> small_bytes(*large)[k] == 0u8,
            decreases small_bytes(*large).len() - i,
        {
            if small_get(large, i) != 0 {
                proof {
                    let x = small_bytes(*large)[i as int];
                    if forall|b: u8| b < 8 ==> (((x >> b) & 1 == 1) <==> ((0u8 >> b) & 1 == 1)) {
                        lemma_byte_bits_eq(x, 0u8);
                    }
                    let b = choose|b: u8| b < 8 && !(((x >> b) & 1 == 1) <==> ((0u8 >> b) & 1 == 1));
                    lemma_zero_bits(b);
                    let p = i * 8 + b;
                    assert(p / 8 == i && p % 8 == b) by (nonlinear_arith)
                        requires
                            p == i * 8 + b,
                            b < 8,
                    ;
                    assert(bit_of(x, p % 8) <==> ((x >> b) & 1 == 1));
                    if self.bytes().len() >= other.bytes().len() {
                        assert(self.bytes()[p / 8] == x && !other.has(p));
                    } else {
                        assert(other.bytes()[p / 8] == x && !self.has(p));
                    }
                    assert(self.has(p) != other.has(p));
                }
                return false;
            }
            i = i + 1;
        }
        proof {
            assert forall|p: int| #[trigger] self.has(p) <==> other.has(p) by {
                if 0 <= p {
                    let q = p / 8;
                    if q < small_bytes(*small).len() {
                        assert(small_bytes(*large)[q] == small_bytes(*small)[q]);
                    } else if q < small_bytes(*large).len() {
                        lemma_zero_bits((p % 8) as u8);
                    }
                }
            }
        }
        true
    }

    /// Membership of every position below eight times the byte count, in order.
    pub fn iter(&self) -> (r: Vec<bool>)
        ensures
            r@.len() == self.bytes().len() * 8,
            forall|i: int| 0 <= i < r@.len() ==> #[trigger] r@[i] == self.has(i),
    {
        let mut r: Vec<bool> = Vec::new();
        let n = small_len(&self.data);
        let mut byte: usize = 0;
        while byte < n
            invariant
                n == self.bytes().len(),
                0 <= byte <= n,
                r@.len() == byte * 8,
                forall|i: int| 0 <= i < r@.len() ==> #[trigger] r@[i] == self.has(i),
            decreases n - byte,
        {
            let mut b: u8 = 0;
            while b < 8
                invariant
                    n == self.bytes().len(),
                    0 <= byte < n,
                    0 <= b <= 8,
                    r@.len() == byte * 8 + b,
                    forall|i: int| 0 <= i < r@.len() ==> #[trigger] r@[i] == self.has(i),
                decreases 8 - b,
            {
                let bit = (small_get(&self.data, byte) >> b) & 1 == 1;
                proof {
                    let p = byte * 8 + b;
                    assert(p / 8 == byte && p % 8 == b) by (nonlinear_arith)
                        requires
                            p == byte * 8 + b,
                            b < 8,
                    ;
                }
                r.push(bit);
                b = b + 1;
            }
            byte = byte + 1;
        }
        r
    }
}

/// Iterator over the membership of each position of a set.
pub struct PositionsIter {
    data: SmallBytes,
    index: usize,
}

impl PositionsIter {
    pub closed spec fn data_view(&self) -> Seq<u8> {
        small_bytes(self.data)
    }

    pub closed spec fn index_view(&self) -> usize {
        self.index
    }

    /// Membership of the next position, while it lies within the bytes of the set.
    pub fn next(&mut self) -> (r: Option<bool>)
        ensures
            final(self).data_view() == old(self).data_view(),
            old(self).index_view() / 8 < old(self).data_view().len() && old(self).index_view() < usize::MAX
                ==> r == Some(bit_of(
                old(self).data_view()[(old(self).index_view() / 8) as int],
                (old(self).index_view() % 8) as int,
            )) && final(self).index_view() == old(self).index_view() + 1,
            !(old(self).index_view() / 8 < old(self).data_view().len() && old(self).index_view()
                < usize::MAX) ==> r is None && final(self).index_view() == old(self).index_view(),
    {
        let (byte, mask) = positions_offset(self.index);
        // The set never holds as many bytes as the last position would need.
        if byte < small_len(&self.data) && self.index < usize::MAX {
            proof {
                lemma_and_mask(small_bytes(self.data)[byte as int], (self.index % 8) as u8);
            }
            self.index = self.index + 1;
            Some(small_get(&self.data, byte) & mask != 0)
        } else {
            None
        }
    }
}

} // verus!
