//! Values of the command line options that are checked as they are read.
use vstd::prelude::*;
use crate::text::{chars_of, string_from_chars, text_is};

verus! {

/// What to do when nothing matches: `nothing` gives `false`, `input` gives `true` (the
/// input itself is taken).
pub fn parse_no_input(value: &str) -> (r: Result<bool, String>)
    ensures
        r matches Ok(b) ==> (value@ == "nothing"@ && !b) || (value@ == "input"@ && b),
        r is Err <==> value@ != "nothing"@ && value@ != "input"@,
        r matches Err(e) ==> e@ == "invalid no-match achtion, possible values {nothing|input}"@,
{
    if text_is(value, "nothing") {
        Ok(false)
    } else if text_is(value, "input") {
        Ok(true)
    } else {
        Err("invalid no-match achtion, possible values {nothing|input}".to_owned())
    }
}

/// Name of a scorer: `substr` or `fuzzy`.
pub fn scorer_arg(name: &str) -> (r: Result<String, String>)
    ensures
        r is Ok <==> name@ == "substr"@ || name@ == "fuzzy"@,
        r matches Ok(s) ==> s@ == name@,
        r matches Err(e) ==> e@ == "unknown scorer type: "@ + name@,
{
    if text_is(name, "substr") || text_is(name, "fuzzy") {
        Ok(name.to_owned())
    } else {
        let mut text = chars_of("unknown scorer type: ");
        let mut rest = chars_of(name);
        text.append(&mut rest);
        Err(string_from_chars(text.as_slice()))
    }
}

/// The scorers a selector chooses among.
#[derive(Debug, Clone, Copy, PartialEq, Eq)]
pub enum ScorerKind {
    Fuzzy,
    Substr,
}

/// Name of a scorer.
pub open spec fn scorer_kind_name(k: ScorerKind) -> Seq<char> {
    match k {
        ScorerKind::Fuzzy => "fuzzy"@,
        ScorerKind::Substr => "substr"@,
    }
}

/// The scorers there are by default, in order.
pub open spec fn default_scorers() -> Seq<ScorerKind> {
    seq![ScorerKind::Fuzzy, ScorerKind::Substr]
}

/// Index of the first scorer named `name`.
pub open spec fn scorer_index(kinds: Seq<ScorerKind>, name: Seq<char>) -> Option<int>
    decreases kinds.len(),
{
    if kinds.len() == 0 {
        None
    } else {
        match scorer_index(kinds.drop_last(), name) {
            Some(i) => Some(i),
            None => if scorer_kind_name(kinds.last()) == name {
                Some(kinds.len() - 1)
            } else {
                None
            },
        }
    }
}

impl ScorerKind {
    pub fn name(&self) -> (r: &'static str)
        ensures
            r@ == scorer_kind_name(*self),
    {
        match self {
            ScorerKind::Fuzzy => "fuzzy",
            ScorerKind::Substr => "substr",
        }
    }
}

/// A choice among scorers that moves on to the next one, round the list, when toggled.
pub struct ScorerSelector {
    scorers: Vec<ScorerKind>,
    index: usize,
}

impl ScorerSelector {
    pub closed spec fn scorers_view(&self) -> Seq<ScorerKind> {
        self.scorers@
    }

    pub closed spec fn index_view(&self) -> int {
        self.index as int
    }

    /// At least one scorer, and the chosen one among them.
    pub closed spec fn wf(&self) -> bool {
        self.index < self.scorers@.len()
    }

    fn default_list() -> (r: Vec<ScorerKind>)
        ensures
            r@ == default_scorers(),
    {
        let mut r: Vec<ScorerKind> = Vec::new();
        r.push(ScorerKind::Fuzzy);
        r.push(ScorerKind::Substr);
        assert(r@ =~= default_scorers());
        r
    }

    /// A selector of `scorers`, the first one chosen; of the default ones where none is
    /// given.
    pub fn new(scorers: Vec<ScorerKind>) -> (r: Self)
        ensures
            r.wf(),
            r.index_view() == 0,
            r.scorers_view() == if scorers@.len() == 0 {
                default_scorers()
            } else {
                scorers@
            },
    {
        if scorers.len() == 0 {
            ScorerSelector { scorers: Self::default_list(), index: 0 }
        } else {
            ScorerSelector { scorers, index: 0 }
        }
    }

    /// Name of the chosen scorer.
    pub fn name(&self) -> (r: &'static str)
        requires
            self.wf(),
        ensures
            r@ == scorer_kind_name(self.scorers_view()[self.index_view()]),
    {
        self.scorers[self.index].name()
    }

    /// The chosen scorer; the next one is chosen from now on.
    pub fn toggle(&mut self) -> (r: ScorerKind)
        requires
            old(self).wf(),
        ensures
            final(self).wf(),
            r == old(self).scorers_view()[old(self).index_view()],
            final(self).scorers_view() == old(self).scorers_view(),
            final(self).index_view() == (old(self).index_view() + 1) % (old(
                self,
            ).scorers_view().len() as int),
    {
        let scorer = self.scorers[self.index];
        let len = self.scorers.len();
        self.index = (self.index + 1) % len;
        scorer
    }

    /// The default selector with the scorer named `name` chosen.
    pub fn from_str(name: &str) -> (r: Result<Self, String>)
        ensures
            match scorer_index(default_scorers(), name@) {
                Some(i) => r matches Ok(s) && s.wf() && s.scorers_view() == default_scorers()
                    && s.index_view() == i,
                None => r matches Err(e) && e@ == "Unknown scorer: "@ + name@,
            },
    {
        let scorers = Self::default_list();
        let mut i: usize = 0;
        while i < scorers.len()
            invariant
                scorers@ == default_scorers(),
                0 <= i <= scorers@.len(),
                scorer_index(scorers@.take(i as int), name@) is None,
            decreases scorers@.len() - i,
        {
            proof {
                assert(scorers@.take(i + 1).drop_last() =~= scorers@.take(i as int));
            }
            if text_is(scorers[i].name(), name) {
                proof {
                    assert(scorer_index(scorers@.take(i + 1), name@) == Some(i as int));
                    lemma_scorer_index_prefix(scorers@, i + 1);
                }
                return Ok(ScorerSelector { scorers, index: i });
            }
            i = i + 1;
        }
        proof {
            assert(scorers@.take(i as int) =~= scorers@);
        }
        let mut text = chars_of("Unknown scorer: ");
        let mut rest = chars_of(name);
        text.append(&mut rest);
        Err(string_from_chars(text.as_slice()))
    }
}

proof fn lemma_scorer_index_prefix(kinds: Seq<ScorerKind>, k: int)
    requires
        0 <= k <= kinds.len(),
    ensures
        forall|name: Seq<char>|
            #[trigger] scorer_index(kinds.take(k), name) is Some ==> scorer_index(kinds, name)
                == scorer_index(kinds.take(k), name),
    decreases kinds.len() - k,
{
    if k < kinds.len() {
        assert(kinds.take(k + 1).drop_last() =~= kinds.take(k));
        lemma_scorer_index_prefix(kinds, k + 1);
        assert forall|name: Seq<char>|
            #[trigger] scorer_index(kinds.take(k), name) is Some implies scorer_index(kinds, name)
                == scorer_index(kinds.take(k), name) by {
            assert(scorer_index(kinds.take(k + 1), name) == scorer_index(kinds.take(k), name));
        }
    } else {
        assert(kinds.take(k) =~= kinds);
    }
}

/// Toggling a selector as many times as it has scorers chooses the same scorer again.
pub proof fn law_toggle_round(index: int, len: int)
    requires
        0 <= index < len,
    ensures
        toggled(index, len, len as nat) == index,
{
    lemma_toggled(index, len, len as nat);
    assert((index + len) % len == index) by (nonlinear_arith)
        requires
            0 <= index < len,
    ;
}

/// The index chosen after `k` toggles from `index` among `len` scorers.
pub open spec fn toggled(index: int, len: int, k: nat) -> int
    decreases k,
{
    if k == 0 {
        index
    } else {
        (toggled(index, len, (k - 1) as nat) + 1) % len
    }
}

proof fn lemma_toggled(index: int, len: int, k: nat)
    requires
        0 <= index < len,
    ensures
        toggled(index, len, k) == (index + k) % len,
    decreases k,
{
    if k > 0 {
        lemma_toggled(index, len, (k - 1) as nat);
        let a = index + k - 1;
        assert(((a % len) + 1) % len == (a + 1) % len) by (nonlinear_arith)
            requires
                len > 0,
                a >= 0,
        ;
    } else {
        assert(index % len == index) by (nonlinear_arith)
            requires
                0 <= index < len,
        ;
    }
}

} // verus!
