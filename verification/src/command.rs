//! Command templates: arguments with `{selector}` holes that are filled with fields.
use vstd::prelude::*;
use crate::candidate::{FieldSelect, FieldSelector, SelectorError, field_selector_spec, selected_indices};
use crate::text::{chars_of, string_from_chars, trim, trim_spec};

verus! {

/// A chunk of a pattern: literal text (`Ok`) or the text between braces (`Err`).
pub type PatternChunk = Result<Seq<char>, Seq<char>>;

/// View of a parsed chunk.
pub open spec fn pattern_chunk_view(c: Result<String, String>) -> PatternChunk {
    match c {
        Ok(s) => Ok(s@),
        Err(s) => Err(s@),
    }
}

/// What a closing brace (or the end of the pattern) emits for the gathered `chunk`:
/// a selector when one is open, else the literal text unless it is empty.
pub open spec fn emit_chunk(chunk: Seq<char>, opened: bool) -> Seq<PatternChunk> {
    if opened {
        seq![Err(chunk)]
    } else if chunk.len() > 0 {
        seq![Ok(chunk)]
    } else {
        seq![]
    }
}

pub open spec fn is_brace(c: char) -> bool {
    c == '{' || c == '}'
}

/// Chunks of `s` from position `i` on, where `chunk` was gathered so far and `opened` tells
/// whether a selector is open. A doubled brace stands for itself, and so does a brace that
/// cannot open or close here (`{` inside a selector, `}` outside one).
pub open spec fn pattern_scan(s: Seq<char>, i: int, chunk: Seq<char>, opened: bool) -> Seq<
    PatternChunk,
>
    decreases s.len() - i,
{
    if i >= s.len() {
        emit_chunk(chunk, opened)
    } else {
        let c = s[i];
        if !is_brace(c) {
            pattern_scan(s, i + 1, chunk.push(c), opened)
        } else if i + 1 < s.len() && s[i + 1] == c {
            pattern_scan(s, i + 2, chunk.push(c), opened)
        } else if (c == '{') == opened {
            pattern_scan(s, i + 1, chunk.push(c), opened)
        } else {
            emit_chunk(chunk, opened) + pattern_scan(s, i + 1, seq![], !opened)
        }
    }
}

/// Chunks of a whole pattern.
pub open spec fn command_pattern_spec(s: Seq<char>) -> Seq<PatternChunk> {
    pattern_scan(s, 0, seq![], false)
}

proof fn lemma_scan_plain(s: Seq<char>, i: int)
    requires
        0 <= i <= s.len(),
        forall|k: int| 0 <= k < s.len() ==> !is_brace(#[trigger] s[k]),
    ensures
        pattern_scan(s, i, s.take(i), false) == emit_chunk(s, false),
    decreases s.len() - i,
{
    if i == s.len() {
        assert(s.take(i) =~= s);
    } else {
        assert(s.take(i).push(s[i]) =~= s.take(i + 1));
        lemma_scan_plain(s, i + 1);
    }
}

/// A pattern without braces is one chunk of literal text, or none when it is empty.
pub proof fn law_pattern_without_braces(s: Seq<char>)
    requires
        forall|k: int| 0 <= k < s.len() ==> !is_brace(#[trigger] s[k]),
    ensures
        command_pattern_spec(s) == if s.len() > 0 {
            seq![Ok::<Seq<char>, Seq<char>>(s)]
        } else {
            seq![]
        },
{
    assert(s.take(0) =~= Seq::<char>::empty());
    lemma_scan_plain(s, 0);
}

/// Split an argument pattern into literal text and selectors written between braces;
/// `{{` and `}}` stand for a brace.
pub fn parse_command_pattern(string: &str) -> (r: Vec<Result<String, String>>)
    ensures
        r@.map_values(|c: Result<String, String>| pattern_chunk_view(c)) == command_pattern_spec(
            string@,
        ),
{
    let chars = chars_of(string);
    let ghost s = chars@;
    let n = chars.len();
    let mut out: Vec<Result<String, String>> = Vec::new();
    let mut chunk: Vec<char> = Vec::new();
    let mut opened = false;
    let mut i: usize = 0;
    while i < n
        invariant
            s == chars@,
            s == string@,
            n == s.len(),
            0 <= i <= n,
            out@.map_values(|c: Result<String, String>| pattern_chunk_view(c)) + pattern_scan(
                s,
                i as int,
                chunk@,
                opened,
            ) == command_pattern_spec(s),
        decreases n - i,
    {
        let ghost before = out@.map_values(|c: Result<String, String>| pattern_chunk_view(c));
        let c = chars[i];
        if !(c == '{' || c == '}') {
            chunk.push(c);
            i = i + 1;
        } else if i + 1 < n && chars[i + 1] == c {
            chunk.push(c);
            i = i + 2;
        } else if (c == '{') == opened {
            chunk.push(c);
            i = i + 1;
        } else {
            let ghost emitted = emit_chunk(chunk@, opened);
            if opened {
                out.push(Err(string_from_chars(chunk.as_slice())));
            } else if chunk.len() > 0 {
                out.push(Ok(string_from_chars(chunk.as_slice())));
            }
            assert(out@.map_values(|c: Result<String, String>| pattern_chunk_view(c)) =~= before
                + emitted);
            chunk = Vec::new();
            opened = !opened;
            i = i + 1;
            assert(before + (emitted + pattern_scan(s, i as int, chunk@, opened)) =~= (before
                + emitted) + pattern_scan(s, i as int, chunk@, opened));
        }
    }
    let ghost before = out@.map_values(|c: Result<String, String>| pattern_chunk_view(c));
    if opened {
        out.push(Err(string_from_chars(chunk.as_slice())));
    } else if chunk.len() > 0 {
        out.push(Ok(string_from_chars(chunk.as_slice())));
    }
    assert(out@.map_values(|c: Result<String, String>| pattern_chunk_view(c)) =~= before
        + emit_chunk(chunk@, opened));
    out
}


/// A chunk of a built argument: literal text, or the fields a selector picks.
pub type ArgChunk = Result<Seq<char>, Seq<FieldSelect>>;

/// An argument of the command: plain text, or chunks to fill in.
pub type ArgTemplate = Result<Seq<char>, Seq<ArgChunk>>;

/// The chunks of a pattern with each selector parsed; `Err` when one does not parse.
pub open spec fn chunks_template(cs: Seq<PatternChunk>) -> Result<Seq<ArgChunk>, ()> {
    if forall|i: int|
        0 <= i < cs.len() ==> (#[trigger] cs[i] is Err ==> field_selector_spec(cs[i]->Err_0) is Ok) {
        Ok(
            Seq::new(
                cs.len(),
                |i: int|
                    match cs[i] {
                        Ok(t) => Ok(t),
                        Err(p) => Err(field_selector_spec(p)->Ok_0),
                    },
            ),
        )
    } else {
        Err(())
    }
}

/// One shell word as an argument: plain text unless it holds a `{`.
pub open spec fn word_template(w: Seq<char>) -> Result<ArgTemplate, ()> {
    if !w.contains('{') {
        Ok(Ok(w))
    } else {
        match chunks_template(command_pattern_spec(w)) {
            Ok(cs) => Ok(Err(cs)),
            Err(_) => Err(()),
        }
    }
}

/// The arguments built from shell words; `Err` when some selector does not parse.
pub open spec fn words_template(words: Seq<Seq<char>>) -> Result<Seq<ArgTemplate>, ()> {
    if forall|i: int| 0 <= i < words.len() ==> (#[trigger] word_template(words[i])) is Ok {
        Ok(Seq::new(words.len(), |i: int| word_template(words[i])->Ok_0))
    } else {
        Err(())
    }
}

/// The words that `shlex::Shlex` splits a text into.
pub uninterp spec fn shlex_words_of(text: Seq<char>) -> Seq<Seq<char>>;

/// Runs `shlex::Shlex::new(text)` to its end. Claimed: the result is the sequence of words
/// that `shlex_words_of` names for the text; the crate stops at malformed input (such as an
/// open quote) and the words before it are what comes out. What the words are is not stated.
#[verifier::external_body]
fn shlex_words(text: &str) -> (r: Vec<String>)
    ensures
        r.deep_view() == shlex_words_of(text@),
{
    shlex::Shlex::new(text).collect()
}

/// Fields joined with one space between them.
pub open spec fn join_spaced(parts: Seq<Seq<char>>) -> Seq<char>
    decreases parts.len(),
{
    if parts.len() == 0 {
        seq![]
    } else if parts.len() == 1 {
        parts[0]
    } else {
        join_spaced(parts.drop_last()) + seq![' '] + parts.last()
    }
}

/// Text that a selector is replaced with: the selected arguments, trimmed, joined by spaces.
pub open spec fn selected_text(sel: Seq<FieldSelect>, args: Seq<Seq<char>>) -> Seq<char> {
    join_spaced(
        selected_indices(sel, args.len() as usize).map_values(|i: usize| trim_spec(args[i as int])),
    )
}

pub open spec fn chunk_text(c: ArgChunk, args: Seq<Seq<char>>) -> Seq<char> {
    match c {
        Ok(t) => t,
        Err(sel) => selected_text(sel, args),
    }
}

/// One built argument.
pub open spec fn arg_text(a: ArgTemplate, args: Seq<Seq<char>>) -> Seq<char> {
    match a {
        Ok(t) => t,
        Err(cs) => cs.map_values(|c: ArgChunk| chunk_text(c, args)).flatten_alt(),
    }
}

/// Something that can stand for a field when a command is built.
pub trait ProcessCommandArg {
    spec fn command_arg_view(&self) -> Seq<char>;

    fn as_command_arg(&self) -> (r: &str)
        ensures
            r@ == self.command_arg_view(),
    ;
}

impl ProcessCommandArg for String {
    open spec fn command_arg_view(&self) -> Seq<char> {
        self@
    }

    fn as_command_arg(&self) -> (r: &str) {
        self.as_str()
    }
}

impl<'a> ProcessCommandArg for &'a str {
    open spec fn command_arg_view(&self) -> Seq<char> {
        (*self)@
    }

    fn as_command_arg(&self) -> (r: &str) {
        *self
    }
}

pub open spec fn chunk_template_view(c: Result<String, FieldSelector>) -> ArgChunk {
    match c {
        Ok(s) => Ok(s@),
        Err(f) => Err(f.0@),
    }
}

pub open spec fn arg_template_view(a: Result<String, Vec<Result<String, FieldSelector>>>) -> ArgTemplate {
    match a {
        Ok(s) => Ok(s@),
        Err(cs) => Err(cs@.map_values(|c: Result<String, FieldSelector>| chunk_template_view(c))),
    }
}

/// Builds the argument list of a command from a pattern and a list of fields.
pub struct ProcessCommandBuilder {
    args: Vec<Result<String, Vec<Result<String, FieldSelector>>>>,
}

impl std::str::FromStr for ProcessCommandBuilder {
    type Err = SelectorError;

    fn from_str(s: &str) -> (r: Result<Self, SelectorError>)
        ensures
            r is Ok <==> words_template(shlex_words_of(s@)) is Ok,
            r matches Ok(b) ==> words_template(shlex_words_of(s@)) == Ok::<
                Seq<ArgTemplate>,
                (),
            >(b@),
    {
        ProcessCommandBuilder::new(s)
    }
}

impl View for ProcessCommandBuilder {
    type V = Seq<ArgTemplate>;

    closed spec fn view(&self) -> Seq<ArgTemplate> {
        self.args@.map_values(
            |a: Result<String, Vec<Result<String, FieldSelector>>>| arg_template_view(a),
        )
    }
}

impl ProcessCommandBuilder {
    /// Split the pattern into shell words, and each word that holds a `{` into text and
    /// field selectors.
    pub fn new(pattern: &str) -> (r: Result<Self, SelectorError>)
        ensures
            r is Ok <==> words_template(shlex_words_of(pattern@)) is Ok,
            r matches Ok(b) ==> words_template(shlex_words_of(pattern@)) == Ok::<
                Seq<ArgTemplate>,
                (),
            >(b@),
    {
        let words = shlex_words(pattern);
        Self::from_words(words)
    }

    /// The builder for the given shell words.
    pub fn from_words(words: Vec<String>) -> (r: Result<Self, SelectorError>)
        ensures
            r is Ok <==> words_template(words.deep_view()) is Ok,
            r matches Ok(b) ==> words_template(words.deep_view()) == Ok::<Seq<ArgTemplate>, ()>(
                b@,
            ),
    {
        let ghost ws = words.deep_view();
        let mut args: Vec<Result<String, Vec<Result<String, FieldSelector>>>> = Vec::new();
        let mut i: usize = 0;
        while i < words.len()
            invariant
                ws == words.deep_view(),
                0 <= i <= ws.len(),
                args@.len() == i,
                forall|k: int|
                    0 <= k < i ==> (#[trigger] word_template(ws[k])) == Ok::<ArgTemplate, ()>(
                        arg_template_view(args@[k]),
                    ),
            decreases ws.len() - i,
        {
            assert(words@[i as int]@ == ws[i as int]);
            match Self::word_arg(&words[i]) {
                Ok(a) => args.push(a),
                Err(e) => {
                    assert(!(words_template(ws) is Ok));
                    return Err(e);
                },
            }
            i = i + 1;
        }
        let b = ProcessCommandBuilder { args };
        assert(b@ =~= Seq::new(ws.len(), |k: int| word_template(ws[k])->Ok_0));
        Ok(b)
    }

    fn word_arg(word: &String) -> (r: Result<Result<String, Vec<Result<String, FieldSelector>>>, SelectorError>)
        ensures
            r is Ok <==> word_template(word@) is Ok,
            r matches Ok(a) ==> word_template(word@) == Ok::<ArgTemplate, ()>(arg_template_view(a)),
    {
        let chars = chars_of(word.as_str());
        let mut has_open = false;
        let mut j: usize = 0;
        while j < chars.len()
            invariant
                chars@ == word@,
                0 <= j <= chars@.len(),
                has_open <==> exists|m: int| 0 <= m < j && chars@[m] == '{',
            decreases chars@.len() - j,
        {
            if chars[j] == '{' {
                has_open = true;
            }
            j = j + 1;
        }
        if !has_open {
            return Ok(Ok(word.clone()));
        }
        let pattern = parse_command_pattern(word.as_str());
        let ghost cs = pattern@.map_values(|c: Result<String, String>| pattern_chunk_view(c));
        assert(word@.contains('{'));
        assert(cs == command_pattern_spec(word@));
        let mut chunks: Vec<Result<String, FieldSelector>> = Vec::new();
        let mut k: usize = 0;
        while k < pattern.len()
            invariant
                cs == pattern@.map_values(|c: Result<String, String>| pattern_chunk_view(c)),
                word@.contains('{'),
                cs == command_pattern_spec(word@),
                0 <= k <= cs.len(),
                chunks@.len() == k,
                forall|m: int|
                    0 <= m < k ==> (#[trigger] cs[m] is Err ==> field_selector_spec(cs[m]->Err_0) is Ok)
                        && chunk_template_view(chunks@[m]) == match cs[m] {
                        Ok(t) => Ok(t),
                        Err(p) => Err(field_selector_spec(p)->Ok_0),
                    },
            decreases cs.len() - k,
        {
            assert(cs[k as int] == pattern_chunk_view(pattern@[k as int]));
            match &pattern[k] {
                Ok(t) => chunks.push(Ok(t.clone())),
                Err(p) => {
                    match FieldSelector::from_str(p.as_str()) {
                        Ok(sel) => chunks.push(Err(sel)),
                        Err(e) => {
                            assert(!(chunks_template(cs) is Ok));
                            return Err(e);
                        },
                    }
                },
            }
            k = k + 1;
        }
        assert(chunks@.map_values(|c: Result<String, FieldSelector>| chunk_template_view(c))
            =~= chunks_template(cs)->Ok_0);
        Ok(Err(chunks))
    }
}


/// Append `s` to `out`.
fn push_chars(out: &mut Vec<char>, s: &[char])
    ensures
        final(out)@ == old(out)@ + s@,
{
    let ghost start = out@;
    let mut i: usize = 0;
    while i < s.len()
        invariant
            0 <= i <= s@.len(),
            out@ == start + s@.take(i as int),
        decreases s@.len() - i,
    {
        out.push(s[i]);
        i = i + 1;
        assert(out@ =~= start + s@.take(i as int));
    }
    assert(s@.take(i as int) =~= s@);
}

proof fn lemma_join_spaced_step(parts: Seq<Seq<char>>, k: int)
    requires
        0 <= k < parts.len(),
    ensures
        join_spaced(parts.take(k + 1)) == if k == 0 {
            parts[0]
        } else {
            join_spaced(parts.take(k)) + seq![' '] + parts[k]
        },
{
    assert(parts.take(k + 1).drop_last() =~= parts.take(k));
}

proof fn lemma_flatten_alt_step(texts: Seq<Seq<char>>, k: int)
    requires
        0 <= k < texts.len(),
    ensures
        texts.take(k + 1).flatten_alt() == texts.take(k).flatten_alt() + texts[k],
{
    assert(texts.take(k + 1).drop_last() =~= texts.take(k));
}

impl ProcessCommandBuilder {
    /// The arguments of the command for the given fields: plain words as they are; in the
    /// others each selector is replaced by the fields it selects, trimmed and joined by spaces.
    pub fn build<A: ProcessCommandArg>(&self, args: &[A]) -> (r: Vec<String>)
        ensures
            r.deep_view() == self@.map_values(
                |a: ArgTemplate| arg_text(a, args@.map_values(|x: A| x.command_arg_view())),
            ),
    {
        let ghost av = args@.map_values(|x: A| x.command_arg_view());
        let mut fields: Vec<Vec<char>> = Vec::new();
        let mut i: usize = 0;
        while i < args.len()
            invariant
                av == args@.map_values(|x: A| x.command_arg_view()),
                0 <= i <= args@.len(),
                fields@.len() == i,
                forall|k: int| 0 <= k < i ==> (#[trigger] fields@[k])@ == trim_spec(av[k]),
            decreases args@.len() - i,
        {
            let chars = chars_of(args[i].as_command_arg());
            fields.push(trim(chars.as_slice()));
            i = i + 1;
        }
        let ghost target = self@.map_values(|a: ArgTemplate| arg_text(a, av));
        let mut r: Vec<String> = Vec::new();
        let mut j: usize = 0;
        while j < self.args.len()
            invariant
                fields@.len() == av.len(),
                forall|k: int| 0 <= k < av.len() ==> (#[trigger] fields@[k])@ == trim_spec(av[k]),
                target == self@.map_values(|a: ArgTemplate| arg_text(a, av)),
                0 <= j <= self.args@.len(),
                r@.len() == j,
                forall|k: int| 0 <= k < j ==> (#[trigger] r@[k])@ == target[k],
            decreases self.args@.len() - j,
        {
            assert(self@[j as int] == arg_template_view(self.args@[j as int]));
            match &self.args[j] {
                Ok(s) => r.push(s.clone()),
                Err(chunks) => {
                    let text = fill_chunks(chunks, &fields, Ghost(av));
                    assert(chunks@.map_values(
                        |c: Result<String, FieldSelector>| chunk_text(chunk_template_view(c), av),
                    ) =~= chunks@.map_values(
                        |c: Result<String, FieldSelector>| chunk_template_view(c),
                    ).map_values(|c: ArgChunk| chunk_text(c, av)));
                    r.push(text);
                },
            }
            j = j + 1;
        }
        assert(r.deep_view() =~= target);
        r
    }
}

/// The text of a templated argument.
fn fill_chunks(
    chunks: &Vec<Result<String, FieldSelector>>,
    fields: &Vec<Vec<char>>,
    Ghost(av): Ghost<Seq<Seq<char>>>,
) -> (r: String)
    requires
        fields@.len() == av.len(),
        forall|k: int| 0 <= k < av.len() ==> (#[trigger] fields@[k])@ == trim_spec(av[k]),
    ensures
        r@ == chunks@.map_values(
            |c: Result<String, FieldSelector>| chunk_text(chunk_template_view(c), av),
        ).flatten_alt(),
{
    let ghost texts = chunks@.map_values(
        |c: Result<String, FieldSelector>| chunk_text(chunk_template_view(c), av),
    );
    let mut out: Vec<char> = Vec::new();
    let mut m: usize = 0;
    assert(texts.take(0) =~= Seq::<Seq<char>>::empty());
    while m < chunks.len()
        invariant
            fields@.len() == av.len(),
            forall|k: int| 0 <= k < av.len() ==> (#[trigger] fields@[k])@ == trim_spec(av[k]),
            texts == chunks@.map_values(
                |c: Result<String, FieldSelector>| chunk_text(chunk_template_view(c), av),
            ),
            0 <= m <= chunks@.len(),
            out@ == texts.take(m as int).flatten_alt(),
        decreases chunks@.len() - m,
    {
        proof {
            lemma_flatten_alt_step(texts, m as int);
        }
        match &chunks[m] {
            Ok(t) => {
                let cs = chars_of(t.as_str());
                push_chars(&mut out, cs.as_slice());
            },
            Err(sel) => {
                let cs = selected_fields(sel, fields, Ghost(av));
                push_chars(&mut out, cs.as_slice());
            },
        }
        m = m + 1;
    }
    assert(texts.take(m as int) =~= texts);
    string_from_chars(out.as_slice())
}

/// The selected fields, joined by spaces.
fn selected_fields(sel: &FieldSelector, fields: &Vec<Vec<char>>, Ghost(av): Ghost<Seq<Seq<char>>>) -> (r: Vec<char>)
    requires
        fields@.len() == av.len(),
        forall|k: int| 0 <= k < av.len() ==> (#[trigger] fields@[k])@ == trim_spec(av[k]),
    ensures
        r@ == selected_text(sel.0@, av),
{
    let idx = sel.matches_iter(fields.len());
    let ghost parts = idx@.map_values(|i: usize| trim_spec(av[i as int]));
    let mut out: Vec<char> = Vec::new();
    let mut k: usize = 0;
    assert(parts.take(0) =~= Seq::<Seq<char>>::empty());
    while k < idx.len()
        invariant
            fields@.len() == av.len(),
            forall|k: int| 0 <= k < av.len() ==> (#[trigger] fields@[k])@ == trim_spec(av[k]),
            forall|m: int| 0 <= m < idx@.len() ==> (#[trigger] idx@[m]) < fields@.len(),
            parts == idx@.map_values(|i: usize| trim_spec(av[i as int])),
            0 <= k <= idx@.len(),
            out@ == join_spaced(parts.take(k as int)),
        decreases idx@.len() - k,
    {
        proof {
            lemma_join_spaced_step(parts, k as int);
        }
        if k != 0 {
            out.push(' ');
        }
        let f = idx[k];
        push_chars(&mut out, fields[f].as_slice());
        k = k + 1;
    }
    assert(parts.take(k as int) =~= parts);
    out
}

} // verus!
