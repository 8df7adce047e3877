//! Candidates: fields of an entry, field selection and splitting of input lines.
use vstd::prelude::*;
use crate::kmp::{KMPPattern, first_occurrence, occurs_at};
use crate::text::{
    chars_of, parse_i32, parse_i32_spec, slice_to_vec, split_by, split_on, string_from_chars, trim,
    trim_spec,
};

verus! {

/// Previously registered field that is used as base of the field
#[derive(Debug, Clone, Copy, PartialEq, Eq, Hash)]
pub struct FieldRef(pub i64);

/// Single part of a candidate: its text, whether it takes part in the search,
/// whether it is drawn as a glyph, and the registered field it is based on.
#[derive(Debug, Clone, PartialEq, Eq)]
pub struct Field {
    pub text: String,
    pub active: bool,
    pub has_glyph: bool,
    pub field_ref: Option<FieldRef>,
}

impl Field {
    /// Create text field: active, without glyph or reference.
    pub fn text(text: String) -> (r: Self)
        ensures
            r.text@ == text@,
            r.active,
            !r.has_glyph,
            r.field_ref is None,
    {
        Field { text, active: true, has_glyph: false, field_ref: None }
    }

    /// Create new field with specified active
    pub fn active(self, active: bool) -> (r: Self)
        ensures
            r.text@ == self.text@,
            r.active == active,
            r.has_glyph == self.has_glyph,
            r.field_ref == self.field_ref,
    {
        Field { active, ..self }
    }

    /// Create new field with specified field reference
    pub fn reference(self, field_ref: FieldRef) -> (r: Self)
        ensures
            r.text@ == self.text@,
            r.active == self.active,
            r.has_glyph == self.has_glyph,
            r.field_ref == Some(field_ref),
    {
        Field { field_ref: Some(field_ref), ..self }
    }
}

/// A field as plain values: text, whether active, whether drawn as a glyph, its reference.
pub open spec fn field_view(f: Field) -> (Seq<char>, bool, bool, Option<FieldRef>) {
    (f.text@, f.active, f.has_glyph, f.field_ref)
}

/// A field with its reference resolved against the registered fields: without a reference,
/// or with one that is not registered, the field itself; else its own text unless empty,
/// then the base's, and a glyph when either has one; the result refers to nothing.
pub open spec fn field_resolve_spec(f: Field, refs: Map<i64, Field>) -> (Seq<char>, bool, bool, Option<FieldRef>) {
    match f.field_ref {
        None => field_view(f),
        Some(r) => if refs.contains_key(r.0) {
            let base = refs[r.0];
            (
                if f.text@.len() == 0 {
                    base.text@
                } else {
                    f.text@
                },
                f.active,
                f.has_glyph || base.has_glyph,
                None,
            )
        } else {
            field_view(f)
        },
    }
}

impl Field {
    /// Resolve the reference of the field against the registered fields, keyed by the
    /// number of their reference.
    pub fn resolve(&self, refs: &std::collections::HashMap<i64, Field>) -> (r: Field)
        ensures
            field_view(r) == field_resolve_spec(*self, refs@),
    {
        let copy = Field {
            text: self.text.clone(),
            active: self.active,
            has_glyph: self.has_glyph,
            field_ref: self.field_ref,
        };
        let field_ref = match self.field_ref {
            None => {
                return copy;
            },
            Some(r) => r,
        };
        let key = field_ref.0;
        match refs.get(&key) {
            None => copy,
            Some(base) => {
                let text = if self.text.as_str().is_empty() {
                    base.text.clone()
                } else {
                    self.text.clone()
                };
                Field {
                    text,
                    active: self.active,
                    has_glyph: self.has_glyph || base.has_glyph,
                    field_ref: None,
                }
            },
        }
    }
}

/// Searchable characters of one field: those of an active text field.
pub open spec fn field_haystack(f: Field) -> Seq<char> {
    if f.active && !f.has_glyph {
        f.text@
    } else {
        Seq::empty()
    }
}

/// Searchable characters of a list of fields, in order.
pub open spec fn fields_haystack_spec(fields: Seq<Field>) -> Seq<char>
    decreases fields.len(),
{
    if fields.len() == 0 {
        Seq::empty()
    } else {
        fields_haystack_spec(fields.drop_last()) + field_haystack(fields.last())
    }
}

/// Extract searchable character from fields list
pub fn fields_haystack(fields: &[Field]) -> (r: Vec<char>)
    ensures
        r@ == fields_haystack_spec(fields@),
{
    let mut r: Vec<char> = Vec::new();
    let mut i: usize = 0;
    while i < fields.len()
        invariant
            0 <= i <= fields@.len(),
            r@ == fields_haystack_spec(fields@.take(i as int)),
        decreases fields@.len() - i,
    {
        let f = &fields[i];
        assert(fields@.take(i as int + 1).drop_last() =~= fields@.take(i as int));
        if f.active && !f.has_glyph {
            let chars = chars_of(f.text.as_str());
            let mut k: usize = 0;
            let ghost base = r@;
            while k < chars.len()
                invariant
                    0 <= k <= chars@.len(),
                    r@ == base + chars@.take(k as int),
                decreases chars@.len() - k,
            {
                r.push(chars[k]);
                k = k + 1;
                assert(r@ =~= base + chars@.take(k as int));
            }
            assert(chars@.take(k as int) =~= chars@);
        } else {
            assert(r@ =~= r@ + Seq::<char>::empty());
        }
        i = i + 1;
    }
    assert(fields@.take(fields@.len() as int) =~= fields@);
    r
}

/// Candidate entry: searchable target fields, fields shown on the right, the space
/// reserved for them, and preview fields.
#[derive(Debug, Clone)]
pub struct Candidate {
    target: Vec<Field>,
    right: Vec<Field>,
    right_offset: usize,
    preview: Vec<Field>,
    preview_haystack_position: usize,
}

impl Candidate {
    pub closed spec fn target_view(&self) -> Seq<Field> {
        self.target@
    }

    pub closed spec fn right_view(&self) -> Seq<Field> {
        self.right@
    }

    pub closed spec fn preview_view(&self) -> Seq<Field> {
        self.preview@
    }

    pub closed spec fn right_offset_view(&self) -> usize {
        self.right_offset
    }

    pub closed spec fn preview_position_view(&self) -> usize {
        self.preview_haystack_position
    }

    /// Create new candidate entry
    pub fn new(target: Vec<Field>, right: Vec<Field>, right_offset: usize, preview: Vec<Field>) -> (r: Self)
        requires
            fields_haystack_spec(target@).len() + fields_haystack_spec(right@).len() <= usize::MAX,
        ensures
            r.target_view() == target@,
            r.right_view() == right@,
            r.right_offset_view() == right_offset,
            r.preview_view() == preview@,
            r.preview_position_view() == fields_haystack_spec(target@).len()
                + fields_haystack_spec(right@).len(),
    {
        let t = fields_haystack(target.as_slice());
        let rt = fields_haystack(right.as_slice());
        let preview_haystack_position = t.len() + rt.len();
        Candidate { target, right, right_offset, preview, preview_haystack_position }
    }

    /// The target, right and preview fields and the space reserved on the right, taken
    /// apart.
    pub fn into_parts(self) -> (r: (Vec<Field>, Vec<Field>, usize, Vec<Field>))
        ensures
            r.0@ == self.target_view(),
            r.1@ == self.right_view(),
            r.2 == self.right_offset_view(),
            r.3@ == self.preview_view(),
    {
        (self.target, self.right, self.right_offset, self.preview)
    }

    /// Searchable fields shown on left
    pub fn target(&self) -> (r: &Vec<Field>)
        ensures
            r@ == self.target_view(),
    {
        &self.target
    }

    /// Fields with additional information show on the right
    pub fn right(&self) -> (r: &Vec<Field>)
        ensures
            r@ == self.right_view(),
    {
        &self.right
    }

    /// Amount of space reserved for the right fields
    pub fn right_offset(&self) -> (r: usize)
        ensures
            r == self.right_offset_view(),
    {
        self.right_offset
    }

    /// Offset of the preview characters in the candidate's haystack.
    pub fn preview_haystack_position(&self) -> (r: usize)
        ensures
            r == self.preview_position_view(),
    {
        self.preview_haystack_position
    }

    /// Searchable characters: those of target, right and preview fields, in order.
    pub fn haystack(&self) -> (r: Vec<char>)
        ensures
            r@ == fields_haystack_spec(self.target_view()) + fields_haystack_spec(
                self.right_view(),
            ) + fields_haystack_spec(self.preview_view()),
    {
        let mut r = fields_haystack(self.target.as_slice());
        let mut rt = fields_haystack(self.right.as_slice());
        let mut p = fields_haystack(self.preview.as_slice());
        r.append(&mut rt);
        r.append(&mut p);
        r
    }

    /// Construct from string: split on `delimiter` when a selector is given, fields are
    /// active where the selector matches them.
    pub fn from_string(string: String, delimiter: char, field_selector: Option<&FieldSelector>) -> (r: Self)
        ensures
            ({
                let chunks = split_inclusive_spec(string@, delimiter);
                &&& r.target_view().len() == chunks.len()
                &&& forall|i: int|
                    0 <= i < chunks.len() ==> {
                        &&& (#[trigger] r.target_view()[i]).text@ == chunks[i]
                        &&& !r.target_view()[i].has_glyph
                        &&& r.target_view()[i].field_ref is None
                        &&& r.target_view()[i].active == match field_selector {
                            None => true,
                            Some(sel) => sel.matches_spec(i as usize, chunks.len() as usize),
                        }
                    }
            }),
            r.right_view().len() == 0,
            r.preview_view().len() == 0,
            r.right_offset_view() == 0,
    {
        let chars = chars_of(string.as_str());
        let chunks = split_inclusive_chars(&chars, delimiter);
        proof {
            lemma_split_inclusive_len(chars@, delimiter);
        }
        let n = chunks.len();
        let mut fields: Vec<Field> = Vec::new();
        let mut i: usize = 0;
        while i < n
            invariant
                n == chunks@.len(),
                chunks.deep_view() == split_inclusive_spec(string@, delimiter),
                0 <= i <= n,
                fields@.len() == i,
                forall|k: int|
                    0 <= k < i ==> {
                        &&& (#[trigger] fields@[k]).text@ == chunks.deep_view()[k]
                        &&& !fields@[k].has_glyph
                        &&& fields@[k].field_ref is None
                        &&& fields@[k].active == match field_selector {
                            None => true,
                            Some(sel) => sel.matches_spec(k as usize, n),
                        }
                    },
            decreases n - i,
        {
            let active = match field_selector {
                None => true,
                Some(sel) => sel.matches(i, n),
            };
            let text = string_from_chars(chunks[i].as_slice());
            assert(chunks@[i as int]@ == chunks.deep_view()[i as int]);
            fields.push(Field { text, active, has_glyph: false, field_ref: None });
            i = i + 1;
        }
        let t = fields_haystack(fields.as_slice());
        let ghost fv = fields@;
        proof {
            lemma_fields_haystack_len(fv);
            assert(fields_haystack_spec(Seq::<Field>::empty()) =~= Seq::<char>::empty());
        }
        Candidate {
            target: fields,
            right: Vec::new(),
            right_offset: 0,
            preview: Vec::new(),
            preview_haystack_position: t.len(),
        }
    }
}

proof fn lemma_fields_haystack_len(fields: Seq<Field>)
    ensures
        fields_haystack_spec(fields).len() >= 0,
{
}

/// Chunks of `s` as `split_inclusive` produces them: a chunk starts at a separator that
/// follows a non-separator, the separator glued to its start; runs of separators stay
/// together; an empty string has no chunks.
pub open spec fn split_inclusive_spec(s: Seq<char>, sep: char) -> Seq<Seq<char>>
    decreases s.len(),
{
    if s.len() == 0 {
        Seq::empty()
    } else {
        let prev = split_inclusive_spec(s.drop_last(), sep);
        let i = s.len() - 1;
        let c = s.last();
        if prev.len() == 0 {
            seq![seq![c]]
        } else if c == sep && s[i - 1] != sep {
            prev.push(seq![c])
        } else {
            prev.update(prev.len() - 1, prev.last().push(c))
        }
    }
}

proof fn lemma_split_inclusive_len(s: Seq<char>, sep: char)
    ensures
        split_inclusive_spec(s, sep).len() <= s.len(),
        s.len() > 0 ==> split_inclusive_spec(s, sep).len() > 0,
    decreases s.len(),
{
    if s.len() > 0 {
        lemma_split_inclusive_len(s.drop_last(), sep);
    }
}

/// Splitting loses nothing: the chunks, none of them empty, put back together give the
/// string.
pub proof fn law_split_inclusive_concat(s: Seq<char>, sep: char)
    ensures
        split_inclusive_spec(s, sep).flatten_alt() == s,
        forall|i: int|
            0 <= i < split_inclusive_spec(s, sep).len() ==> #[trigger] split_inclusive_spec(s, sep)[i].len()
                > 0,
    decreases s.len(),
{
    if s.len() > 0 {
        let prev = split_inclusive_spec(s.drop_last(), sep);
        law_split_inclusive_concat(s.drop_last(), sep);
        lemma_split_inclusive_len(s.drop_last(), sep);
        let c = s.last();
        let cur = split_inclusive_spec(s, sep);
        if prev.len() == 0 {
            assert(s.drop_last().len() == 0);
            assert(cur.drop_last() =~= Seq::<Seq<char>>::empty());
            assert(cur.flatten_alt() =~= s);
        } else if c == sep && s[s.len() - 2] != sep {
            assert(cur.drop_last() =~= prev);
            assert(cur.flatten_alt() =~= s);
        } else {
            assert(cur == prev.update(prev.len() - 1, prev.last().push(c)));
            assert(cur.drop_last() =~= prev.drop_last());
            assert(cur.last() == prev.last().push(c));
            assert(prev.flatten_alt() == prev.drop_last().flatten_alt() + prev.last());
            assert(cur.flatten_alt() == cur.drop_last().flatten_alt() + cur.last());
            assert(s =~= s.drop_last().push(c));
            assert(cur.flatten_alt() =~= s);
        }
    }
}

/// `split_inclusive` on characters.
pub fn split_inclusive_chars(s: &Vec<char>, sep: char) -> (r: Vec<Vec<char>>)
    ensures
        r.deep_view() == split_inclusive_spec(s@, sep),
{
    let mut r: Vec<Vec<char>> = Vec::new();
    let mut cur: Vec<char> = Vec::new();
    let mut i: usize = 0;
    while i < s.len()
        invariant
            0 <= i <= s@.len(),
            i == 0 ==> r@.len() == 0 && cur@.len() == 0,
            i > 0 ==> r.deep_view().push(cur@) == split_inclusive_spec(s@.take(i as int), sep),
        decreases s@.len() - i,
    {
        let c = s[i];
        let ghost prev = split_inclusive_spec(s@.take(i as int), sep);
        let ghost old_r = r.deep_view();
        proof {
            lemma_split_inclusive_len(s@.take(i as int), sep);
            assert(s@.take(i as int + 1).drop_last() =~= s@.take(i as int));
            assert(s@.take(i as int + 1).last() == c);
            if i > 0 {
                assert(s@.take(i as int + 1)[i - 1] == s@[i - 1]);
            }
        }
        if i > 0 && c == sep && s[i - 1] != sep {
            let ghost old_rv = r@;
            assert(cur.deep_view() =~= cur@);
            r.push(cur);
            cur = Vec::new();
            cur.push(c);
            assert(r@ == old_rv.push(r@.last()));
            assert(r.deep_view() =~= old_r.push(prev.last()));
            assert(prev =~= old_r.push(prev.last()));
            assert(r.deep_view().push(cur@) =~= prev.push(seq![c]));
        } else {
            cur.push(c);
            if i == 0 {
                assert(r.deep_view() =~= Seq::<Seq<char>>::empty());
                assert(cur@ =~= seq![c]);
                assert(r.deep_view().push(cur@) =~= seq![seq![c]]);
            } else {
                assert(r.deep_view() =~= old_r);
                assert(r.deep_view().push(cur@) =~= prev.update(
                    prev.len() - 1,
                    prev.last().push(c),
                ));
            }
        }
        i = i + 1;
    }
    assert(s@.take(s@.len() as int) =~= s@);
    if i > 0 {
        let ghost old_r = r.deep_view();
        let ghost old_rv = r@;
        let ghost cur_v = cur@;
        assert(cur.deep_view() =~= cur@);
        r.push(cur);
        assert(r@ == old_rv.push(r@.last()));
        assert(r.deep_view() =~= old_r.push(cur_v));
    } else {
        assert(r.deep_view() =~= Seq::<Seq<char>>::empty());
    }
    r
}

/// Split string into chunks separated by `sep` char.
///
/// Separators are glued to the beginning of the chunk. Adjacent separators are treated as
/// one separator.
pub fn split_inclusive(sep: char, string: &str) -> (r: Vec<String>)
    ensures
        r@.len() == split_inclusive_spec(string@, sep).len(),
        forall|i: int|
            0 <= i < r@.len() ==> (#[trigger] r@[i])@ == split_inclusive_spec(string@, sep)[i],
{
    let chars = chars_of(string);
    let chunks = split_inclusive_chars(&chars, sep);
    let mut r: Vec<String> = Vec::new();
    let mut i: usize = 0;
    while i < chunks.len()
        invariant
            0 <= i <= chunks@.len(),
            chunks.deep_view() == split_inclusive_spec(string@, sep),
            r@.len() == i,
            forall|k: int| 0 <= k < i ==> (#[trigger] r@[k])@ == chunks.deep_view()[k],
        decreases chunks@.len() - i,
    {
        assert(chunks@[i as int]@ == chunks.deep_view()[i as int]);
        r.push(string_from_chars(chunks[i].as_slice()));
        i = i + 1;
    }
    r
}

/// Selection of fields by index; negative indices count from the end.
#[derive(Debug, Clone, Copy, PartialEq, Eq)]
pub enum FieldSelect {
    All,
    Single(i32),
    RangeFrom(i32),
    RangeTo(i32),
    Range(i32, i32),
}

/// Index a selector bound designates among `size` fields.
pub open spec fn resolve_spec(value: i32, size: i32) -> int {
    if value < 0 {
        size + value
    } else {
        value as int
    }
}

/// Error of parsing a field selector: the text that is not a number.
#[derive(Debug, Clone, PartialEq, Eq)]
pub struct SelectorError {
    pub text: String,
}

/// Parsed bound of a range: absent when blank.
pub open spec fn bound_spec(part: Seq<char>) -> Result<Option<i32>, ()> {
    if trim_spec(part).len() == 0 {
        Ok(None)
    } else {
        match parse_i32_spec(trim_spec(part)) {
            Some(v) => Ok(Some(v)),
            None => Err(()),
        }
    }
}

/// The two parts of `s` around its first `..`, the second absent when there is none.
pub open spec fn range_parts(s: Seq<char>) -> (Seq<char>, Option<Seq<char>>) {
    match first_occurrence(s, seq!['.', '.']) {
        Some(i) => (s.take(i), Some(s.skip(i + 2))),
        None => (s, None),
    }
}

/// What `FieldSelect::from_str` gives for `s`; `Err` when some part is not a number.
pub open spec fn field_select_spec(s: Seq<char>) -> Result<FieldSelect, ()> {
    match parse_i32_spec(s) {
        Some(v) => Ok(FieldSelect::Single(v)),
        None => {
            let (first, second) = range_parts(s);
            match bound_spec(first) {
                Err(_) => Err(()),
                Ok(start) => {
                    let end = match second {
                        None => Ok(None),
                        Some(p) => bound_spec(p),
                    };
                    match end {
                        Err(_) => Err(()),
                        Ok(end) => match (start, end) {
                            (Some(a), Some(b)) => Ok(FieldSelect::Range(a, b)),
                            (Some(a), None) => Ok(FieldSelect::RangeFrom(a)),
                            (None, Some(b)) => Ok(FieldSelect::RangeTo(b)),
                            (None, None) => Ok(FieldSelect::All),
                        },
                    }
                },
            }
        },
    }
}

/// The text reported when `s` is not a field selection: the first bound that is not a
/// number, trimmed.
pub open spec fn field_select_error(s: Seq<char>) -> Seq<char> {
    let (first, second) = range_parts(s);
    if bound_spec(first) is Err {
        trim_spec(first)
    } else {
        match second {
            Some(p) => trim_spec(p),
            None => seq![],
        }
    }
}

/// Index of the first part that is not a field selection.
pub open spec fn first_bad_part(parts: Seq<Seq<char>>) -> int {
    choose|i: int|
        0 <= i < parts.len() && !(field_select_spec(trim_spec(parts[i])) is Ok) && forall|j: int|
            0 <= j < i ==> (#[trigger] field_select_spec(trim_spec(parts[j]))) is Ok
}

fn parse_bound(part: &[char]) -> (r: Result<Option<i32>, SelectorError>)
    ensures
        r is Ok <==> bound_spec(part@) is Ok,
        r matches Ok(v) ==> bound_spec(part@) == Ok::<Option<i32>, ()>(v),
        r matches Err(e) ==> e.text@ == trim_spec(part@),
{
    let t = trim(part);
    if t.len() == 0 {
        return Ok(None);
    }
    match parse_i32(t.as_slice()) {
        Some(v) => Ok(Some(v)),
        None => Err(SelectorError { text: string_from_chars(t.as_slice()) }),
    }
}

impl FieldSelect {
    /// Whether the field at `index` among `size` fields is selected.
    pub open spec fn matches_spec(&self, index: usize, size: usize) -> bool {
        let i = index as i32;
        let n = size as i32;
        match *self {
            FieldSelect::All => true,
            FieldSelect::Single(v) => resolve_spec(v, n) == i,
            FieldSelect::RangeFrom(s) => resolve_spec(s, n) <= i,
            FieldSelect::RangeTo(e) => resolve_spec(e, n) > i,
            FieldSelect::Range(s, e) => resolve_spec(s, n) <= i && resolve_spec(e, n) > i,
        }
    }

    pub fn matches(&self, index: usize, size: usize) -> (r: bool)
        ensures
            r == self.matches_spec(index, size),
    {
        let index = index as i32 as i64;
        let size = size as i32 as i64;
        match *self {
            FieldSelect::All => true,
            FieldSelect::Single(v) => resolve(v, size) == index,
            FieldSelect::RangeFrom(s) => resolve(s, size) <= index,
            FieldSelect::RangeTo(e) => resolve(e, size) > index,
            FieldSelect::Range(s, e) => resolve(s, size) <= index && resolve(e, size) > index,
        }
    }

    /// Parse `N`, `N..`, `..M`, `N..M` or `..`, where blank bounds are absent.
    pub fn from_str(string: &str) -> (r: Result<FieldSelect, SelectorError>)
        ensures
            r is Ok <==> field_select_spec(string@) is Ok,
            r matches Ok(v) ==> field_select_spec(string@) == Ok::<FieldSelect, ()>(v),
            r matches Err(e) ==> e.text@ == field_select_error(string@),
    {
        let chars = chars_of(string);
        Self::from_chars(&chars)
    }

    pub fn from_chars(chars: &Vec<char>) -> (r: Result<FieldSelect, SelectorError>)
        ensures
            r is Ok <==> field_select_spec(chars@) is Ok,
            r matches Ok(v) ==> field_select_spec(chars@) == Ok::<FieldSelect, ()>(v),
            r matches Err(e) ==> e.text@ == field_select_error(chars@),
    {
        if let Some(v) = parse_i32(chars.as_slice()) {
            return Ok(FieldSelect::Single(v));
        }
        let (first, second) = split_range(chars);
        let start = parse_bound(first.as_slice())?;
        let end = match second {
            None => None,
            Some(p) => parse_bound(p.as_slice())?,
        };
        Ok(select_from_bounds(start, end))
    }
}

fn select_from_bounds(start: Option<i32>, end: Option<i32>) -> (r: FieldSelect)
    ensures
        r == match (start, end) {
            (Some(a), Some(b)) => FieldSelect::Range(a, b),
            (Some(a), None) => FieldSelect::RangeFrom(a),
            (None, Some(b)) => FieldSelect::RangeTo(b),
            (None, None) => FieldSelect::All,
        },
{
    match (start, end) {
        (Some(a), Some(b)) => FieldSelect::Range(a, b),
        (Some(a), None) => FieldSelect::RangeFrom(a),
        (None, Some(b)) => FieldSelect::RangeTo(b),
        (None, None) => FieldSelect::All,
    }
}

/// The parts of `chars` around its first `..`.
fn split_range(chars: &Vec<char>) -> (r: (Vec<char>, Option<Vec<char>>))
    ensures
        r.0@ == range_parts(chars@).0,
        r.1 is Some == range_parts(chars@).1 is Some,
        r.1 matches Some(p) ==> range_parts(chars@).1 == Some(p@),
{
    let mut dots: Vec<char> = Vec::new();
    dots.push('.');
    dots.push('.');
    assert(dots@ =~= seq!['.', '.']);
    let pattern = KMPPattern::new(dots);
    let found = pattern.search(chars.as_slice());
    let ghost fo = first_occurrence(chars@, seq!['.', '.']);
    assert(found matches Some(i) ==> fo == Some(i as int));
    assert(found is None ==> fo is None);
    match found {
        Some(i) => {
            assert(pattern.needle_view().len() == 2);
            assert(occurs_at(chars@, pattern.needle_view(), i as int));
            assert(i + 2 <= chars@.len());
            assert(range_parts(chars@) == (chars@.take(i as int), Some(chars@.skip(i + 2))));
            let first = slice_to_vec(chars.as_slice(), 0, i);
            let n = chars.len();
            let second = slice_to_vec(chars.as_slice(), i + 2, n);
            assert(first@ =~= chars@.take(i as int));
            assert(second@ =~= chars@.skip(i + 2));
            (first, Some(second))
        },
        None => {
            assert(range_parts(chars@) == (chars@, None::<Seq<char>>));
            let all = slice_to_vec(chars.as_slice(), 0, chars.len());
            assert(all@ =~= chars@);
            (all, None)
        },
    }
}

fn resolve(value: i32, size: i64) -> (r: i64)
    requires
        i32::MIN <= size <= i32::MAX,
    ensures
        r == resolve_spec(value, size as i32),
{
    if value < 0 {
        size + value as i64
    } else {
        value as i64
    }
}

/// A list of field selections; a field is selected when any of them selects it.
#[derive(Debug, Clone)]
pub struct FieldSelector(pub Vec<FieldSelect>);

/// What `FieldSelector::from_str` gives: each comma separated part, trimmed, as a
/// `FieldSelect`; `Err` when some part is not one.
pub open spec fn field_selector_spec(s: Seq<char>) -> Result<Seq<FieldSelect>, ()> {
    selects_spec(split_on(s, ','))
}

/// Each part, trimmed, as a `FieldSelect`; `Err` when some part is not one.
pub open spec fn selects_spec(parts: Seq<Seq<char>>) -> Result<Seq<FieldSelect>, ()> {
    if forall|i: int| 0 <= i < parts.len() ==> (#[trigger] field_select_spec(trim_spec(parts[i]))) is Ok {
        Ok(Seq::new(parts.len(), |i: int| field_select_spec(trim_spec(parts[i]))->Ok_0))
    } else {
        Err(())
    }
}

/// Whether any of the selections selects the field at `index` among `size` fields.
pub open spec fn selects(sel: Seq<FieldSelect>, index: usize, size: usize) -> bool {
    exists|i: int| 0 <= i < sel.len() && (#[trigger] sel[i]).matches_spec(index, size)
}

/// Indices below `size` that the selections select, in increasing order.
pub open spec fn selected_indices(sel: Seq<FieldSelect>, size: usize) -> Seq<usize> {
    Seq::new(size as nat, |i: int| i as usize).filter(|x: usize| selects(sel, x, size))
}

impl FieldSelector {
    pub open spec fn matches_spec(&self, index: usize, size: usize) -> bool {
        selects(self.0@, index, size)
    }

    pub fn matches(&self, index: usize, size: usize) -> (r: bool)
        ensures
            r == self.matches_spec(index, size),
    {
        let mut i: usize = 0;
        while i < self.0.len()
            invariant
                0 <= i <= self.0@.len(),
                forall|k: int| 0 <= k < i ==> !(#[trigger] self.0@[k]).matches_spec(index, size),
            decreases self.0@.len() - i,
        {
            if self.0[i].matches(index, size) {
                return true;
            }
            i = i + 1;
        }
        false
    }

    /// Indices below `size` that are selected, in increasing order.
    pub fn matches_iter(&self, size: usize) -> (r: Vec<usize>)
        ensures
            r@ == selected_indices(self.0@, size),
            forall|k: int| 0 <= k < r@.len() ==> (#[trigger] r@[k]) < size && self.matches_spec(r@[k], size),
            forall|k: int, l: int| 0 <= k < l < r@.len() ==> r@[k] < r@[l],
            forall|x: usize| x < size && self.matches_spec(x, size) ==> #[trigger] r@.contains(x),
    {
        let mut r: Vec<usize> = Vec::new();
        let mut index: usize = 0;
        while index < size
            invariant
                0 <= index <= size,
                forall|k: int| 0 <= k < r@.len() ==> (#[trigger] r@[k]) < index && self.matches_spec(r@[k], size),
                forall|k: int, l: int| 0 <= k < l < r@.len() ==> r@[k] < r@[l],
                forall|x: usize| x < index && self.matches_spec(x, size) ==> #[trigger] r@.contains(x),
                r@ == Seq::new(index as nat, |i: int| i as usize).filter(|x: usize| selects(self.0@, x, size)),
            decreases size - index,
        {
            let ghost old_r = r@;
            let ghost pred = |x: usize| selects(self.0@, x, size);
            proof {
                let prev = Seq::new(index as nat, |i: int| i as usize);
                assert(Seq::new((index + 1) as nat, |i: int| i as usize) =~= prev.push(index));
                prev.lemma_filter_push(index, pred);
            }
            if self.matches(index, size) {
                r.push(index);
                assert(r@[r@.len() - 1] == index);
            }
            index = index + 1;
            assert forall|x: usize| x < index && self.matches_spec(x, size) implies #[trigger] r@.contains(x) by {
                if x == index - 1 {
                    assert(r@[r@.len() - 1] == x);
                } else {
                    assert(old_r.contains(x));
                    let j = choose|j: int| 0 <= j < old_r.len() && old_r[j] == x;
                    assert(r@[j] == x);
                }
            }
        }
        r
    }

    /// Parse comma separated field selections.
    pub fn from_str(string: &str) -> (r: Result<FieldSelector, SelectorError>)
        ensures
            r is Ok <==> field_selector_spec(string@) is Ok,
            r matches Ok(sel) ==> field_selector_spec(string@) == Ok::<Seq<FieldSelect>, ()>(sel.0@),
            r matches Err(e) ==> e.text@ == field_select_error(
                trim_spec(split_on(string@, ',')[first_bad_part(split_on(string@, ','))]),
            ),
    {
        let chars = chars_of(string);
        let parts = split_by(chars.as_slice(), ',');
        let ghost ps = split_on(string@, ',');
        let mut selector: Vec<FieldSelect> = Vec::new();
        let mut i: usize = 0;
        while i < parts.len()
            invariant
                parts.deep_view() == ps,
                ps == split_on(string@, ','),
                0 <= i <= ps.len(),
                selector@.len() == i,
                forall|k: int| 0 <= k < i ==> (#[trigger] field_select_spec(trim_spec(ps[k]))) == Ok::<FieldSelect, ()>(selector@[k]),
            decreases ps.len() - i,
        {
            let t = trim(parts[i].as_slice());
            assert(parts@[i as int]@ == ps[i as int]);
            match FieldSelect::from_chars(&t) {
                Ok(s) => selector.push(s),
                Err(e) => {
                    assert(!(field_select_spec(trim_spec(ps[i as int])) is Ok));
                    proof {
                        let b = first_bad_part(ps);
                        assert(0 <= i < ps.len() && !(field_select_spec(trim_spec(ps[i as int])) is Ok)
                            && forall|j: int| 0 <= j < i ==> (#[trigger] field_select_spec(trim_spec(ps[j]))) is Ok);
                        if b < i {
                            assert(field_select_spec(trim_spec(ps[b])) is Ok);
                        }
                        if b > i {
                            assert(field_select_spec(trim_spec(ps[i as int])) is Ok);
                        }
                        assert(b == i);
                    }
                    assert(selects_spec(ps) is Err);
                    assert(ps == split_on(string@, ','));
                    assert(field_selector_spec(string@) is Err);
                    return Err(e);
                },
            }
            i = i + 1;
        }
        assert(Seq::new(ps.len(), |k: int| field_select_spec(trim_spec(ps[k]))->Ok_0) =~= selector@);
        Ok(FieldSelector(selector))
    }
}

/// A plain string as an item to search: its characters are kept alongside.
#[derive(Debug, Clone)]
pub struct StringHaystack {
    string: String,
    chars: Vec<char>,
}

impl StringHaystack {
    pub closed spec fn view_text(&self) -> Seq<char> {
        self.string@
    }

    pub closed spec fn wf(&self) -> bool {
        self.chars@ == self.string@
    }

    pub fn new(string: &str) -> (r: Self)
        ensures
            r.view_text() == string@,
            r.wf(),
    {
        StringHaystack { string: string.to_owned(), chars: chars_of(string) }
    }

    /// The text.
    pub fn as_str(&self) -> (r: &str)
        ensures
            r@ == self.view_text(),
    {
        self.string.as_str()
    }

    /// The characters searched.
    pub fn chars(&self) -> (r: &[char])
        requires
            self.wf(),
        ensures
            r@ == self.view_text(),
    {
        self.chars.as_slice()
    }

    /// Its one field: the whole text, active.
    pub fn fields(&self) -> (r: Vec<Field>)
        ensures
            r@.len() == 1,
            r@[0].text@ == self.view_text(),
            r@[0].active,
            !r@[0].has_glyph,
            r@[0].field_ref is None,
    {
        let mut r: Vec<Field> = Vec::new();
        r.push(Field::text(self.string.clone()));
        r
    }
}

} // verus!
