//! Candidates read from and written as JSON: a string, or an object with lists of fields
//! (`target`, `right`, `preview`), the space reserved on the right, and members of other
//! names that travel with the candidate.
use vstd::prelude::*;
use crate::candidate::{Candidate, Field, fields_haystack, fields_haystack_spec, field_view};
use crate::field_json::{FieldError, FieldExtras, FieldForm, field_form, field_of_form, encodes_field};
use crate::json::{JsonNumber, JsonValue};
use crate::text::text_is;

verus! {

/// The fields of a list read in order; the first field that fails stops the reading.
pub open spec fn forms_fold(items: Seq<JsonValue>) -> Result<Seq<FieldForm>, FieldError>
    decreases items.len(),
{
    if items.len() == 0 {
        Ok(Seq::empty())
    } else {
        match forms_fold(items.drop_last()) {
            Ok(forms) => match field_form(items.last()) {
                Ok(f) => Ok(forms.push(f)),
                Err(e) => Err(e),
            },
            Err(e) => Err(e),
        }
    }
}

/// `fs` with `xs` are the fields that `forms` stand for, one for one.
pub open spec fn fields_of_forms(fs: Seq<Field>, xs: Seq<FieldExtras>, forms: Seq<FieldForm>) -> bool {
    &&& fs.len() == forms.len()
    &&& xs.len() == forms.len()
    &&& forall|i: int| 0 <= i < forms.len() ==> #[trigger] field_of_form(fs[i], xs[i], forms[i])
}

proof fn lemma_forms_fold_stops(s: Seq<JsonValue>, i: int, e: FieldError)
    requires
        0 <= i <= s.len(),
        forms_fold(s.take(i)) == Err::<Seq<FieldForm>, FieldError>(e),
    ensures
        forms_fold(s) == Err::<Seq<FieldForm>, FieldError>(e),
    decreases s.len() - i,
{
    if i < s.len() {
        assert(s.take(i + 1).drop_last() =~= s.take(i));
        lemma_forms_fold_stops(s, i + 1, e);
    } else {
        assert(s.take(i) =~= s);
    }
}

/// Reads the fields of a list.
pub fn fields_from_items(items: Vec<JsonValue>) -> (r: Result<(Vec<Field>, Vec<FieldExtras>), FieldError>)
    ensures
        match forms_fold(items@) {
            Ok(forms) => r matches Ok(p) && fields_of_forms(p.0@, p.1@, forms),
            Err(e) => r == Err::<(Vec<Field>, Vec<FieldExtras>), FieldError>(e),
        },
{
    let ghost all = items@;
    let ghost mut i: int = 0;
    let mut rest = items;
    let mut fields: Vec<Field> = Vec::new();
    let mut extras: Vec<FieldExtras> = Vec::new();
    proof {
        assert(all.take(0) =~= Seq::<JsonValue>::empty());
    }
    while rest.len() > 0
        invariant
            0 <= i <= all.len(),
            rest@ == all.skip(i),
            all == items@,
            forms_fold(all.take(i)) is Ok,
            fields_of_forms(fields@, extras@, forms_fold(all.take(i))->Ok_0),
        decreases rest@.len(),
    {
        let item = rest.remove(0);
        proof {
            assert(all.take(i + 1).drop_last() =~= all.take(i));
            assert(all.skip(i)[0] == all[i]);
            assert(all.skip(i + 1) =~= all.skip(i).remove(0));
        }
        match Field::from_json(item) {
            Ok((f, x)) => {
                let ghost before = forms_fold(all.take(i))->Ok_0;
                let ghost form = field_form(all[i])->Ok_0;
                fields.push(f);
                extras.push(x);
                proof {
                    let after = forms_fold(all.take(i + 1))->Ok_0;
                    assert(after == before.push(form));
                    assert forall|j: int| 0 <= j < after.len() implies #[trigger] field_of_form(
                        fields@[j],
                        extras@[j],
                        after[j],
                    ) by {
                        if j < before.len() {
                            assert(field_of_form(fields@[j], extras@[j], before[j]));
                        }
                    }
                }
            },
            Err(e) => {
                proof {
                    lemma_forms_fold_stops(all, i + 1, e);
                }
                return Err(e);
            },
        }
        proof {
            i = i + 1;
        }
    }
    proof {
        assert(all.take(i) =~= all);
    }
    Ok((fields, extras))
}

/// The members of a candidate object that the candidate reads.
#[derive(Debug, Clone, Copy, PartialEq, Eq)]
pub enum CandidateMember {
    /// `target`, or its older names `entry` and `fields`.
    Target,
    Right,
    /// `right_offset`, or its older name `offset`.
    RightOffset,
    RightFace,
    Preview,
    PreviewFlex,
}

/// Why a JSON value is not a candidate.
#[derive(Debug, Clone, Copy, PartialEq, Eq)]
pub enum CandidateError {
    /// Neither a string nor an object.
    NotACandidate,
    /// An object without target fields.
    MissingTarget,
    /// A member of the wrong shape.
    InvalidMember(CandidateMember),
    /// A field of a list that is not a field.
    InvalidField(FieldError),
}

/// What a candidate object holds that the candidate does not keep: the members of each of
/// its fields that the terminal library reads, the face of the right fields, the preview
/// flex value, and the members of other names, in order.
#[derive(Debug, PartialEq, Eq)]
pub struct CandidateExtras {
    pub target: Vec<FieldExtras>,
    pub right: Vec<FieldExtras>,
    pub preview: Vec<FieldExtras>,
    pub right_face: Option<JsonValue>,
    pub preview_flex: Option<JsonValue>,
    pub extra: Vec<(String, JsonValue)>,
}

/// The member that a key names.
pub open spec fn member_of(k: Seq<char>) -> Option<CandidateMember> {
    if k == "entry"@ || k == "fields"@ || k == "target"@ {
        Some(CandidateMember::Target)
    } else if k == "right"@ {
        Some(CandidateMember::Right)
    } else if k == "right_offset"@ || k == "offset"@ {
        Some(CandidateMember::RightOffset)
    } else if k == "right_face"@ {
        Some(CandidateMember::RightFace)
    } else if k == "preview"@ {
        Some(CandidateMember::Preview)
    } else if k == "preview_flex"@ {
        Some(CandidateMember::PreviewFlex)
    } else {
        None
    }
}

/// The space reserved on the right that a value holds: an integer in the range of `usize`.
pub open spec fn offset_from_json(v: JsonValue) -> Option<usize> {
    match v {
        JsonValue::Number(JsonNumber::PosInt(u)) => if u <= usize::MAX {
            Some(u as usize)
        } else {
            None
        },
        JsonValue::Number(JsonNumber::NegInt(i)) => if 0 <= i <= usize::MAX {
            Some(i as usize)
        } else {
            None
        },
        _ => None,
    }
}

/// The fields that a list member holds: a list of fields, or null for none.
pub open spec fn list_forms(v: JsonValue, m: CandidateMember) -> Result<Seq<FieldForm>, CandidateError> {
    match v {
        JsonValue::Array(items) => match forms_fold(items@) {
            Ok(forms) => Ok(forms),
            Err(e) => Err(CandidateError::InvalidField(e)),
        },
        JsonValue::Null => Ok(Seq::empty()),
        _ => Err(CandidateError::InvalidMember(m)),
    }
}

/// What is wrong with one member of a candidate object, if anything.
pub open spec fn entry_error(e: (String, JsonValue)) -> Option<CandidateError> {
    match member_of(e.0@) {
        Some(CandidateMember::RightOffset) => if offset_from_json(e.1) is Some {
            None
        } else {
            Some(CandidateError::InvalidMember(CandidateMember::RightOffset))
        },
        Some(CandidateMember::RightFace) => None,
        Some(CandidateMember::PreviewFlex) => if e.1 is Number {
            None
        } else {
            Some(CandidateError::InvalidMember(CandidateMember::PreviewFlex))
        },
        Some(m) => match list_forms(e.1, m) {
            Ok(_) => None,
            Err(err) => Some(err),
        },
        None => None,
    }
}

/// The first member of a candidate object, in order, that is wrong.
pub open spec fn first_error(s: Seq<(String, JsonValue)>) -> Option<CandidateError>
    decreases s.len(),
{
    if s.len() == 0 {
        None
    } else {
        match first_error(s.drop_last()) {
            Some(e) => Some(e),
            None => entry_error(s.last()),
        }
    }
}

/// The value of the last member of `s` that names `m`.
pub open spec fn last_member(s: Seq<(String, JsonValue)>, m: CandidateMember) -> Option<JsonValue>
    decreases s.len(),
{
    if s.len() == 0 {
        None
    } else if member_of(s.last().0@) == Some(m) {
        Some(s.last().1)
    } else {
        last_member(s.drop_last(), m)
    }
}

/// The members of `s` whose names the candidate does not read, in order.
pub open spec fn other_members(s: Seq<(String, JsonValue)>) -> Seq<(String, JsonValue)>
    decreases s.len(),
{
    if s.len() == 0 {
        s
    } else if member_of(s.last().0@) is Some {
        other_members(s.drop_last())
    } else {
        other_members(s.drop_last()).push(s.last())
    }
}

/// What is wrong with a value as a candidate: it is neither a string nor an object, a
/// member is wrong (the first one in order), or there is no target.
pub open spec fn candidate_error(v: JsonValue) -> Option<CandidateError> {
    match v {
        JsonValue::String(_) => None,
        JsonValue::Object(entries) => match first_error(entries@) {
            Some(e) => Some(e),
            None => if last_member(entries@, CandidateMember::Target) is None {
                Some(CandidateError::MissingTarget)
            } else {
                None
            },
        },
        _ => Some(CandidateError::NotACandidate),
    }
}

/// The fields of a list member given or not: none where it is not given.
pub open spec fn member_forms(v: Option<JsonValue>, m: CandidateMember) -> Seq<FieldForm> {
    match v {
        Some(x) => list_forms(x, m)->Ok_0,
        None => Seq::empty(),
    }
}

/// `c` with `x` is the candidate that `v` holds (where it holds one): a string is a
/// candidate of one active text field; an object gives each member its last value.
pub open spec fn candidate_of_json(c: Candidate, x: CandidateExtras, v: JsonValue) -> bool {
    match v {
        JsonValue::String(s) => {
            &&& c.target_view().len() == 1
            &&& c.target_view()[0].text@ == s@
            &&& c.target_view()[0].active
            &&& !c.target_view()[0].has_glyph
            &&& c.target_view()[0].field_ref is None
            &&& c.right_view().len() == 0
            &&& c.preview_view().len() == 0
            &&& c.right_offset_view() == 0
            &&& x.target@ == seq![FieldExtras { glyph: None, face: None, view: None }]
            &&& x.right@.len() == 0
            &&& x.preview@.len() == 0
            &&& x.right_face is None
            &&& x.preview_flex is None
            &&& x.extra@.len() == 0
        },
        JsonValue::Object(entries) => {
            let s = entries@;
            &&& fields_of_forms(
                c.target_view(),
                x.target@,
                member_forms(last_member(s, CandidateMember::Target), CandidateMember::Target),
            )
            &&& fields_of_forms(
                c.right_view(),
                x.right@,
                member_forms(last_member(s, CandidateMember::Right), CandidateMember::Right),
            )
            &&& fields_of_forms(
                c.preview_view(),
                x.preview@,
                member_forms(last_member(s, CandidateMember::Preview), CandidateMember::Preview),
            )
            &&& c.right_offset_view() == match last_member(s, CandidateMember::RightOffset) {
                Some(o) => offset_from_json(o)->Some_0,
                None => 0,
            }
            &&& x.right_face == last_member(s, CandidateMember::RightFace)
            &&& x.preview_flex == last_member(s, CandidateMember::PreviewFlex)
            &&& x.extra@ == other_members(s)
        },
        _ => false,
    }
}

fn member_of_exec(k: &str) -> (r: Option<CandidateMember>)
    ensures
        r == member_of(k@),
{
    if text_is(k, "entry") || text_is(k, "fields") || text_is(k, "target") {
        Some(CandidateMember::Target)
    } else if text_is(k, "right") {
        Some(CandidateMember::Right)
    } else if text_is(k, "right_offset") || text_is(k, "offset") {
        Some(CandidateMember::RightOffset)
    } else if text_is(k, "right_face") {
        Some(CandidateMember::RightFace)
    } else if text_is(k, "preview") {
        Some(CandidateMember::Preview)
    } else if text_is(k, "preview_flex") {
        Some(CandidateMember::PreviewFlex)
    } else {
        None
    }
}

fn offset_of(v: &JsonValue) -> (r: Option<usize>)
    ensures
        r == offset_from_json(*v),
{
    match v {
        JsonValue::Number(JsonNumber::PosInt(u)) => if *u <= usize::MAX as u64 {
            Some(*u as usize)
        } else {
            None
        },
        JsonValue::Number(JsonNumber::NegInt(i)) => if 0 <= *i && *i as u64 <= usize::MAX as u64 {
            Some(*i as usize)
        } else {
            None
        },
        _ => None,
    }
}

/// Reads the fields of a list member.
fn field_list(v: JsonValue, m: CandidateMember) -> (r: Result<(Vec<Field>, Vec<FieldExtras>), CandidateError>)
    ensures
        match list_forms(v, m) {
            Ok(forms) => r matches Ok(p) && fields_of_forms(p.0@, p.1@, forms),
            Err(e) => r == Err::<(Vec<Field>, Vec<FieldExtras>), CandidateError>(e),
        },
{
    match v {
        JsonValue::Array(items) => match fields_from_items(items) {
            Ok(p) => Ok(p),
            Err(e) => Err(CandidateError::InvalidField(e)),
        },
        JsonValue::Null => {
            let r = (Vec::new(), Vec::new());
            assert(fields_of_forms(r.0@, r.1@, Seq::<FieldForm>::empty()));
            Ok(r)
        },
        _ => Err(CandidateError::InvalidMember(m)),
    }
}

proof fn lemma_first_error_stops(s: Seq<(String, JsonValue)>, i: int, e: CandidateError)
    requires
        0 <= i <= s.len(),
        first_error(s.take(i)) == Some(e),
    ensures
        first_error(s) == Some(e),
    decreases s.len() - i,
{
    if i < s.len() {
        assert(s.take(i + 1).drop_last() =~= s.take(i));
        lemma_first_error_stops(s, i + 1, e);
    } else {
        assert(s.take(i) =~= s);
    }
}

/// A list member's fields read so far: their forms are those of the last value given.
pub open spec fn list_state(
    st: Option<(Vec<Field>, Vec<FieldExtras>)>,
    v: Option<JsonValue>,
    m: CandidateMember,
) -> bool {
    match v {
        Some(x) => st matches Some(p) && list_forms(x, m) is Ok && fields_of_forms(
            p.0@,
            p.1@,
            list_forms(x, m)->Ok_0,
        ),
        None => st is None,
    }
}

fn take_list(st: Option<(Vec<Field>, Vec<FieldExtras>)>) -> (r: (Vec<Field>, Vec<FieldExtras>))
    ensures
        match st {
            Some(p) => r == p,
            None => r.0@.len() == 0 && r.1@.len() == 0,
        },
{
    match st {
        Some(p) => p,
        None => (Vec::new(), Vec::new()),
    }
}

impl Candidate {
    /// The candidate that a JSON value holds, with what the candidate does not keep.
    pub fn from_json(v: JsonValue) -> (r: Result<(Candidate, CandidateExtras), CandidateError>)
        ensures
            match candidate_error(v) {
                None => r matches Ok(p) && candidate_of_json(p.0, p.1, v),
                Some(e) => r == Err::<(Candidate, CandidateExtras), CandidateError>(e),
            },
    {
        let entries = match v {
            JsonValue::String(s) => {
                let mut target: Vec<Field> = Vec::new();
                target.push(Field::text(s));
                let mut extras: Vec<FieldExtras> = Vec::new();
                extras.push(FieldExtras { glyph: None, face: None, view: None });
                proof {
                    reveal_with_fuel(fields_haystack_spec, 2);
                    assert(target@.drop_last() =~= Seq::<Field>::empty());
                    assert(extras@ =~= seq![FieldExtras { glyph: None, face: None, view: None }]);
                }
                let haystack = fields_haystack(target.as_slice());
                let _total: usize = haystack.len();
                let c = Candidate::new(target, Vec::new(), 0, Vec::new());
                let x = CandidateExtras {
                    target: extras,
                    right: Vec::new(),
                    preview: Vec::new(),
                    right_face: None,
                    preview_flex: None,
                    extra: Vec::new(),
                };
                return Ok((c, x));
            },
            JsonValue::Object(entries) => entries,
            _ => {
                return Err(CandidateError::NotACandidate);
            },
        };
        let ghost all = entries@;
        let ghost mut i: int = 0;
        let mut rest = entries;
        let mut target: Option<(Vec<Field>, Vec<FieldExtras>)> = None;
        let mut right: Option<(Vec<Field>, Vec<FieldExtras>)> = None;
        let mut preview: Option<(Vec<Field>, Vec<FieldExtras>)> = None;
        let mut offset: Option<usize> = None;
        let mut right_face: Option<JsonValue> = None;
        let mut preview_flex: Option<JsonValue> = None;
        let mut extra: Vec<(String, JsonValue)> = Vec::new();
        proof {
            assert(all.take(0) =~= Seq::<(String, JsonValue)>::empty());
        }
        while rest.len() > 0
            invariant
                0 <= i <= all.len(),
                rest@ == all.skip(i),
                v matches JsonValue::Object(es) && es@ == all,
                first_error(all.take(i)) is None,
                list_state(target, last_member(all.take(i), CandidateMember::Target), CandidateMember::Target),
                list_state(right, last_member(all.take(i), CandidateMember::Right), CandidateMember::Right),
                list_state(preview, last_member(all.take(i), CandidateMember::Preview), CandidateMember::Preview),
                match last_member(all.take(i), CandidateMember::RightOffset) {
                    Some(o) => offset_from_json(o) is Some && offset == offset_from_json(o),
                    None => offset is None,
                },
                right_face == last_member(all.take(i), CandidateMember::RightFace),
                preview_flex == last_member(all.take(i), CandidateMember::PreviewFlex),
                extra@ == other_members(all.take(i)),
            decreases rest@.len(),
        {
            let entry = rest.remove(0);
            proof {
                assert(all.take(i + 1).drop_last() =~= all.take(i));
                assert(all.skip(i)[0] == all[i]);
                assert(all.skip(i + 1) =~= all.skip(i).remove(0));
            }
            let (k, val) = entry;
            match member_of_exec(k.as_str()) {
                Some(CandidateMember::RightOffset) => match offset_of(&val) {
                    Some(o) => {
                        offset = Some(o);
                    },
                    None => {
                        proof {
                            lemma_first_error_stops(all, i + 1, CandidateError::InvalidMember(CandidateMember::RightOffset));
                        }
                        return Err(CandidateError::InvalidMember(CandidateMember::RightOffset));
                    },
                },
                Some(CandidateMember::RightFace) => {
                    right_face = Some(val);
                },
                Some(CandidateMember::PreviewFlex) => {
                    if matches!(val, JsonValue::Number(_)) {
                        preview_flex = Some(val);
                    } else {
                        proof {
                            lemma_first_error_stops(all, i + 1, CandidateError::InvalidMember(CandidateMember::PreviewFlex));
                        }
                        return Err(CandidateError::InvalidMember(CandidateMember::PreviewFlex));
                    }
                },
                Some(m) => match field_list(val, m) {
                    Ok(p) => {
                        match m {
                            CandidateMember::Target => {
                                target = Some(p);
                            },
                            CandidateMember::Right => {
                                right = Some(p);
                            },
                            _ => {
                                preview = Some(p);
                            },
                        }
                    },
                    Err(e) => {
                        proof {
                            lemma_first_error_stops(all, i + 1, e);
                        }
                        return Err(e);
                    },
                },
                None => {
                    extra.push((k, val));
                },
            }
            proof {
                i = i + 1;
            }
        }
        proof {
            assert(all.take(i) =~= all);
        }
        if target.is_none() {
            return Err(CandidateError::MissingTarget);
        }
        let (t_fields, t_extras) = take_list(target);
        let (r_fields, r_extras) = take_list(right);
        let (p_fields, p_extras) = take_list(preview);
        let mut haystack = fields_haystack(t_fields.as_slice());
        let mut right_haystack = fields_haystack(r_fields.as_slice());
        haystack.append(&mut right_haystack);
        let _total: usize = haystack.len();
        let right_offset = match offset {
            Some(o) => o,
            None => 0,
        };
        let c = Candidate::new(t_fields, r_fields, right_offset, p_fields);
        let x = CandidateExtras {
            target: t_extras,
            right: r_extras,
            preview: p_extras,
            right_face,
            preview_flex,
            extra,
        };
        Ok((c, x))
    }
}

// ---------------------------------------------------------------------------------------
// Writing
// ---------------------------------------------------------------------------------------
/// `items` are the objects that fields `fs` with `xs` are written as, one for one.
pub open spec fn encodes_fields(items: Seq<JsonValue>, fs: Seq<Field>, xs: Seq<FieldExtras>) -> bool {
    &&& items.len() == fs.len()
    &&& items.len() == xs.len()
    &&& forall|i: int| 0 <= i < items.len() ==> #[trigger] encodes_field(items[i], fs[i], xs[i])
}

/// The entry `e` is the list member `k` holding the fields `fs` with `xs`.
pub open spec fn is_list_member(e: (String, JsonValue), k: Seq<char>, fs: Seq<Field>, xs: Seq<FieldExtras>) -> bool {
    &&& e.0@ == k
    &&& (e.1 matches JsonValue::Array(items) && encodes_fields(items@, fs, xs))
}

/// Whether a candidate is written as the text of its one field: it has no other members,
/// one active target field, and no right or preview fields.
pub open spec fn written_as_text(c: Candidate, x: CandidateExtras) -> bool {
    &&& x.extra@.len() == 0
    &&& c.target_view().len() == 1
    &&& c.target_view()[0].active
    &&& c.right_view().len() == 0
    &&& c.preview_view().len() == 0
}

/// `v` is what candidate `c` with `x` is written as: the text of its one field, or an
/// object of its other members followed by its target, right fields, right offset, right
/// face, preview fields and preview flex, each where it is not empty.
pub open spec fn encodes_candidate(v: JsonValue, c: Candidate, x: CandidateExtras) -> bool {
    if written_as_text(c, x) {
        v == JsonValue::String(c.target_view()[0].text)
    } else {
        v matches JsonValue::Object(entries) && {
            let s = entries@;
            let n: int = x.extra@.len() as int;
            let t: int = if c.target_view().len() > 0 {
                1
            } else {
                0
            };
            let r: int = if c.right_view().len() > 0 {
                1
            } else {
                0
            };
            let o: int = if c.right_offset_view() != 0 {
                1
            } else {
                0
            };
            let f: int = if x.right_face is Some {
                1
            } else {
                0
            };
            let p: int = if c.preview_view().len() > 0 {
                1
            } else {
                0
            };
            let q: int = if x.preview_flex is Some {
                1
            } else {
                0
            };
            &&& s.len() == n + t + r + o + f + p + q
            &&& s.subrange(0, n) == x.extra@
            &&& t == 1 ==> is_list_member(s[n], "target"@, c.target_view(), x.target@)
            &&& r == 1 ==> is_list_member(s[n + t], "right"@, c.right_view(), x.right@)
            &&& o == 1 ==> s[n + t + r].0@ == "right_offset"@ && s[n + t + r].1
                == JsonValue::Number(JsonNumber::PosInt(c.right_offset_view() as u64))
            &&& (x.right_face matches Some(face) ==> s[n + t + r + o].0@ == "right_face"@ && s[n
                + t + r + o].1 == face)
            &&& p == 1 ==> is_list_member(s[n + t + r + o + f], "preview"@, c.preview_view(), x.preview@)
            &&& (x.preview_flex matches Some(flex) ==> s[n + t + r + o + f + p].0@ == "preview_flex"@
                && s[n + t + r + o + f + p].1 == flex)
        }
    }
}

/// The objects that fields with their extras are written as.
fn fields_into_json(fields: Vec<Field>, extras: Vec<FieldExtras>) -> (r: Vec<JsonValue>)
    requires
        fields@.len() == extras@.len(),
    ensures
        encodes_fields(r@, fields@, extras@),
{
    let ghost fs = fields@;
    let ghost xs = extras@;
    let ghost mut i: int = 0;
    let mut fields = fields;
    let mut extras = extras;
    let mut r: Vec<JsonValue> = Vec::new();
    while fields.len() > 0
        invariant
            0 <= i <= fs.len(),
            fs.len() == xs.len(),
            fields@ == fs.skip(i),
            extras@ == xs.skip(i),
            encodes_fields(r@, fs.take(i), xs.take(i)),
        decreases fields@.len(),
    {
        let f = fields.remove(0);
        let x = extras.remove(0);
        proof {
            assert(fs.skip(i)[0] == fs[i]);
            assert(xs.skip(i)[0] == xs[i]);
            assert(fs.skip(i + 1) =~= fs.skip(i).remove(0));
            assert(xs.skip(i + 1) =~= xs.skip(i).remove(0));
        }
        let item = f.into_json(x);
        r.push(item);
        proof {
            assert forall|j: int| 0 <= j < r@.len() implies #[trigger] encodes_field(
                r@[j],
                fs.take(i + 1)[j],
                xs.take(i + 1)[j],
            ) by {
                if j < i {
                    assert(encodes_field(r@[j], fs.take(i)[j], xs.take(i)[j]));
                }
            }
            i = i + 1;
        }
    }
    proof {
        assert(fs.take(i) =~= fs);
        assert(xs.take(i) =~= xs);
    }
    r
}

impl Candidate {
    /// What the candidate, with what it does not keep, is written as.
    pub fn into_json(self, x: CandidateExtras) -> (r: JsonValue)
        requires
            x.target@.len() == self.target_view().len(),
            x.right@.len() == self.right_view().len(),
            x.preview@.len() == self.preview_view().len(),
        ensures
            encodes_candidate(r, self, x),
    {
        let (mut target, right, right_offset, preview) = self.into_parts();
        if x.extra.len() == 0 && target.len() == 1 && target[0].active && right.len() == 0
            && preview.len() == 0 {
            let first = target.remove(0);
            return JsonValue::String(first.text);
        }
        let CandidateExtras {
            target: t_extras,
            right: r_extras,
            preview: p_extras,
            right_face,
            preview_flex,
            extra,
        } = x;
        let mut entries = extra;
        let ghost n = entries@.len();
        proof {
            assert(entries@.subrange(0, n as int) =~= x.extra@);
        }
        if target.len() > 0 {
            let items = fields_into_json(target, t_extras);
            entries.push(("target".to_owned(), JsonValue::Array(items)));
            proof {
                assert(entries@.subrange(0, n as int) =~= x.extra@);
            }
        }
        let ghost after_target = entries@;
        if right.len() > 0 {
            let items = fields_into_json(right, r_extras);
            entries.push(("right".to_owned(), JsonValue::Array(items)));
            proof {
                assert(entries@.subrange(0, n as int) =~= x.extra@);
            }
        }
        let ghost after_right = entries@;
        if right_offset != 0 {
            entries.push(
                ("right_offset".to_owned(), JsonValue::Number(JsonNumber::PosInt(right_offset as u64))),
            );
            proof {
                assert(entries@.subrange(0, n as int) =~= x.extra@);
            }
        }
        let ghost after_offset = entries@;
        match right_face {
            Some(face) => {
                entries.push(("right_face".to_owned(), face));
                proof {
                    assert(entries@.subrange(0, n as int) =~= x.extra@);
                }
            },
            None => {},
        }
        let ghost after_face = entries@;
        if preview.len() > 0 {
            let items = fields_into_json(preview, p_extras);
            entries.push(("preview".to_owned(), JsonValue::Array(items)));
            proof {
                assert(entries@.subrange(0, n as int) =~= x.extra@);
            }
        }
        let ghost after_preview = entries@;
        match preview_flex {
            Some(flex) => {
                entries.push(("preview_flex".to_owned(), flex));
                proof {
                    assert(entries@.subrange(0, n as int) =~= x.extra@);
                }
            },
            None => {},
        }
        proof {
            let s = entries@;
            assert(after_target.len() <= after_right.len() <= after_offset.len() <= after_face.len()
                <= after_preview.len() <= s.len());
            assert(forall|j: int| 0 <= j < after_target.len() ==> s[j] == after_target[j]);
            assert(forall|j: int| 0 <= j < after_right.len() ==> s[j] == after_right[j]);
            assert(forall|j: int| 0 <= j < after_offset.len() ==> s[j] == after_offset[j]);
            assert(forall|j: int| 0 <= j < after_face.len() ==> s[j] == after_face[j]);
            assert(forall|j: int| 0 <= j < after_preview.len() ==> s[j] == after_preview[j]);
        }
        JsonValue::Object(entries)
    }
}

// ---------------------------------------------------------------------------------------
// Reading back what was written
// ---------------------------------------------------------------------------------------
/// Fields whose glyph flags agree with the glyphs they are written with, and without views.
pub open spec fn extras_agree(fs: Seq<Field>, xs: Seq<FieldExtras>) -> bool {
    &&& fs.len() == xs.len()
    &&& forall|i: int|
        0 <= i < fs.len() ==> (#[trigger] fs[i]).has_glyph == xs[i].glyph is Some && xs[i].view is None
}

/// Two lists of the same fields.
pub open spec fn same_fields(a: Seq<Field>, b: Seq<Field>) -> bool {
    &&& a.len() == b.len()
    &&& forall|i: int| 0 <= i < a.len() ==> field_view(#[trigger] a[i]) == field_view(b[i])
}

/// Two records of the same extras.
pub open spec fn same_extras(a: CandidateExtras, b: CandidateExtras) -> bool {
    &&& a.target@ == b.target@
    &&& a.right@ == b.right@
    &&& a.preview@ == b.preview@
    &&& a.right_face == b.right_face
    &&& a.preview_flex == b.preview_flex
    &&& a.extra@ == b.extra@
}

/// A candidate that reads back as itself once written: its fields agree with their extras,
/// it has target fields, its other members are of names the candidate does not read, its
/// preview flex is a number; and, where it is written as its text, its one field is plain
/// text and it has no right offset, right face or preview flex.
pub open spec fn writes_back(c: Candidate, x: CandidateExtras) -> bool {
    &&& extras_agree(c.target_view(), x.target@)
    &&& extras_agree(c.right_view(), x.right@)
    &&& extras_agree(c.preview_view(), x.preview@)
    &&& c.target_view().len() > 0
    &&& forall|i: int| 0 <= i < x.extra@.len() ==> member_of((#[trigger] x.extra@[i]).0@) is None
    &&& (x.preview_flex matches Some(flex) ==> flex is Number)
    &&& written_as_text(c, x) ==> {
        &&& !c.target_view()[0].has_glyph
        &&& c.target_view()[0].field_ref is None
        &&& x.target@ == seq![FieldExtras { glyph: None, face: None, view: None }]
        &&& c.right_offset_view() == 0
        &&& x.right_face is None
        &&& x.preview_flex is None
    }
}

proof fn lemma_candidate_member_names()
    ensures
        member_of("target"@) == Some(CandidateMember::Target),
        member_of("right"@) == Some(CandidateMember::Right),
        member_of("right_offset"@) == Some(CandidateMember::RightOffset),
        member_of("right_face"@) == Some(CandidateMember::RightFace),
        member_of("preview"@) == Some(CandidateMember::Preview),
        member_of("preview_flex"@) == Some(CandidateMember::PreviewFlex),
{
    reveal_strlit("entry");
    reveal_strlit("fields");
    reveal_strlit("target");
    reveal_strlit("right");
    reveal_strlit("right_offset");
    reveal_strlit("offset");
    reveal_strlit("right_face");
    reveal_strlit("preview");
    reveal_strlit("preview_flex");
    assert("entry"@[0] != "right"@[0]);
    assert("fields"@[0] != "target"@[0]);
    assert("fields"@.len() != "right"@.len());
    assert("target"@.len() != "right"@.len());
    assert("right_offset"@[0] != "preview_flex"@[0]);
    assert("entry"@.len() != "right_offset"@.len());
    assert("fields"@.len() != "right_offset"@.len());
    assert("target"@.len() != "right_offset"@.len());
    assert("right"@.len() != "right_offset"@.len());
    assert("offset"@.len() != "right_face"@.len());
    assert("entry"@.len() != "right_face"@.len());
    assert("right"@.len() != "right_face"@.len());
    assert("fields"@.len() != "right_face"@.len());
    assert("right_offset"@.len() != "right_face"@.len());
    assert("entry"@.len() != "preview"@.len());
    assert("fields"@.len() != "preview"@.len());
    assert("right"@.len() != "preview"@.len());
    assert("offset"@.len() != "preview"@.len());
    assert("right_face"@.len() != "preview"@.len());
    assert("right_offset"@.len() != "preview"@.len());
    assert("preview"@.len() != "preview_flex"@.len());
    assert("right_face"@.len() != "preview_flex"@.len());
    assert("entry"@.len() != "preview_flex"@.len());
    assert("fields"@.len() != "preview_flex"@.len());
    assert("right"@.len() != "preview_flex"@.len());
    assert("offset"@.len() != "preview_flex"@.len());
}

proof fn lemma_unknown_prefix(s: Seq<(String, JsonValue)>, k: int)
    requires
        0 <= k <= s.len(),
        forall|i: int| 0 <= i < k ==> member_of((#[trigger] s[i]).0@) is None,
    ensures
        first_error(s.take(k)) is None,
        forall|m: CandidateMember| last_member(s.take(k), m) is None,
        other_members(s.take(k)) == s.take(k),
    decreases k,
{
    if k > 0 {
        lemma_unknown_prefix(s, k - 1);
        assert(s.take(k).drop_last() =~= s.take(k - 1));
        assert(s.take(k - 1).push(s[k - 1]) =~= s.take(k));
        assert(member_of(s[k - 1].0@) is None);
        assert forall|m: CandidateMember| #[trigger] last_member(s.take(k), m) is None by {
            assert(s.take(k).last() == s[k - 1]);
            assert(last_member(s.take(k - 1), m) is None);
            assert(last_member(s.take(k), m) == last_member(s.take(k).drop_last(), m));
        }
    } else {
        assert(s.take(0) =~= Seq::<(String, JsonValue)>::empty());
    }
}

proof fn lemma_forms_fold_ok(items: Seq<JsonValue>)
    requires
        forall|i: int| 0 <= i < items.len() ==> field_form(#[trigger] items[i]) is Ok,
    ensures
        forms_fold(items) is Ok,
        forms_fold(items)->Ok_0.len() == items.len(),
        forall|i: int|
            0 <= i < items.len() ==> #[trigger] forms_fold(items)->Ok_0[i] == field_form(
                items[i],
            )->Ok_0,
    decreases items.len(),
{
    if items.len() > 0 {
        let d = items.drop_last();
        assert forall|i: int| 0 <= i < d.len() implies field_form(#[trigger] d[i]) is Ok by {
            assert(d[i] == items[i]);
        }
        lemma_forms_fold_ok(d);
        assert(field_form(items[items.len() - 1]) is Ok);
        assert forall|i: int| 0 <= i < items.len() implies #[trigger] forms_fold(items)->Ok_0[i]
            == field_form(items[i])->Ok_0 by {
            if i < items.len() - 1 {
                assert(d[i] == items[i]);
            }
        }
    }
}

/// The fields written as a list read back as the same fields with the same extras.
proof fn lemma_list_roundtrip(items: Seq<JsonValue>, fs: Seq<Field>, xs: Seq<FieldExtras>)
    requires
        encodes_fields(items, fs, xs),
        extras_agree(fs, xs),
    ensures
        forms_fold(items) is Ok,
        forall|f2: Seq<Field>, x2: Seq<FieldExtras>|
            #[trigger] fields_of_forms(f2, x2, forms_fold(items)->Ok_0) ==> same_fields(f2, fs) && x2
                == xs,
{
    assert forall|i: int| 0 <= i < items.len() implies field_form(#[trigger] items[i]) is Ok by {
        crate::field_json::law_field_roundtrip(fs[i], xs[i], items[i]);
    }
    lemma_forms_fold_ok(items);
    let forms = forms_fold(items)->Ok_0;
    assert forall|f2: Seq<Field>, x2: Seq<FieldExtras>|
        #[trigger] fields_of_forms(f2, x2, forms) implies same_fields(f2, fs) && x2 == xs by {
        assert forall|i: int| 0 <= i < f2.len() implies field_view(#[trigger] f2[i]) == field_view(
            fs[i],
        ) by {
            crate::field_json::law_field_roundtrip(fs[i], xs[i], items[i]);
            assert(field_of_form(f2[i], x2[i], forms[i]));
        }
        assert forall|i: int| 0 <= i < x2.len() implies #[trigger] x2[i] == xs[i] by {
            crate::field_json::law_field_roundtrip(fs[i], xs[i], items[i]);
            assert(field_of_form(f2[i], x2[i], forms[i]));
        }
        assert(x2 =~= xs);
    }
}

proof fn lemma_no_errors(s: Seq<(String, JsonValue)>)
    requires
        forall|i: int| 0 <= i < s.len() ==> entry_error(#[trigger] s[i]) is None,
    ensures
        first_error(s) is None,
    decreases s.len(),
{
    if s.len() > 0 {
        let d = s.drop_last();
        assert forall|i: int| 0 <= i < d.len() implies entry_error(#[trigger] d[i]) is None by {
            assert(d[i] == s[i]);
        }
        lemma_no_errors(d);
        assert(entry_error(s[s.len() - 1]) is None);
    }
}

proof fn lemma_member_absent(s: Seq<(String, JsonValue)>, m: CandidateMember)
    requires
        forall|i: int| 0 <= i < s.len() ==> member_of((#[trigger] s[i]).0@) != Some(m),
    ensures
        last_member(s, m) is None,
    decreases s.len(),
{
    if s.len() > 0 {
        let d = s.drop_last();
        assert forall|i: int| 0 <= i < d.len() implies member_of((#[trigger] d[i]).0@) != Some(m) by {
            assert(d[i] == s[i]);
        }
        lemma_member_absent(d, m);
        assert(member_of(s[s.len() - 1].0@) != Some(m));
    }
}

proof fn lemma_member_at(s: Seq<(String, JsonValue)>, m: CandidateMember, p: int)
    requires
        0 <= p < s.len(),
        member_of(s[p].0@) == Some(m),
        forall|i: int| p < i < s.len() ==> member_of((#[trigger] s[i]).0@) != Some(m),
    ensures
        last_member(s, m) == Some(s[p].1),
    decreases s.len(),
{
    if p < s.len() - 1 {
        let d = s.drop_last();
        assert forall|i: int| p < i < d.len() implies member_of((#[trigger] d[i]).0@) != Some(m) by {
            assert(d[i] == s[i]);
        }
        assert(d[p] == s[p]);
        lemma_member_at(d, m, p);
        assert(member_of(s[s.len() - 1].0@) != Some(m));
    }
}

proof fn lemma_others_prefix(s: Seq<(String, JsonValue)>, n: int)
    requires
        0 <= n <= s.len(),
        forall|i: int| 0 <= i < n ==> member_of((#[trigger] s[i]).0@) is None,
        forall|i: int| n <= i < s.len() ==> member_of((#[trigger] s[i]).0@) is Some,
    ensures
        other_members(s) == s.take(n),
    decreases s.len(),
{
    if s.len() > n {
        let d = s.drop_last();
        assert forall|i: int| 0 <= i < n implies member_of((#[trigger] d[i]).0@) is None by {
            assert(d[i] == s[i]);
        }
        assert forall|i: int| n <= i < d.len() implies member_of((#[trigger] d[i]).0@) is Some by {
            assert(d[i] == s[i]);
        }
        lemma_others_prefix(d, n);
        assert(member_of(s[s.len() - 1].0@) is Some);
        assert(d.take(n) =~= s.take(n));
    } else {
        lemma_unknown_prefix(s, n);
        assert(s.take(n) =~= s);
    }
}

/// A candidate written as JSON reads back as the same candidate with the same extras,
/// where it is one that can be (`writes_back`).
pub proof fn law_candidate_roundtrip(c: Candidate, x: CandidateExtras, v: JsonValue)
    requires
        encodes_candidate(v, c, x),
        writes_back(c, x),
    ensures
        candidate_error(v) is None,
        forall|c2: Candidate, x2: CandidateExtras|
            #[trigger] candidate_of_json(c2, x2, v) ==> {
                &&& same_fields(c2.target_view(), c.target_view())
                &&& same_fields(c2.right_view(), c.right_view())
                &&& same_fields(c2.preview_view(), c.preview_view())
                &&& c2.right_offset_view() == c.right_offset_view()
                &&& same_extras(x2, x)
            },
{
    if written_as_text(c, x) {
        assert forall|c2: Candidate, x2: CandidateExtras|
            #[trigger] candidate_of_json(c2, x2, v) implies {
                &&& same_fields(c2.target_view(), c.target_view())
                &&& same_fields(c2.right_view(), c.right_view())
                &&& same_fields(c2.preview_view(), c.preview_view())
                &&& c2.right_offset_view() == c.right_offset_view()
                &&& same_extras(x2, x)
            } by {
            assert(x2.right@ =~= x.right@);
            assert(x2.preview@ =~= x.preview@);
            assert(x2.extra@ =~= x.extra@);
        }
    } else {
        lemma_object_roundtrip(c, x, v);
    }
}

proof fn lemma_object_roundtrip(c: Candidate, x: CandidateExtras, v: JsonValue)
    requires
        encodes_candidate(v, c, x),
        writes_back(c, x),
        !written_as_text(c, x),
    ensures
        candidate_error(v) is None,
        forall|c2: Candidate, x2: CandidateExtras|
            #[trigger] candidate_of_json(c2, x2, v) ==> {
                &&& same_fields(c2.target_view(), c.target_view())
                &&& same_fields(c2.right_view(), c.right_view())
                &&& same_fields(c2.preview_view(), c.preview_view())
                &&& c2.right_offset_view() == c.right_offset_view()
                &&& same_extras(x2, x)
            },
{
    lemma_candidate_member_names();
    let s = v->Object_0@;
    let n = x.extra@.len() as int;
    let t: int = 1;
    let r: int = if c.right_view().len() > 0 {
        1
    } else {
        0
    };
    let o: int = if c.right_offset_view() != 0 {
        1
    } else {
        0
    };
    let f: int = if x.right_face is Some {
        1
    } else {
        0
    };
    let p: int = if c.preview_view().len() > 0 {
        1
    } else {
        0
    };
    let q: int = if x.preview_flex is Some {
        1
    } else {
        0
    };
    assert forall|i: int| 0 <= i < n implies member_of((#[trigger] s[i]).0@) is None by {
        assert(s[i] == s.subrange(0, n)[i]);
    }
    lemma_list_roundtrip(s[n].1->Array_0@, c.target_view(), x.target@);
    if r == 1 {
        lemma_list_roundtrip(s[n + t].1->Array_0@, c.right_view(), x.right@);
    }
    if p == 1 {
        lemma_list_roundtrip(s[n + t + r + o + f].1->Array_0@, c.preview_view(), x.preview@);
    }
    // the member that each entry names
    assert forall|i: int| n <= i < s.len() implies member_of((#[trigger] s[i]).0@) == if i == n {
        Some(CandidateMember::Target)
    } else if r == 1 && i == n + t {
        Some(CandidateMember::Right)
    } else if o == 1 && i == n + t + r {
        Some(CandidateMember::RightOffset)
    } else if f == 1 && i == n + t + r + o {
        Some(CandidateMember::RightFace)
    } else if p == 1 && i == n + t + r + o + f {
        Some(CandidateMember::Preview)
    } else {
        Some(CandidateMember::PreviewFlex)
    } by {}
    assert forall|i: int| 0 <= i < s.len() implies entry_error(#[trigger] s[i]) is None by {
        if i >= n {
            assert(member_of(s[i].0@) is Some);
        }
    }
    lemma_no_errors(s);
    lemma_member_at(s, CandidateMember::Target, n);
    if r == 1 {
        lemma_member_at(s, CandidateMember::Right, n + t);
    } else {
        lemma_member_absent(s, CandidateMember::Right);
    }
    if o == 1 {
        lemma_member_at(s, CandidateMember::RightOffset, n + t + r);
    } else {
        lemma_member_absent(s, CandidateMember::RightOffset);
    }
    if f == 1 {
        lemma_member_at(s, CandidateMember::RightFace, n + t + r + o);
    } else {
        lemma_member_absent(s, CandidateMember::RightFace);
    }
    if p == 1 {
        lemma_member_at(s, CandidateMember::Preview, n + t + r + o + f);
    } else {
        lemma_member_absent(s, CandidateMember::Preview);
    }
    if q == 1 {
        lemma_member_at(s, CandidateMember::PreviewFlex, n + t + r + o + f + p);
    } else {
        lemma_member_absent(s, CandidateMember::PreviewFlex);
    }
    lemma_others_prefix(s, n);
    assert(s.take(n) =~= x.extra@);
    assert forall|c2: Candidate, x2: CandidateExtras|
        #[trigger] candidate_of_json(c2, x2, v) implies {
            &&& same_fields(c2.target_view(), c.target_view())
            &&& same_fields(c2.right_view(), c.right_view())
            &&& same_fields(c2.preview_view(), c.preview_view())
            &&& c2.right_offset_view() == c.right_offset_view()
            &&& same_extras(x2, x)
        } by {
        if r == 0 {
            assert(x2.right@ =~= x.right@);
        }
        if p == 0 {
            assert(x2.preview@ =~= x.preview@);
        }
    }
}

} // verus!
