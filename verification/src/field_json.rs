//! Fields read from and written as JSON: a string, a list `[text, active]`, or an object
//! with `text`, `active`, `glyph`, `face`, `ref` and `view` members.
use vstd::prelude::*;
use crate::candidate::{Field, FieldRef, field_view};
use crate::json::{JsonNumber, JsonValue, json_string, number_of_i64};
use crate::text::text_is;

verus! {

/// The members of a field's object that the terminal library reads: its glyph, face and
/// view, as they were written.
#[derive(Debug, PartialEq, Eq)]
pub struct FieldExtras {
    pub glyph: Option<JsonValue>,
    pub face: Option<JsonValue>,
    pub view: Option<JsonValue>,
}

/// A member of a field's object that holds a value of the wrong shape.
#[derive(Debug, Clone, Copy, PartialEq, Eq)]
pub enum FieldMember {
    Text,
    Active,
    Ref,
}

/// Why a JSON value is not a field.
#[derive(Debug, Clone, Copy, PartialEq, Eq)]
pub enum FieldError {
    /// Neither a string, a list nor an object.
    InvalidType,
    /// A list without a text, or whose first element is not a string.
    MissingText,
    /// A list whose second element is not a boolean, or with more than two elements.
    InvalidList,
    /// An object member of the wrong shape.
    InvalidMember(FieldMember),
}

/// The members of a field's object read so far.
pub struct FieldMembers {
    pub text: Option<String>,
    pub active: Option<bool>,
    pub glyph: Option<JsonValue>,
    pub face: Option<JsonValue>,
    pub field_ref: Option<i64>,
    pub view: Option<JsonValue>,
}

/// The forms a field is written in.
pub enum FieldForm {
    Text(String),
    List(String, Option<bool>),
    Object(FieldMembers),
}

/// The reference that a value holds: an integer in the range of `i64`.
pub open spec fn ref_from_json(v: JsonValue) -> Option<i64> {
    match v {
        JsonValue::Number(JsonNumber::PosInt(u)) => if u <= i64::MAX {
            Some(u as i64)
        } else {
            None
        },
        JsonValue::Number(JsonNumber::NegInt(i)) => Some(i),
        _ => None,
    }
}

/// Reading one member of a field's object: a later member replaces an earlier one of the
/// same name, other names are passed over.
pub open spec fn field_step(f: FieldMembers, entry: (String, JsonValue)) -> Result<
    FieldMembers,
    FieldError,
> {
    let k = entry.0;
    let v = entry.1;
    if k@ == "text"@ {
        match json_string(v) {
            Some(s) => Ok(FieldMembers { text: Some(s), ..f }),
            None => Err(FieldError::InvalidMember(FieldMember::Text)),
        }
    } else if k@ == "active"@ {
        match v {
            JsonValue::Bool(b) => Ok(FieldMembers { active: Some(b), ..f }),
            _ => Err(FieldError::InvalidMember(FieldMember::Active)),
        }
    } else if k@ == "glyph"@ {
        Ok(FieldMembers { glyph: Some(v), ..f })
    } else if k@ == "face"@ {
        Ok(FieldMembers { face: Some(v), ..f })
    } else if k@ == "ref"@ {
        match ref_from_json(v) {
            Some(r) => Ok(FieldMembers { field_ref: Some(r), ..f }),
            None => Err(FieldError::InvalidMember(FieldMember::Ref)),
        }
    } else if k@ == "view"@ {
        Ok(FieldMembers { view: Some(v), ..f })
    } else {
        Ok(f)
    }
}

/// No member read yet.
pub open spec fn no_members() -> FieldMembers {
    FieldMembers { text: None, active: None, glyph: None, face: None, field_ref: None, view: None }
}

/// The members of a field's object read in order; the first failure stops the reading.
pub open spec fn field_fold(entries: Seq<(String, JsonValue)>) -> Result<FieldMembers, FieldError>
    decreases entries.len(),
{
    if entries.len() == 0 {
        Ok(no_members())
    } else {
        match field_fold(entries.drop_last()) {
            Ok(f) => field_step(f, entries.last()),
            Err(e) => Err(e),
        }
    }
}

/// The form of the field that a value holds.
pub open spec fn field_form(v: JsonValue) -> Result<FieldForm, FieldError> {
    match v {
        JsonValue::String(s) => Ok(FieldForm::Text(s)),
        JsonValue::Array(items) => {
            let s = items@;
            if s.len() == 0 || !(s[0] is String) {
                Err(FieldError::MissingText)
            } else if s.len() == 1 {
                Ok(FieldForm::List(s[0]->String_0, None))
            } else if s.len() == 2 && s[1] is Bool {
                Ok(FieldForm::List(s[0]->String_0, Some(s[1]->Bool_0)))
            } else {
                Err(FieldError::InvalidList)
            }
        },
        JsonValue::Object(entries) => match field_fold(entries@) {
            Ok(f) => Ok(FieldForm::Object(f)),
            Err(e) => Err(e),
        },
        _ => Err(FieldError::InvalidType),
    }
}

/// `f` with `x` is the field that a form stands for. A string or a list is an active
/// field unless the list says otherwise; an object is active where it says so, and by
/// default where it has text and no glyph.
pub open spec fn field_of_form(f: Field, x: FieldExtras, form: FieldForm) -> bool {
    match form {
        FieldForm::Text(s) => {
            &&& f.text@ == s@
            &&& f.active
            &&& !f.has_glyph
            &&& f.field_ref is None
            &&& x == FieldExtras { glyph: None, face: None, view: None }
        },
        FieldForm::List(s, active) => {
            &&& f.text@ == s@
            &&& f.active == match active {
                Some(a) => a,
                None => true,
            }
            &&& !f.has_glyph
            &&& f.field_ref is None
            &&& x == FieldExtras { glyph: None, face: None, view: None }
        },
        FieldForm::Object(m) => {
            let text = match m.text {
                Some(s) => s@,
                None => Seq::empty(),
            };
            &&& f.text@ == text
            &&& f.active == match m.active {
                Some(a) => a,
                None => m.glyph is None && text.len() > 0,
            }
            &&& f.has_glyph == m.glyph is Some
            &&& f.field_ref == match m.field_ref {
                Some(r) => Some(FieldRef(r)),
                None => None,
            }
            &&& x == FieldExtras { glyph: m.glyph, face: m.face, view: m.view }
        },
    }
}

proof fn lemma_field_fold_stops(s: Seq<(String, JsonValue)>, i: int, e: FieldError)
    requires
        0 <= i <= s.len(),
        field_fold(s.take(i)) == Err::<FieldMembers, FieldError>(e),
    ensures
        field_fold(s) == Err::<FieldMembers, FieldError>(e),
    decreases s.len() - i,
{
    if i < s.len() {
        assert(s.take(i + 1).drop_last() =~= s.take(i));
        lemma_field_fold_stops(s, i + 1, e);
    } else {
        assert(s.take(i) =~= s);
    }
}

fn ref_of(v: &JsonValue) -> (r: Option<i64>)
    ensures
        r == ref_from_json(*v),
{
    match v {
        JsonValue::Number(JsonNumber::PosInt(u)) => if *u <= 9223372036854775807 {
            Some(*u as i64)
        } else {
            None
        },
        JsonValue::Number(JsonNumber::NegInt(i)) => Some(*i),
        _ => None,
    }
}

fn field_step_exec(f: FieldMembers, k: String, v: JsonValue) -> (r: Result<FieldMembers, FieldError>)
    ensures
        r == field_step(f, (k, v)),
{
    if text_is(k.as_str(), "text") {
        match v {
            JsonValue::String(s) => Ok(FieldMembers { text: Some(s), ..f }),
            _ => Err(FieldError::InvalidMember(FieldMember::Text)),
        }
    } else if text_is(k.as_str(), "active") {
        match v {
            JsonValue::Bool(b) => Ok(FieldMembers { active: Some(b), ..f }),
            _ => Err(FieldError::InvalidMember(FieldMember::Active)),
        }
    } else if text_is(k.as_str(), "glyph") {
        Ok(FieldMembers { glyph: Some(v), ..f })
    } else if text_is(k.as_str(), "face") {
        Ok(FieldMembers { face: Some(v), ..f })
    } else if text_is(k.as_str(), "ref") {
        match ref_of(&v) {
            Some(r) => Ok(FieldMembers { field_ref: Some(r), ..f }),
            None => Err(FieldError::InvalidMember(FieldMember::Ref)),
        }
    } else if text_is(k.as_str(), "view") {
        Ok(FieldMembers { view: Some(v), ..f })
    } else {
        Ok(f)
    }
}

fn field_members(entries: Vec<(String, JsonValue)>) -> (r: Result<FieldMembers, FieldError>)
    ensures
        r == field_fold(entries@),
{
    let ghost all = entries@;
    let ghost mut i: int = 0;
    let mut rest = entries;
    let mut f = FieldMembers {
        text: None,
        active: None,
        glyph: None,
        face: None,
        field_ref: None,
        view: None,
    };
    proof {
        assert(all.take(0) =~= Seq::<(String, JsonValue)>::empty());
    }
    while rest.len() > 0
        invariant
            0 <= i <= all.len(),
            rest@ == all.skip(i),
            field_fold(all.take(i)) == Ok::<FieldMembers, FieldError>(f),
            all == entries@,
        decreases rest@.len(),
    {
        let entry = rest.remove(0);
        proof {
            assert(all.take(i + 1).drop_last() =~= all.take(i));
            assert(all.skip(i)[0] == all[i]);
            assert(all.skip(i + 1) =~= all.skip(i).remove(0));
        }
        let (k, v) = entry;
        match field_step_exec(f, k, v) {
            Ok(g) => {
                f = g;
            },
            Err(e) => {
                proof {
                    lemma_field_fold_stops(all, i + 1, e);
                }
                return Err(e);
            },
        }
        proof {
            i = i + 1;
        }
    }
    proof {
        assert(all.take(i) =~= all);
    }
    Ok(f)
}

fn no_extras() -> (r: FieldExtras)
    ensures
        r == (FieldExtras { glyph: None, face: None, view: None }),
{
    FieldExtras { glyph: None, face: None, view: None }
}

impl Field {
    /// The field that a JSON value holds, with the members that the terminal library reads.
    pub fn from_json(v: JsonValue) -> (r: Result<(Field, FieldExtras), FieldError>)
        ensures
            match field_form(v) {
                Ok(form) => r matches Ok(p) && field_of_form(p.0, p.1, form),
                Err(e) => r == Err::<(Field, FieldExtras), FieldError>(e),
            },
    {
        match v {
            JsonValue::String(s) => Ok((Field::text(s), no_extras())),
            JsonValue::Array(mut items) => {
                let ghost s = items@;
                if items.len() == 0 || !matches!(items[0], JsonValue::String(_)) {
                    return Err(FieldError::MissingText);
                }
                let active = if items.len() == 1 {
                    true
                } else if items.len() == 2 {
                    match items[1] {
                        JsonValue::Bool(b) => b,
                        _ => {
                            return Err(FieldError::InvalidList);
                        },
                    }
                } else {
                    return Err(FieldError::InvalidList);
                };
                let first = items.remove(0);
                assert(first == s[0]);
                match first {
                    JsonValue::String(text) => Ok((Field::text(text).active(active), no_extras())),
                    _ => Err(FieldError::MissingText),
                }
            },
            JsonValue::Object(entries) => {
                let m = field_members(entries)?;
                let text = match m.text {
                    Some(s) => s,
                    None => String::new(),
                };
                let active = match m.active {
                    Some(a) => a,
                    None => m.glyph.is_none() && !text.as_str().is_empty(),
                };
                let field_ref = match m.field_ref {
                    Some(r) => Some(FieldRef(r)),
                    None => None,
                };
                let has_glyph = m.glyph.is_some();
                Ok(
                    (
                        Field { text, active, has_glyph, field_ref },
                        FieldExtras { glyph: m.glyph, face: m.face, view: m.view },
                    ),
                )
            },
            _ => Err(FieldError::InvalidType),
        }
    }
}

/// The entry `e` is the member `k` holding `v`.
pub open spec fn is_member(e: (String, JsonValue), k: Seq<char>, v: JsonValue) -> bool {
    e.0@ == k && e.1 == v
}

/// `v` is the object that field `f` with `x` is written as: its text, its glyph where there
/// is one, whether it is active, then its face and its reference where there are.
pub open spec fn encodes_field(v: JsonValue, f: Field, x: FieldExtras) -> bool {
    v matches JsonValue::Object(entries) && {
        let s = entries@;
        let g: int = if x.glyph is Some {
            1
        } else {
            0
        };
        let c: int = if x.face is Some {
            1
        } else {
            0
        };
        let r: int = if f.field_ref is Some {
            1
        } else {
            0
        };
        &&& s.len() == 2 + g + c + r
        &&& is_member(s[0], "text"@, JsonValue::String(f.text))
        &&& x.glyph matches Some(gv) ==> is_member(s[1], "glyph"@, gv)
        &&& is_member(s[1 + g], "active"@, JsonValue::Bool(f.active))
        &&& x.face matches Some(fv) ==> is_member(s[2 + g], "face"@, fv)
        &&& f.field_ref matches Some(fr) ==> is_member(
            s[2 + g + c],
            "ref"@,
            JsonValue::Number(number_of_i64(fr.0)),
        )
    }
}

impl Field {
    /// The object that the field, with the members that the terminal library wrote, is
    /// written as.
    pub fn into_json(self, x: FieldExtras) -> (r: JsonValue)
        ensures
            encodes_field(r, self, x),
    {
        let mut entries: Vec<(String, JsonValue)> = Vec::new();
        entries.push(("text".to_owned(), JsonValue::String(self.text)));
        match x.glyph {
            Some(g) => entries.push(("glyph".to_owned(), g)),
            None => {},
        }
        entries.push(("active".to_owned(), JsonValue::Bool(self.active)));
        match x.face {
            Some(c) => entries.push(("face".to_owned(), c)),
            None => {},
        }
        match self.field_ref {
            Some(r) => entries.push(("ref".to_owned(), JsonValue::from_i64(r.0))),
            None => {},
        }
        JsonValue::Object(entries)
    }
}

proof fn lemma_field_member_names()
    ensures
        "glyph"@ != "text"@,
        "active"@ != "text"@,
        "active"@ != "glyph"@,
        "face"@ != "text"@,
        "face"@ != "active"@,
        "face"@ != "glyph"@,
        "ref"@ != "text"@,
        "ref"@ != "active"@,
        "ref"@ != "glyph"@,
        "ref"@ != "face"@,
{
    reveal_strlit("text");
    reveal_strlit("active");
    reveal_strlit("glyph");
    reveal_strlit("face");
    reveal_strlit("ref");
    assert("text"@[0] != "face"@[0]);
    assert("glyph"@.len() != "text"@.len());
    assert("glyph"@.len() != "face"@.len());
    assert("ref"@.len() != "active"@.len());
}

/// A field written as JSON reads back as the same field with the same glyph, face and no
/// view, where its glyph flag agrees with the glyph it is written with.
pub proof fn law_field_roundtrip(f: Field, x: FieldExtras, v: JsonValue)
    requires
        encodes_field(v, f, x),
        f.has_glyph == x.glyph is Some,
        x.view is None,
    ensures
        field_form(v) is Ok,
        forall|f2: Field, x2: FieldExtras|
            #[trigger] field_of_form(f2, x2, field_form(v)->Ok_0) ==> field_view(f2) == field_view(f)
                && x2 == x,
{
    lemma_field_member_names();
    reveal_with_fuel(field_fold, 6);
    let s = v->Object_0@;
    assert(s.take(s.len() as int) =~= s);
    assert forall|j: int| 0 <= j < s.len() implies #[trigger] s.take(j + 1).drop_last() =~= s.take(
        j,
    ) by {}
    if f.text@.len() == 0 {
        assert(f.text@ =~= Seq::<char>::empty());
    }
}

} // verus!
