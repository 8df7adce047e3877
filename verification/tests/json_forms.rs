use sweep::candidate::{Candidate, Field, FieldRef};
use sweep::candidate_json::{CandidateError, CandidateExtras, CandidateMember};
use sweep::field_json::{FieldError, FieldExtras, FieldMember};
use sweep::json::{JsonNumber, JsonValue};

fn from_serde_value(value: serde_json::Value) -> JsonValue {
    match value {
        serde_json::Value::Null => JsonValue::Null,
        serde_json::Value::Bool(b) => JsonValue::Bool(b),
        serde_json::Value::Number(n) => {
            if let Some(u) = n.as_u64() {
                JsonValue::Number(JsonNumber::PosInt(u))
            } else if let Some(i) = n.as_i64() {
                JsonValue::Number(JsonNumber::NegInt(i))
            } else {
                JsonValue::Number(JsonNumber::Float(n.to_string()))
            }
        }
        serde_json::Value::String(s) => JsonValue::String(s),
        serde_json::Value::Array(items) => {
            JsonValue::Array(items.into_iter().map(from_serde_value).collect())
        }
        serde_json::Value::Object(map) => JsonValue::Object(
            map.into_iter().map(|(k, v)| (k, from_serde_value(v))).collect(),
        ),
    }
}

fn written_text(value: &JsonValue) -> String {
    match value {
        JsonValue::Null => "null".to_string(),
        JsonValue::Bool(b) => b.to_string(),
        JsonValue::Number(JsonNumber::PosInt(u)) => u.to_string(),
        JsonValue::Number(JsonNumber::NegInt(i)) => i.to_string(),
        JsonValue::Number(JsonNumber::Float(t)) => t.clone(),
        JsonValue::String(s) => serde_json::to_string(s).unwrap(),
        JsonValue::Array(items) => {
            let parts: Vec<String> = items.iter().map(written_text).collect();
            format!("[{}]", parts.join(","))
        }
        JsonValue::Object(entries) => {
            let parts: Vec<String> = entries
                .iter()
                .map(|(k, v)| format!("{}:{}", serde_json::to_string(k).unwrap(), written_text(v)))
                .collect();
            format!("{{{}}}", parts.join(","))
        }
    }
}

fn read_text(text: &str) -> JsonValue {
    from_serde_value(serde_json::from_str(text).unwrap())
}

fn plain() -> FieldExtras {
    FieldExtras { glyph: None, face: None, view: None }
}

fn read_field(text: &str) -> Field {
    let (field, extras) = Field::from_json(read_text(text)).unwrap();
    assert_eq!(extras, plain());
    field
}

fn serde_field_checks() {
    let field = Field::text("field text π".to_string());

    let expected = "{\"text\":\"field text π\",\"active\":true}";
    assert_eq!(field, read_field(expected));
    assert_eq!(expected, written_text(&field.clone().into_json(plain())));

    assert_eq!(field, read_field("\"field text π\""));
    assert_eq!(field, read_field("[\"field text π\"]"));
    assert_eq!(field, read_field("[\"field text π\", true]"));

    let field = field.active(false);
    let expected = "{\"text\":\"field text π\",\"active\":false}";
    assert_eq!(field, read_field(expected));
    assert_eq!(expected, written_text(&field.clone().into_json(plain())));
    assert_eq!(field, read_field("[\"field text π\", false]"));
}

#[test]
fn scorer_test_serde_field() {
    serde_field_checks();
}

#[test]
fn candidate_test_serde_field() {
    serde_field_checks();
}

#[test]
fn field_json_members_and_errors() {
    // without `active`, an object is active where it has text and no glyph
    let (field, extras) =
        Field::from_json(read_text("{\"glyph\":{\"size\":[1,2]},\"face\":\"bg=#00ff00\",\"ref\":3}"))
            .unwrap();
    assert_eq!(field.text, "");
    assert!(!field.active);
    assert!(field.has_glyph);
    assert_eq!(field.field_ref, Some(FieldRef(3)));
    assert_eq!(extras.face, Some(JsonValue::String("bg=#00ff00".to_string())));
    assert!(extras.glyph.is_some());
    let (field, _) = Field::from_json(read_text("{\"text\":\"a\",\"other\":1}")).unwrap();
    assert!(field.active);
    let (field, _) = Field::from_json(read_text("{}")).unwrap();
    assert!(!field.active);

    assert_eq!(Field::from_json(read_text("3")).unwrap_err(), FieldError::InvalidType);
    assert_eq!(Field::from_json(read_text("null")).unwrap_err(), FieldError::InvalidType);
    assert_eq!(Field::from_json(read_text("[]")).unwrap_err(), FieldError::MissingText);
    assert_eq!(Field::from_json(read_text("[1]")).unwrap_err(), FieldError::MissingText);
    assert_eq!(Field::from_json(read_text("[\"a\", 1]")).unwrap_err(), FieldError::InvalidList);
    assert_eq!(
        Field::from_json(read_text("[\"a\", true, 1]")).unwrap_err(),
        FieldError::InvalidList
    );
    assert_eq!(
        Field::from_json(read_text("{\"text\":1}")).unwrap_err(),
        FieldError::InvalidMember(FieldMember::Text)
    );
    assert_eq!(
        Field::from_json(read_text("{\"active\":\"yes\"}")).unwrap_err(),
        FieldError::InvalidMember(FieldMember::Active)
    );
    assert_eq!(
        Field::from_json(read_text("{\"ref\":1.5}")).unwrap_err(),
        FieldError::InvalidMember(FieldMember::Ref)
    );

    // written back with its glyph, face and reference
    let field = Field::text("x".to_string()).reference(FieldRef(-2));
    let extras = FieldExtras {
        glyph: Some(JsonValue::Bool(true)),
        face: Some(JsonValue::String("fg=#ffffff".to_string())),
        view: None,
    };
    let field = Field { has_glyph: true, ..field };
    assert_eq!(
        written_text(&field.into_json(extras)),
        "{\"text\":\"x\",\"glyph\":true,\"active\":true,\"face\":\"fg=#ffffff\",\"ref\":-2}"
    );
}

fn candidate_from_text(text: &str) -> (Candidate, CandidateExtras) {
    Candidate::from_json(read_text(text)).unwrap()
}

#[test]
fn candidate_json_forms() {
    let (candidate, extras) = candidate_from_text("\"four\"");
    assert_eq!(candidate.target(), &vec![Field::text("four".to_string())]);
    assert_eq!(written_text(&candidate.into_json(extras)), "\"four\"");

    let text = "{\"fields\":[\"one\",[\"two\",false],{\"text\":\"three\",\"active\":false}],\"right\":[{\"face\":\"bg=#00ff00\"}],\"preview\":[{\"text\":\"preview\"}],\"preview_flex\":1.0,\"offset\":7,\"extra\":127}";
    let (candidate, extras) = candidate_from_text(text);
    assert_eq!(
        candidate.target(),
        &vec![
            Field::text("one".to_string()),
            Field::text("two".to_string()).active(false),
            Field::text("three".to_string()).active(false),
        ]
    );
    assert_eq!(candidate.right().len(), 1);
    assert!(!candidate.right()[0].active);
    assert_eq!(candidate.right_offset(), 7);
    assert_eq!(extras.right[0].face, Some(JsonValue::String("bg=#00ff00".to_string())));
    assert_eq!(extras.preview_flex, Some(JsonValue::Number(JsonNumber::Float("1.0".to_string()))));
    assert_eq!(
        extras.extra,
        vec![("extra".to_string(), JsonValue::Number(JsonNumber::PosInt(127)))]
    );
    assert_eq!(candidate.haystack().into_iter().collect::<String>(), "onepreview");
    assert_eq!(candidate.preview_haystack_position(), 3);

    // written and read back
    let written = written_text(&candidate.into_json(extras));
    assert_eq!(
        written,
        "{\"extra\":127,\"target\":[{\"text\":\"one\",\"active\":true},{\"text\":\"two\",\"active\":false},{\"text\":\"three\",\"active\":false}],\"right\":[{\"text\":\"\",\"active\":false,\"face\":\"bg=#00ff00\"}],\"right_offset\":7,\"preview\":[{\"text\":\"preview\",\"active\":true}],\"preview_flex\":1.0}"
    );
    let (again, again_extras) = candidate_from_text(&written);
    let (first, first_extras) = candidate_from_text(text);
    assert_eq!(again.target(), first.target());
    assert_eq!(again.right(), first.right());
    assert_eq!(again.right_offset(), first.right_offset());
    assert_eq!(again_extras, first_extras);
}

#[test]
fn candidate_json_errors() {
    let error = |text: &str| Candidate::from_json(read_text(text)).err().unwrap();
    assert_eq!(error("3"), CandidateError::NotACandidate);
    assert_eq!(error("{\"right\":[]}"), CandidateError::MissingTarget);
    assert_eq!(error("{\"target\":3}"), CandidateError::InvalidMember(CandidateMember::Target));
    assert_eq!(
        error("{\"target\":[3]}"),
        CandidateError::InvalidField(FieldError::InvalidType)
    );
    assert_eq!(
        error("{\"target\":[\"a\"],\"offset\":-1}"),
        CandidateError::InvalidMember(CandidateMember::RightOffset)
    );
    assert_eq!(
        error("{\"target\":[\"a\"],\"preview_flex\":\"x\"}"),
        CandidateError::InvalidMember(CandidateMember::PreviewFlex)
    );
    // null is an empty list; the target may come under its older names
    let (candidate, _) = candidate_from_text("{\"entry\":[\"a\"],\"right\":null}");
    assert_eq!(candidate.target().len(), 1);
    assert_eq!(candidate.right().len(), 0);
}
