//! Conversion and registry behavior: round trips per field type, the
//! lenient textual grammars, and the registry's metadata tables.
use cms_schema::dates::{Date, DateTime, Time};
use cms_schema::fields::{SchematicFieldKey, SchematicFieldType};
use cms_schema::gen::intersperse_hash_with_time;
use cms_schema::text::{parse_i64, split_commas, str_contains, trim};
use cms_schema::values::{external_of, Number, SchematicFieldValue, SimpleValue};
use cms_schema::SchemaError;

fn roundtrip(t: SchematicFieldType, v: SimpleValue) -> SimpleValue {
    let stored = t.parse_value(v).expect("conversion should succeed");
    external_of(&stored)
}

#[test]
fn text_round_trips() {
    let out = roundtrip(SchematicFieldType::Text, SimpleValue::Text("Widget".to_string()));
    assert!(matches!(out, SimpleValue::Text(s) if s == "Widget"));
}

#[test]
fn number_round_trips() {
    let out = roundtrip(SchematicFieldType::Number, SimpleValue::Number(Number::Integer(42)));
    assert!(matches!(out, SimpleValue::Number(Number::Integer(42))));
}

#[test]
fn boolean_round_trips() {
    let out = roundtrip(SchematicFieldType::Boolean, SimpleValue::Boolean(true));
    assert!(matches!(out, SimpleValue::Boolean(true)));
}

#[test]
fn boolean_parses_leniently_from_text() {
    for (txt, expected) in [
        ("1", true),
        ("on", true),
        ("true", true),
        ("TRUE", true),
        ("On", true),
        ("0", false),
        ("off", false),
        ("False", false),
    ] {
        let stored = SchematicFieldType::Boolean
            .parse_value(SimpleValue::Text(txt.to_string()))
            .expect("boolean text should parse");
        assert!(
            matches!(stored, SchematicFieldValue::Boolean(b) if b == expected),
            "wrong value for {txt}"
        );
    }
    let bad = SchematicFieldType::Boolean.parse_value(SimpleValue::Text("yes".to_string()));
    assert_eq!(bad.unwrap_err(), SchemaError::ParseFailure);
}

#[test]
fn datetime_round_trips_and_parses() {
    let dt = DateTime {
        date: Date { year: 2024, month: 2, day: 29 },
        time: Time { hour: 13, minute: 5, second: 59 },
    };
    let out = roundtrip(SchematicFieldType::DateTime, SimpleValue::DateTime(dt));
    assert!(matches!(out, SimpleValue::DateTime(d) if d == dt));

    let stored = SchematicFieldType::DateTime
        .parse_value(SimpleValue::Text("2024-02-29T13:05:59".to_string()))
        .expect("well-formed date-time text should parse");
    assert!(matches!(stored, SchematicFieldValue::DateTime(d) if d == dt));

    // Not a leap year: the 29th of February 2023 is a parse failure.
    let bad = SchematicFieldType::DateTime
        .parse_value(SimpleValue::Text("2023-02-29T13:05:59".to_string()));
    assert_eq!(bad.unwrap_err(), SchemaError::ParseFailure);
}

#[test]
fn date_and_time_round_trip() {
    let d = Date { year: 1999, month: 12, day: 31 };
    let out = roundtrip(SchematicFieldType::Date, SimpleValue::Date(d));
    assert!(matches!(out, SimpleValue::Date(x) if x == d));

    let t = Time { hour: 0, minute: 0, second: 0 };
    let out = roundtrip(SchematicFieldType::Time, SimpleValue::Time(t));
    assert!(matches!(out, SimpleValue::Time(x) if x == t));

    let stored = SchematicFieldType::Date
        .parse_value(SimpleValue::Text("1999-12-31".to_string()))
        .expect("date text should parse");
    assert!(matches!(stored, SchematicFieldValue::Date(x) if x == d));
    let bad = SchematicFieldType::Time.parse_value(SimpleValue::Text("24:00:00".to_string()));
    assert_eq!(bad.unwrap_err(), SchemaError::ParseFailure);
}

#[test]
fn reference_round_trips_canonical_identifiers() {
    let id = "0190f1e4-9a2b-7c3d-8e4f-0123456789ab";
    let out = roundtrip(SchematicFieldType::Reference, SimpleValue::Text(id.to_string()));
    assert!(matches!(out, SimpleValue::Text(s) if s == id));

    let bad = SchematicFieldType::Reference
        .parse_value(SimpleValue::Text("not-an-identifier".to_string()));
    assert_eq!(bad.unwrap_err(), SchemaError::ParseFailure);
}

#[test]
fn multi_reference_round_trips() {
    let ids = vec![
        "0190f1e4-9a2b-7c3d-8e4f-0123456789ab".to_string(),
        "0190f1e4-9a2b-7c3d-8e4f-0123456789ac".to_string(),
    ];
    let out = roundtrip(
        SchematicFieldType::MultiReference,
        SimpleValue::ListString(ids.clone()),
    );
    assert!(matches!(out, SimpleValue::ListString(v) if v == ids));
}

#[test]
fn tags_round_trip_as_integer_id_lists() {
    let out = roundtrip(
        SchematicFieldType::Tags,
        SimpleValue::ListNumber(vec![Number::Integer(3), Number::Integer(7)]),
    );
    match out {
        SimpleValue::ListNumber(v) => {
            assert_eq!(v, vec![Number::Integer(3), Number::Integer(7)]);
        }
        _ => panic!("tags should read back as a number list"),
    }
}

#[test]
fn array_and_object_round_trip() {
    let arr = vec![
        serde_json::Value::String("a".to_string()),
        serde_json::Value::Bool(true),
    ];
    let out = roundtrip(SchematicFieldType::Array, SimpleValue::ArrayUnknown(arr.clone()));
    assert!(matches!(out, SimpleValue::ArrayUnknown(v) if v == arr));

    let obj = serde_json::Value::String("payload".to_string());
    let out = roundtrip(SchematicFieldType::Object, SimpleValue::ObjectUnknown(obj.clone()));
    assert!(matches!(out, SimpleValue::ObjectUnknown(v) if v == obj));
}

#[test]
fn url_values_store_the_normalized_serialization() {
    // A canonical URL survives the round trip through the URL parser.
    let stored = SchematicFieldType::URL
        .parse_value(SimpleValue::Text("https://example.com/a".to_string()))
        .expect("a well-formed URL should parse");
    match &stored {
        SchematicFieldValue::Url(u) => assert_eq!(u, "https://example.com/a"),
        _ => panic!("URL values land in the Url variant"),
    }
    // A bare scheme-less spelling is refused by the parser.
    let bad = SchematicFieldType::URL.parse_value(SimpleValue::Text("no scheme".to_string()));
    assert_eq!(bad.unwrap_err(), SchemaError::ParseFailure);
    // The parser normalizes: a missing path gains its slash, so the
    // stored text is a function of the URL, not the caller's spelling.
    let stored = SchematicFieldType::URL
        .parse_value(SimpleValue::Text("https://example.com".to_string()))
        .expect("a well-formed URL should parse");
    assert!(matches!(stored, SchematicFieldValue::Url(u) if u == "https://example.com/"));
}

#[test]
fn wrong_shapes_are_type_mismatches() {
    let e = SchematicFieldType::Text.parse_value(SimpleValue::Boolean(true));
    assert_eq!(e.unwrap_err(), SchemaError::TypeMismatch);
    let e = SchematicFieldType::Number.parse_value(SimpleValue::Text("12".to_string()));
    assert_eq!(e.unwrap_err(), SchemaError::TypeMismatch);
    let e = SchematicFieldType::Tags.parse_value(SimpleValue::Number(Number::Integer(1)));
    assert_eq!(e.unwrap_err(), SchemaError::TypeMismatch);
}

#[test]
fn field_type_registry_tables() {
    assert!(SchematicFieldType::Image.is_upload_file_type());
    assert!(SchematicFieldType::MultiDocument.is_upload_file_type());
    assert!(!SchematicFieldType::Text.is_upload_file_type());
    assert_eq!(SchematicFieldType::Email.max_bytes_length(), Some(100));
    assert_eq!(SchematicFieldType::Text.max_bytes_length(), Some(1024 * 1024 * 1024));
    assert_eq!(SchematicFieldType::Reference.max_bytes_length(), None);
    assert_eq!(SchematicFieldType::Boolean.as_name(), "True/False");
    assert_eq!(SchematicFieldType::MediaGallery.storage_column(), "field_gallery");
    assert_eq!(SchematicFieldType::Number.storage_column(), "field_number");
}

#[test]
fn field_keys_share_one_string_form() {
    assert_eq!(SchematicFieldKey::Id.as_str(), "_id");
    assert_eq!(SchematicFieldKey::Owner.as_str(), "_owner");
    assert_eq!(SchematicFieldKey::CreatedAt.as_str(), "_createdAt");
    assert_eq!(SchematicFieldKey::UpdatedAt.as_str(), "_updatedAt");
    let k = SchematicFieldKey::Other("price".to_string());
    assert_eq!(k.as_str(), "price");
    assert!(k.is_other());
    assert!(!SchematicFieldKey::Id.is_other());
}

#[test]
fn text_helpers_work() {
    assert_eq!(trim("  a b\t"), "a b");
    assert_eq!(trim("   "), "");
    assert!(str_contains("hello world", "lo w"));
    assert!(!str_contains("hello", "world"));
    assert_eq!(parse_i64("42"), Some(42));
    assert_eq!(parse_i64("-7"), Some(-7));
    assert_eq!(parse_i64("+9"), Some(9));
    assert_eq!(parse_i64("3.5"), None);
    assert_eq!(parse_i64(""), None);
    assert_eq!(parse_i64("9223372036854775807"), Some(i64::MAX));
    assert_eq!(parse_i64("-9223372036854775808"), Some(i64::MIN));
    assert_eq!(parse_i64("9223372036854775808"), None);
    assert_eq!(split_commas("a, b ,,c"), vec!["a", " b ", "", "c"]);
    assert_eq!(split_commas(""), vec![""]);
}

#[test]
fn interspersed_names_carry_the_time_digits() {
    let hash: String = "abcdef".repeat(10) + "wxyz";
    assert_eq!(hash.len(), 64);
    let marked = intersperse_hash_with_time(&hash, 1234567890);
    assert_eq!(marked.len(), 74);
    let chars: Vec<char> = marked.chars().collect();
    // One digit after every sixth name character, most significant first.
    let expected = ['1', '2', '3', '4', '5', '6', '7', '8', '9', '0'];
    for (i, d) in expected.iter().enumerate() {
        assert_eq!(chars[6 + 7 * i], *d);
    }
    assert_eq!(&marked[70..], "wxyz");
}

#[test]
fn generated_file_names_have_the_documented_length() {
    let name = cms_schema::gen::generate_file_name();
    assert_eq!(name.chars().count(), 74);
}

#[test]
fn page_limits_are_floor_clamped() {
    assert_eq!(cms_schema::clamp_page_limit(None), 50);
    assert_eq!(cms_schema::clamp_page_limit(Some(5)), 20);
    assert_eq!(cms_schema::clamp_page_limit(Some(80)), 80);
}
