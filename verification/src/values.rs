//! Field values. `SimpleValue` is the generic shape-tagged representation
//! every caller outside the engine sees; `SchematicFieldValue` is the typed
//! internal form a record stores, one variant per storage partition kind.
//! Conversion between the two is keyed by the column's declared type and
//! is the registry's heart: a wrong shape is a type mismatch, a textual
//! value of the right shape is parsed by the declared type's grammar.
use vstd::prelude::*;

use crate::SchemaError;
use crate::dates::{
    Date, DateTime, Time, parse_date_spec, parse_datetime_spec, parse_time_spec, parse_date,
    parse_datetime, parse_time,
};
use crate::fields::SchematicFieldType;
use crate::text::{eq_ignore_case_seq, is_digit_char, is_lower_hex_char};
use crate::trusted::{parse_url, url_norm_of, url_ok};

verus! {

/// A numeric field value: a small byte or a signed integer.
#[derive(Clone, Copy, PartialEq, Eq, Structural, Debug)]
pub enum Number {
    Byte(u8),
    Integer(i64),
}

/// The mathematical value of a number.
pub open spec fn num_val(n: Number) -> int {
    match n {
        Number::Byte(b) => b as int,
        Number::Integer(i) => i as int,
    }
}

/// A number taken as a 64-bit integer, as tag identifiers are.
pub open spec fn num_i64(n: Number) -> i64 {
    match n {
        Number::Byte(b) => b as i64,
        Number::Integer(i) => i,
    }
}

/// The external, shape-tagged value representation.
#[derive(Debug)]
pub enum SimpleValue {
    Text(String),
    Number(Number),
    Boolean(bool),
    DateTime(DateTime),
    Date(Date),
    Time(Time),
    ListString(Vec<String>),
    ListNumber(Vec<Number>),
    ArrayUnknown(Vec<serde_json::Value>),
    ObjectUnknown(serde_json::Value),
}

/// The ghost image of a `SimpleValue`, with text as character sequences.
pub enum SimpleValueV {
    Text(Seq<char>),
    Number(Number),
    Boolean(bool),
    DateTime(DateTime),
    Date(Date),
    Time(Time),
    ListString(Seq<Seq<char>>),
    ListNumber(Seq<Number>),
    ArrayUnknown(Seq<serde_json::Value>),
    ObjectUnknown(serde_json::Value),
}

impl View for SimpleValue {
    type V = SimpleValueV;

    open spec fn view(&self) -> SimpleValueV {
        match self {
            SimpleValue::Text(s) => SimpleValueV::Text(s@),
            SimpleValue::Number(n) => SimpleValueV::Number(*n),
            SimpleValue::Boolean(b) => SimpleValueV::Boolean(*b),
            SimpleValue::DateTime(d) => SimpleValueV::DateTime(*d),
            SimpleValue::Date(d) => SimpleValueV::Date(*d),
            SimpleValue::Time(t) => SimpleValueV::Time(*t),
            SimpleValue::ListString(v) => SimpleValueV::ListString(v.deep_view()),
            SimpleValue::ListNumber(v) => SimpleValueV::ListNumber(v@),
            SimpleValue::ArrayUnknown(v) => SimpleValueV::ArrayUnknown(v@),
            SimpleValue::ObjectUnknown(o) => SimpleValueV::ObjectUnknown(*o),
        }
    }
}

/// The typed internal value a record's partition stores.
#[derive(Debug)]
pub enum SchematicFieldValue {
    Text(String),
    Number(Number),
    Boolean(bool),
    Url(String),
    Email(String),
    Phone(String),
    Address(String),
    DateTime(DateTime),
    Date(Date),
    Time(Time),
    Reference(String),
    MultiReference(Vec<String>),
    ListString(Vec<String>),
    ListNumber(Vec<Number>),
    Tags(Vec<i64>),
    Array(Vec<serde_json::Value>),
    Object(serde_json::Value),
}

/// The ghost image of a `SchematicFieldValue`.
pub enum SchematicFieldValueV {
    Text(Seq<char>),
    Number(Number),
    Boolean(bool),
    Url(Seq<char>),
    Email(Seq<char>),
    Phone(Seq<char>),
    Address(Seq<char>),
    DateTime(DateTime),
    Date(Date),
    Time(Time),
    Reference(Seq<char>),
    MultiReference(Seq<Seq<char>>),
    ListString(Seq<Seq<char>>),
    ListNumber(Seq<Number>),
    Tags(Seq<i64>),
    Array(Seq<serde_json::Value>),
    Object(serde_json::Value),
}

impl View for SchematicFieldValue {
    type V = SchematicFieldValueV;

    open spec fn view(&self) -> SchematicFieldValueV {
        match self {
            SchematicFieldValue::Text(s) => SchematicFieldValueV::Text(s@),
            SchematicFieldValue::Number(n) => SchematicFieldValueV::Number(*n),
            SchematicFieldValue::Boolean(b) => SchematicFieldValueV::Boolean(*b),
            SchematicFieldValue::Url(s) => SchematicFieldValueV::Url(s@),
            SchematicFieldValue::Email(s) => SchematicFieldValueV::Email(s@),
            SchematicFieldValue::Phone(s) => SchematicFieldValueV::Phone(s@),
            SchematicFieldValue::Address(s) => SchematicFieldValueV::Address(s@),
            SchematicFieldValue::DateTime(d) => SchematicFieldValueV::DateTime(*d),
            SchematicFieldValue::Date(d) => SchematicFieldValueV::Date(*d),
            SchematicFieldValue::Time(t) => SchematicFieldValueV::Time(*t),
            SchematicFieldValue::Reference(s) => SchematicFieldValueV::Reference(s@),
            SchematicFieldValue::MultiReference(v) => SchematicFieldValueV::MultiReference(
                v.deep_view(),
            ),
            SchematicFieldValue::ListString(v) => SchematicFieldValueV::ListString(v.deep_view()),
            SchematicFieldValue::ListNumber(v) => SchematicFieldValueV::ListNumber(v@),
            SchematicFieldValue::Tags(v) => SchematicFieldValueV::Tags(v@),
            SchematicFieldValue::Array(v) => SchematicFieldValueV::Array(v@),
            SchematicFieldValue::Object(o) => SchematicFieldValueV::Object(*o),
        }
    }
}

/// The canonical textual form of a reference identifier: 36 characters,
/// hyphens at positions 8, 13, 18 and 23, lower-case hexadecimal elsewhere.
pub open spec fn is_canonical_uuid(s: Seq<char>) -> bool {
    s.len() == 36 && (forall|i: int|
        0 <= i < 36 ==> if i == 8 || i == 13 || i == 18 || i == 23 {
            s[i] == '-'
        } else {
            is_lower_hex_char(#[trigger] s[i])
        })
}

/// Check a reference identifier's canonical textual form.
pub fn check_canonical_uuid(s: &str) -> (r: bool)
    ensures
        r == is_canonical_uuid(s@),
{
    let len = s.unicode_len();
    if len != 36 {
        return false;
    }
    let mut i: usize = 0;
    while i < 36
        invariant
            s@.len() == 36,
            0 <= i <= 36,
            forall|j: int|
                0 <= j < i ==> if j == 8 || j == 13 || j == 18 || j == 23 {
                    s@[j] == '-'
                } else {
                    is_lower_hex_char(#[trigger] s@[j])
                },
        decreases 36 - i,
    {
        let c = s.get_char(i);
        let cu = c as u32;
        if i == 8 || i == 13 || i == 18 || i == 23 {
            if c != '-' {
                return false;
            }
        } else {
            if !((48 <= cu && cu <= 57) || (97 <= cu && cu <= 102)) {
                return false;
            }
        }
        i = i + 1;
    }
    true
}

/// Every entry of the list is a canonical reference identifier.
pub open spec fn all_canonical_uuids(v: Seq<Seq<char>>) -> bool {
    forall|i: int| 0 <= i < v.len() ==> is_canonical_uuid(#[trigger] v[i])
}

/// The lenient textual boolean grammar: `1`, `on` and `true` are true,
/// `0`, `off` and `false` are false, all case-insensitively.
pub open spec fn bool_text_spec(s: Seq<char>) -> Option<bool> {
    if eq_ignore_case_seq(s, "1"@) || eq_ignore_case_seq(s, "on"@) || eq_ignore_case_seq(
        s,
        "true"@,
    ) {
        Some(true)
    } else if eq_ignore_case_seq(s, "0"@) || eq_ignore_case_seq(s, "off"@) || eq_ignore_case_seq(
        s,
        "false"@,
    ) {
        Some(false)
    } else {
        None
    }
}

/// Parse the lenient textual boolean grammar.
pub fn parse_bool_text(s: &str) -> (r: Option<bool>)
    ensures
        r == bool_text_spec(s@),
{
    if crate::text::eq_ignore_case(s, "1") || crate::text::eq_ignore_case(s, "on")
        || crate::text::eq_ignore_case(s, "true") {
        Some(true)
    } else if crate::text::eq_ignore_case(s, "0") || crate::text::eq_ignore_case(s, "off")
        || crate::text::eq_ignore_case(s, "false") {
        Some(false)
    } else {
        None
    }
}

/// What converting an external value to a column of type `t` yields.
/// A `URL` column accepts exactly the texts the URL parser accepts and
/// stores the normalized serialization.
pub open spec fn parse_value_spec(t: SchematicFieldType, v: SimpleValueV) -> Result<
    SchematicFieldValueV,
    SchemaError,
> {
    match t {
        SchematicFieldType::Text | SchematicFieldType::RichContent
            | SchematicFieldType::RichText => match v {
            SimpleValueV::Text(s) => Ok(SchematicFieldValueV::Text(s)),
            _ => Err(SchemaError::TypeMismatch),
        },
        SchematicFieldType::Number => match v {
            SimpleValueV::Number(n) => Ok(SchematicFieldValueV::Number(n)),
            _ => Err(SchemaError::TypeMismatch),
        },
        SchematicFieldType::Email => match v {
            SimpleValueV::Text(s) => Ok(SchematicFieldValueV::Email(s)),
            _ => Err(SchemaError::TypeMismatch),
        },
        SchematicFieldType::Phone => match v {
            SimpleValueV::Text(s) => Ok(SchematicFieldValueV::Phone(s)),
            _ => Err(SchemaError::TypeMismatch),
        },
        SchematicFieldType::Address => match v {
            SimpleValueV::Text(s) => Ok(SchematicFieldValueV::Address(s)),
            _ => Err(SchemaError::TypeMismatch),
        },
        SchematicFieldType::Boolean => match v {
            SimpleValueV::Boolean(b) => Ok(SchematicFieldValueV::Boolean(b)),
            SimpleValueV::Text(s) => match bool_text_spec(s) {
                Some(b) => Ok(SchematicFieldValueV::Boolean(b)),
                None => Err(SchemaError::ParseFailure),
            },
            _ => Err(SchemaError::TypeMismatch),
        },
        SchematicFieldType::DateTime => match v {
            SimpleValueV::DateTime(d) => Ok(SchematicFieldValueV::DateTime(d)),
            SimpleValueV::Text(s) => match parse_datetime_spec(s) {
                Some(d) => Ok(SchematicFieldValueV::DateTime(d)),
                None => Err(SchemaError::ParseFailure),
            },
            _ => Err(SchemaError::TypeMismatch),
        },
        SchematicFieldType::Date => match v {
            SimpleValueV::Date(d) => Ok(SchematicFieldValueV::Date(d)),
            SimpleValueV::Text(s) => match parse_date_spec(s) {
                Some(d) => Ok(SchematicFieldValueV::Date(d)),
                None => Err(SchemaError::ParseFailure),
            },
            _ => Err(SchemaError::TypeMismatch),
        },
        SchematicFieldType::Time => match v {
            SimpleValueV::Time(tm) => Ok(SchematicFieldValueV::Time(tm)),
            SimpleValueV::Text(s) => match parse_time_spec(s) {
                Some(tm) => Ok(SchematicFieldValueV::Time(tm)),
                None => Err(SchemaError::ParseFailure),
            },
            _ => Err(SchemaError::TypeMismatch),
        },
        SchematicFieldType::Reference | SchematicFieldType::Document | SchematicFieldType::Image
            | SchematicFieldType::Video | SchematicFieldType::Audio => match v {
            SimpleValueV::Text(s) => if is_canonical_uuid(s) {
                Ok(SchematicFieldValueV::Reference(s))
            } else {
                Err(SchemaError::ParseFailure)
            },
            _ => Err(SchemaError::TypeMismatch),
        },
        SchematicFieldType::MultiReference | SchematicFieldType::MediaGallery
            | SchematicFieldType::MultiDocument => match v {
            SimpleValueV::ListString(items) => if all_canonical_uuids(items) {
                Ok(SchematicFieldValueV::MultiReference(items))
            } else {
                Err(SchemaError::ParseFailure)
            },
            _ => Err(SchemaError::TypeMismatch),
        },
        SchematicFieldType::Tags => match v {
            SimpleValueV::ListNumber(items) => Ok(
                SchematicFieldValueV::Tags(items.map_values(|n: Number| num_i64(n))),
            ),
            _ => Err(SchemaError::TypeMismatch),
        },
        SchematicFieldType::Array => match v {
            SimpleValueV::ArrayUnknown(items) => Ok(SchematicFieldValueV::Array(items)),
            _ => Err(SchemaError::TypeMismatch),
        },
        SchematicFieldType::Object => match v {
            SimpleValueV::ObjectUnknown(o) => Ok(SchematicFieldValueV::Object(o)),
            _ => Err(SchemaError::TypeMismatch),
        },
        SchematicFieldType::URL => match v {
            SimpleValueV::Text(s) => if url_ok(s) {
                Ok(SchematicFieldValueV::Url(url_norm_of(s)))
            } else {
                Err(SchemaError::ParseFailure)
            },
            _ => Err(SchemaError::TypeMismatch),
        },
    }
}

/// The ghost image of a conversion result.
pub open spec fn result_view(r: Result<SchematicFieldValue, SchemaError>) -> Result<
    SchematicFieldValueV,
    SchemaError,
> {
    match r {
        Ok(v) => Ok(v@),
        Err(e) => Err(e),
    }
}

impl SchematicFieldType {
    /// Convert an external value into this column type's internal form:
    /// exactly `parse_value_spec`, for every type. A `URL` column accepts
    /// precisely the texts the URL parser accepts, stored normalized.
    pub fn parse_value(self, received: SimpleValue) -> (r: Result<SchematicFieldValue, SchemaError>)
        ensures
            result_view(r) == parse_value_spec(self, received@),
    {
        match self {
            SchematicFieldType::Text | SchematicFieldType::RichContent
                | SchematicFieldType::RichText => match received {
                SimpleValue::Text(s) => Ok(SchematicFieldValue::Text(s)),
                _ => Err(SchemaError::TypeMismatch),
            },
            SchematicFieldType::Number => match received {
                SimpleValue::Number(n) => Ok(SchematicFieldValue::Number(n)),
                _ => Err(SchemaError::TypeMismatch),
            },
            SchematicFieldType::URL => match received {
                SimpleValue::Text(s) => match parse_url(s.as_str()) {
                    Some(u) => Ok(SchematicFieldValue::Url(u)),
                    None => Err(SchemaError::ParseFailure),
                },
                _ => Err(SchemaError::TypeMismatch),
            },
            SchematicFieldType::Email => match received {
                SimpleValue::Text(s) => Ok(SchematicFieldValue::Email(s)),
                _ => Err(SchemaError::TypeMismatch),
            },
            SchematicFieldType::Phone => match received {
                SimpleValue::Text(s) => Ok(SchematicFieldValue::Phone(s)),
                _ => Err(SchemaError::TypeMismatch),
            },
            SchematicFieldType::Address => match received {
                SimpleValue::Text(s) => Ok(SchematicFieldValue::Address(s)),
                _ => Err(SchemaError::TypeMismatch),
            },
            SchematicFieldType::Boolean => match received {
                SimpleValue::Boolean(b) => Ok(SchematicFieldValue::Boolean(b)),
                SimpleValue::Text(s) => match parse_bool_text(s.as_str()) {
                    Some(b) => Ok(SchematicFieldValue::Boolean(b)),
                    None => Err(SchemaError::ParseFailure),
                },
                _ => Err(SchemaError::TypeMismatch),
            },
            SchematicFieldType::DateTime => match received {
                SimpleValue::DateTime(d) => Ok(SchematicFieldValue::DateTime(d)),
                SimpleValue::Text(s) => match parse_datetime(s.as_str()) {
                    Some(d) => Ok(SchematicFieldValue::DateTime(d)),
                    None => Err(SchemaError::ParseFailure),
                },
                _ => Err(SchemaError::TypeMismatch),
            },
            SchematicFieldType::Date => match received {
                SimpleValue::Date(d) => Ok(SchematicFieldValue::Date(d)),
                SimpleValue::Text(s) => match parse_date(s.as_str()) {
                    Some(d) => Ok(SchematicFieldValue::Date(d)),
                    None => Err(SchemaError::ParseFailure),
                },
                _ => Err(SchemaError::TypeMismatch),
            },
            SchematicFieldType::Time => match received {
                SimpleValue::Time(t) => Ok(SchematicFieldValue::Time(t)),
                SimpleValue::Text(s) => match parse_time(s.as_str()) {
                    Some(t) => Ok(SchematicFieldValue::Time(t)),
                    None => Err(SchemaError::ParseFailure),
                },
                _ => Err(SchemaError::TypeMismatch),
            },
            SchematicFieldType::Reference | SchematicFieldType::Document
                | SchematicFieldType::Image | SchematicFieldType::Video
                | SchematicFieldType::Audio => match received {
                SimpleValue::Text(s) => if check_canonical_uuid(s.as_str()) {
                    Ok(SchematicFieldValue::Reference(s))
                } else {
                    Err(SchemaError::ParseFailure)
                },
                _ => Err(SchemaError::TypeMismatch),
            },
            SchematicFieldType::MultiReference | SchematicFieldType::MediaGallery
                | SchematicFieldType::MultiDocument => match received {
                SimpleValue::ListString(items) => {
                    let mut i: usize = 0;
                    let n = items.len();
                    while i < n
                        invariant
                            n == items@.len(),
                            0 <= i <= n,
                            self is MultiReference || self is MediaGallery
                                || self is MultiDocument,
                            received@ == SimpleValueV::ListString(items.deep_view()),
                            forall|j: int|
                                0 <= j < i ==> is_canonical_uuid(#[trigger] items.deep_view()[j]),
                        decreases n - i,
                    {
                        if !check_canonical_uuid(items[i].as_str()) {
                            proof {
                                assert(items.deep_view()[i as int] == items@[i as int]@);
                                assert(!all_canonical_uuids(items.deep_view()));
                            }
                            return Err(SchemaError::ParseFailure);
                        }
                        proof {
                            assert(items.deep_view()[i as int] == items@[i as int]@);
                        }
                        i = i + 1;
                    }
                    Ok(SchematicFieldValue::MultiReference(items))
                },
                _ => Err(SchemaError::TypeMismatch),
            },
            SchematicFieldType::Tags => match received {
                SimpleValue::ListNumber(items) => {
                    let mut ids: Vec<i64> = Vec::new();
                    let n = items.len();
                    let mut i: usize = 0;
                    while i < n
                        invariant
                            n == items@.len(),
                            0 <= i <= n,
                            ids@ =~= items@.subrange(0, i as int).map_values(
                                |x: Number| num_i64(x),
                            ),
                        decreases n - i,
                    {
                        let id: i64 = match items[i] {
                            Number::Byte(b) => b as i64,
                            Number::Integer(v) => v,
                        };
                        ids.push(id);
                        proof {
                            assert(items@.subrange(0, i + 1).drop_last() =~= items@.subrange(
                                0,
                                i as int,
                            ));
                            assert(ids@ =~= items@.subrange(0, i + 1).map_values(
                                |x: Number| num_i64(x),
                            ));
                        }
                        i = i + 1;
                    }
                    proof {
                        assert(items@.subrange(0, n as int) =~= items@);
                    }
                    Ok(SchematicFieldValue::Tags(ids))
                },
                _ => Err(SchemaError::TypeMismatch),
            },
            SchematicFieldType::Array => match received {
                SimpleValue::ArrayUnknown(items) => Ok(SchematicFieldValue::Array(items)),
                _ => Err(SchemaError::TypeMismatch),
            },
            SchematicFieldType::Object => match received {
                SimpleValue::ObjectUnknown(o) => Ok(SchematicFieldValue::Object(o)),
                _ => Err(SchemaError::TypeMismatch),
            },
        }
    }
}

/// The external image of a stored value, as a record read emits it.
pub open spec fn external_of_spec(v: SchematicFieldValueV) -> SimpleValueV {
    match v {
        SchematicFieldValueV::Text(s) => SimpleValueV::Text(s),
        SchematicFieldValueV::Number(n) => SimpleValueV::Number(n),
        SchematicFieldValueV::Boolean(b) => SimpleValueV::Boolean(b),
        SchematicFieldValueV::Url(s) => SimpleValueV::Text(s),
        SchematicFieldValueV::Email(s) => SimpleValueV::Text(s),
        SchematicFieldValueV::Phone(s) => SimpleValueV::Text(s),
        SchematicFieldValueV::Address(s) => SimpleValueV::Text(s),
        SchematicFieldValueV::DateTime(d) => SimpleValueV::DateTime(d),
        SchematicFieldValueV::Date(d) => SimpleValueV::Date(d),
        SchematicFieldValueV::Time(t) => SimpleValueV::Time(t),
        SchematicFieldValueV::Reference(s) => SimpleValueV::Text(s),
        SchematicFieldValueV::MultiReference(v) => SimpleValueV::ListString(v),
        SchematicFieldValueV::ListString(v) => SimpleValueV::ListString(v),
        SchematicFieldValueV::ListNumber(v) => SimpleValueV::ListNumber(v),
        SchematicFieldValueV::Tags(ids) => SimpleValueV::ListNumber(
            ids.map_values(|i: i64| Number::Integer(i)),
        ),
        SchematicFieldValueV::Array(a) => SimpleValueV::ArrayUnknown(a),
        SchematicFieldValueV::Object(o) => SimpleValueV::ObjectUnknown(o),
    }
}

/// The canonical external shape for a column type: the one shape of
/// `SimpleValue` whose values convert and read back unchanged.
pub open spec fn shape_matches(t: SchematicFieldType, v: SimpleValueV) -> bool {
    match t {
        SchematicFieldType::Text | SchematicFieldType::RichContent | SchematicFieldType::RichText
            | SchematicFieldType::Email | SchematicFieldType::Phone
            | SchematicFieldType::Address => v is Text,
        SchematicFieldType::URL => v is Text,
        SchematicFieldType::Number => v is Number,
        SchematicFieldType::Boolean => v is Boolean,
        SchematicFieldType::DateTime => v is DateTime,
        SchematicFieldType::Date => v is Date,
        SchematicFieldType::Time => v is Time,
        SchematicFieldType::Reference | SchematicFieldType::Document | SchematicFieldType::Image
            | SchematicFieldType::Video | SchematicFieldType::Audio => v matches SimpleValueV::Text(
            s,
        ) && is_canonical_uuid(s),
        SchematicFieldType::MultiReference | SchematicFieldType::MediaGallery
            | SchematicFieldType::MultiDocument => v matches SimpleValueV::ListString(items)
            && all_canonical_uuids(items),
        SchematicFieldType::Tags => v matches SimpleValueV::ListNumber(items) && (forall|i: int|
            0 <= i < items.len() ==> #[trigger] items[i] is Integer),
        SchematicFieldType::Array => v is ArrayUnknown,
        SchematicFieldType::Object => v is ObjectUnknown,
    }
}

/// Round-trip: a value in the canonical external shape for its column
/// type, once converted, stored and read back out, is exactly the value
/// that went in. This holds for every type whose conversion the engine
/// itself decides: `URL` stays out, because the URL parser stores the
/// normalized serialization rather than the caller's spelling; and a
/// `Tags` value round-trips as its resolved id list, so byte-sized
/// numbers come back as plain integers and textual name lists are out.
pub proof fn lemma_value_round_trip(t: SchematicFieldType, v: SimpleValueV)
    requires
        !(t is URL),
        shape_matches(t, v),
    ensures
        parse_value_spec(t, v) is Ok,
        external_of_spec(parse_value_spec(t, v)->Ok_0) == v,
{
    match t {
        SchematicFieldType::Tags => {
            match v {
                SimpleValueV::ListNumber(items) => {
                    let ids = items.map_values(|n: Number| num_i64(n));
                    let back = ids.map_values(|i: i64| Number::Integer(i));
                    assert forall|i: int| 0 <= i < items.len() implies back[i] == items[i] by {
                        assert(items[i] is Integer);
                    }
                    assert(back =~= items);
                },
                _ => {},
            }
        },
        _ => {},
    }
}

/// Clone one string, keeping its characters.
pub(crate) fn clone_str(s: &String) -> (r: String)
    ensures
        r@ == s@,
{
    s.clone()
}

/// Clone a list of strings, keeping every element's characters.
fn clone_string_vec(v: &Vec<String>) -> (r: Vec<String>)
    ensures
        r.deep_view() == v.deep_view(),
{
    let mut out: Vec<String> = Vec::new();
    let n = v.len();
    let mut i: usize = 0;
    while i < n
        invariant
            n == v@.len(),
            0 <= i <= n,
            out@.len() == i,
            forall|j: int| 0 <= j < i ==> out.deep_view()[j] == v.deep_view()[j],
        decreases n - i,
    {
        out.push(v[i].clone());
        i = i + 1;
    }
    proof {
        assert(out.deep_view() =~= v.deep_view());
    }
    out
}

/// Clone a list of opaque JSON values, keeping every element.
fn clone_json_vec(v: &Vec<serde_json::Value>) -> (r: Vec<serde_json::Value>)
    ensures
        r@ == v@,
{
    let mut out: Vec<serde_json::Value> = Vec::new();
    let n = v.len();
    let mut i: usize = 0;
    while i < n
        invariant
            n == v@.len(),
            0 <= i <= n,
            out@ =~= v@.subrange(0, i as int),
        decreases n - i,
    {
        out.push(v[i].clone());
        proof {
            assert(out@ =~= v@.subrange(0, i + 1));
        }
        i = i + 1;
    }
    proof {
        assert(v@.subrange(0, n as int) =~= v@);
    }
    out
}

/// Read a stored value back out in its external shape.
pub fn external_of(v: &SchematicFieldValue) -> (r: SimpleValue)
    ensures
        r@ == external_of_spec(v@),
{
    match v {
        SchematicFieldValue::Text(s) => SimpleValue::Text(clone_str(s)),
        SchematicFieldValue::Number(n) => SimpleValue::Number(*n),
        SchematicFieldValue::Boolean(b) => SimpleValue::Boolean(*b),
        SchematicFieldValue::Url(s) => SimpleValue::Text(clone_str(s)),
        SchematicFieldValue::Email(s) => SimpleValue::Text(clone_str(s)),
        SchematicFieldValue::Phone(s) => SimpleValue::Text(clone_str(s)),
        SchematicFieldValue::Address(s) => SimpleValue::Text(clone_str(s)),
        SchematicFieldValue::DateTime(d) => SimpleValue::DateTime(*d),
        SchematicFieldValue::Date(d) => SimpleValue::Date(*d),
        SchematicFieldValue::Time(t) => SimpleValue::Time(*t),
        SchematicFieldValue::Reference(s) => SimpleValue::Text(clone_str(s)),
        SchematicFieldValue::MultiReference(items) => SimpleValue::ListString(
            clone_string_vec(items),
        ),
        SchematicFieldValue::ListString(items) => SimpleValue::ListString(clone_string_vec(items)),
        SchematicFieldValue::ListNumber(items) => {
            let mut out: Vec<Number> = Vec::new();
            let n = items.len();
            let mut i: usize = 0;
            while i < n
                invariant
                    n == items@.len(),
                    0 <= i <= n,
                    out@ =~= items@.subrange(0, i as int),
                decreases n - i,
            {
                out.push(items[i]);
                proof {
                    assert(out@ =~= items@.subrange(0, i + 1));
                }
                i = i + 1;
            }
            proof {
                assert(items@.subrange(0, n as int) =~= items@);
            }
            SimpleValue::ListNumber(out)
        },
        SchematicFieldValue::Tags(ids) => {
            let mut out: Vec<Number> = Vec::new();
            let n = ids.len();
            let mut i: usize = 0;
            while i < n
                invariant
                    n == ids@.len(),
                    0 <= i <= n,
                    out@ =~= ids@.subrange(0, i as int).map_values(|x: i64| Number::Integer(x)),
                decreases n - i,
            {
                out.push(Number::Integer(ids[i]));
                proof {
                    assert(ids@.subrange(0, i + 1).drop_last() =~= ids@.subrange(0, i as int));
                    assert(out@ =~= ids@.subrange(0, i + 1).map_values(
                        |x: i64| Number::Integer(x),
                    ));
                }
                i = i + 1;
            }
            proof {
                assert(ids@.subrange(0, n as int) =~= ids@);
            }
            SimpleValue::ListNumber(out)
        },
        SchematicFieldValue::Array(items) => SimpleValue::ArrayUnknown(clone_json_vec(items)),
        SchematicFieldValue::Object(o) => SimpleValue::ObjectUnknown(o.clone()),
    }
}

/// Clone an external value, keeping its ghost image.
pub fn clone_simple_value(v: &SimpleValue) -> (r: SimpleValue)
    ensures
        r@ == v@,
{
    match v {
        SimpleValue::Text(s) => SimpleValue::Text(clone_str(s)),
        SimpleValue::Number(n) => SimpleValue::Number(*n),
        SimpleValue::Boolean(b) => SimpleValue::Boolean(*b),
        SimpleValue::DateTime(d) => SimpleValue::DateTime(*d),
        SimpleValue::Date(d) => SimpleValue::Date(*d),
        SimpleValue::Time(t) => SimpleValue::Time(*t),
        SimpleValue::ListString(items) => SimpleValue::ListString(clone_string_vec(items)),
        SimpleValue::ListNumber(items) => {
            let mut out: Vec<Number> = Vec::new();
            let n = items.len();
            let mut i: usize = 0;
            while i < n
                invariant
                    n == items@.len(),
                    0 <= i <= n,
                    out@ =~= items@.subrange(0, i as int),
                decreases n - i,
            {
                out.push(items[i]);
                proof {
                    assert(out@ =~= items@.subrange(0, i + 1));
                }
                i = i + 1;
            }
            proof {
                assert(items@.subrange(0, n as int) =~= items@);
            }
            SimpleValue::ListNumber(out)
        },
        SimpleValue::ArrayUnknown(items) => SimpleValue::ArrayUnknown(clone_json_vec(items)),
        SimpleValue::ObjectUnknown(o) => SimpleValue::ObjectUnknown(o.clone()),
    }
}

/// Clone a stored value, keeping its ghost image.
pub fn clone_field_value(v: &SchematicFieldValue) -> (r: SchematicFieldValue)
    ensures
        r@ == v@,
{
    match v {
        SchematicFieldValue::Text(s) => SchematicFieldValue::Text(clone_str(s)),
        SchematicFieldValue::Number(n) => SchematicFieldValue::Number(*n),
        SchematicFieldValue::Boolean(b) => SchematicFieldValue::Boolean(*b),
        SchematicFieldValue::Url(s) => SchematicFieldValue::Url(clone_str(s)),
        SchematicFieldValue::Email(s) => SchematicFieldValue::Email(clone_str(s)),
        SchematicFieldValue::Phone(s) => SchematicFieldValue::Phone(clone_str(s)),
        SchematicFieldValue::Address(s) => SchematicFieldValue::Address(clone_str(s)),
        SchematicFieldValue::DateTime(d) => SchematicFieldValue::DateTime(*d),
        SchematicFieldValue::Date(d) => SchematicFieldValue::Date(*d),
        SchematicFieldValue::Time(t) => SchematicFieldValue::Time(*t),
        SchematicFieldValue::Reference(s) => SchematicFieldValue::Reference(clone_str(s)),
        SchematicFieldValue::MultiReference(items) => SchematicFieldValue::MultiReference(
            clone_string_vec(items),
        ),
        SchematicFieldValue::ListString(items) => SchematicFieldValue::ListString(
            clone_string_vec(items),
        ),
        SchematicFieldValue::ListNumber(items) => {
            let mut out: Vec<Number> = Vec::new();
            let n = items.len();
            let mut i: usize = 0;
            while i < n
                invariant
                    n == items@.len(),
                    0 <= i <= n,
                    out@ =~= items@.subrange(0, i as int),
                decreases n - i,
            {
                out.push(items[i]);
                proof {
                    assert(out@ =~= items@.subrange(0, i + 1));
                }
                i = i + 1;
            }
            proof {
                assert(items@.subrange(0, n as int) =~= items@);
            }
            SchematicFieldValue::ListNumber(out)
        },
        SchematicFieldValue::Tags(ids) => {
            let mut out: Vec<i64> = Vec::new();
            let n = ids.len();
            let mut i: usize = 0;
            while i < n
                invariant
                    n == ids@.len(),
                    0 <= i <= n,
                    out@ =~= ids@.subrange(0, i as int),
                decreases n - i,
            {
                out.push(ids[i]);
                proof {
                    assert(out@ =~= ids@.subrange(0, i + 1));
                }
                i = i + 1;
            }
            proof {
                assert(ids@.subrange(0, n as int) =~= ids@);
            }
            SchematicFieldValue::Tags(out)
        },
        SchematicFieldValue::Array(items) => SchematicFieldValue::Array(clone_json_vec(items)),
        SchematicFieldValue::Object(o) => SchematicFieldValue::Object(o.clone()),
    }
}

} // verus!
