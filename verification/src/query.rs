//! The dynamic query engine: filtered, sorted, paginated reads over the
//! heterogeneous per-type storage. A filter names a field, a condition
//! and a value; the field resolves through the schema to its storage
//! partition, the stored value is compared there, and rows without a
//! value for a filtered field never match. Filters on different fields
//! are ANDed; sorting takes zero or one field; pagination is a plain
//! offset and limit over the ordered result.
use vstd::prelude::*;

use crate::SchemaError;
use crate::dates::{datetime_before, datetime_lt, date_before, date_lt, time_before, time_lt,
    parse_date, parse_date_spec, parse_datetime, parse_datetime_spec, parse_time, parse_time_spec};
use crate::fields::{DefaultSort, SchematicFieldType, SortOrder};
use crate::records::{SchemaDataModel, lookup_value, record_wf};
use crate::schema::{SchemaModel, field_at, has_field, schema_wf};
use crate::text::{
    lex_lt, parse_i64, parse_i64_spec, seq_contains, str_contains, str_eq, str_lex_lt,
};
use crate::values::{Number, SchematicFieldValue, SchematicFieldValueV, num_val};

verus! {

/// The condition of one filter clause.
#[derive(Clone, Copy, PartialEq, Eq, Structural, Debug)]
pub enum FilterConditionType {
    /// Substring match.
    Cont,
    /// Substring non-match.
    Dnc,
    Eq,
    Neq,
    Gte,
    Gt,
    Lte,
    Lt,
    /// Inclusive range; needs a range value.
    Between,
}

/// The value a filter compares against.
#[derive(Debug)]
pub enum FilterValue {
    Text(String),
    Number(Number),
    Range((Number, Number)),
}

/// The ghost image of a filter value.
pub enum FilterValueV {
    Text(Seq<char>),
    Number(Number),
    Range((Number, Number)),
}

impl View for FilterValue {
    type V = FilterValueV;

    open spec fn view(&self) -> FilterValueV {
        match self {
            FilterValue::Text(s) => FilterValueV::Text(s@),
            FilterValue::Number(n) => FilterValueV::Number(*n),
            FilterValue::Range(r) => FilterValueV::Range(*r),
        }
    }
}

impl FilterValue {
    /// Whether this value is a two-ended range.
    pub fn is_range(&self) -> (r: bool)
        ensures
            r == (self@ is Range),
    {
        matches!(self, FilterValue::Range(_))
    }
}

/// One filter clause: a field name, a condition, and a value.
#[derive(Debug)]
pub struct Filter {
    pub name: String,
    pub cond: FilterConditionType,
    pub value: FilterValue,
}

/// A textual filter value against a column declared `Number` is re-read
/// as an integer when it parses as one; anything else is left as it came.
pub open spec fn coerce_spec(t: SchematicFieldType, v: FilterValueV) -> FilterValueV {
    if t is Number {
        match v {
            FilterValueV::Text(s) => match parse_i64_spec(s) {
                Some(n) => FilterValueV::Number(Number::Integer(n)),
                None => v,
            },
            _ => v,
        }
    } else {
        v
    }
}

/// The text carried by a string-valued stored value, if it is one.
pub open spec fn stored_text(v: SchematicFieldValueV) -> Option<Seq<char>> {
    match v {
        SchematicFieldValueV::Text(s) => Some(s),
        SchematicFieldValueV::Url(s) => Some(s),
        SchematicFieldValueV::Email(s) => Some(s),
        SchematicFieldValueV::Phone(s) => Some(s),
        SchematicFieldValueV::Address(s) => Some(s),
        SchematicFieldValueV::Reference(s) => Some(s),
        _ => None,
    }
}

/// A stored value equals a filter value: texts character for character,
/// numbers numerically, booleans against the words `true` and `false`,
/// calendar values against their fixed textual forms. Values of unlike
/// kinds are never equal.
pub open spec fn val_eq(v: SchematicFieldValueV, fv: FilterValueV) -> bool {
    match fv {
        FilterValueV::Text(s) => match v {
            SchematicFieldValueV::Boolean(b) => (b && s == "true"@) || (!b && s == "false"@),
            SchematicFieldValueV::DateTime(d) => parse_datetime_spec(s) == Some(d),
            SchematicFieldValueV::Date(d) => parse_date_spec(s) == Some(d),
            SchematicFieldValueV::Time(t) => parse_time_spec(s) == Some(t),
            _ => stored_text(v) == Some(s),
        },
        FilterValueV::Number(m) => match v {
            SchematicFieldValueV::Number(n) => num_val(n) == num_val(m),
            _ => false,
        },
        FilterValueV::Range(_) => false,
    }
}

/// A stored value is strictly below a filter value: texts
/// lexicographically, numbers numerically, calendar values
/// chronologically against the parsed text. Unlike kinds never compare.
pub open spec fn val_lt(v: SchematicFieldValueV, fv: FilterValueV) -> bool {
    match fv {
        FilterValueV::Text(s) => match v {
            SchematicFieldValueV::DateTime(d) => match parse_datetime_spec(s) {
                Some(p) => datetime_lt(d, p),
                None => false,
            },
            SchematicFieldValueV::Date(d) => match parse_date_spec(s) {
                Some(p) => date_lt(d, p),
                None => false,
            },
            SchematicFieldValueV::Time(t) => match parse_time_spec(s) {
                Some(p) => time_lt(t, p),
                None => false,
            },
            _ => match stored_text(v) {
                Some(t) => lex_lt(t, s),
                None => false,
            },
        },
        FilterValueV::Number(m) => match v {
            SchematicFieldValueV::Number(n) => num_val(n) < num_val(m),
            _ => false,
        },
        FilterValueV::Range(_) => false,
    }
}

/// A stored value is strictly above a filter value.
pub open spec fn val_gt(v: SchematicFieldValueV, fv: FilterValueV) -> bool {
    match fv {
        FilterValueV::Text(s) => match v {
            SchematicFieldValueV::DateTime(d) => match parse_datetime_spec(s) {
                Some(p) => datetime_lt(p, d),
                None => false,
            },
            SchematicFieldValueV::Date(d) => match parse_date_spec(s) {
                Some(p) => date_lt(p, d),
                None => false,
            },
            SchematicFieldValueV::Time(t) => match parse_time_spec(s) {
                Some(p) => time_lt(p, t),
                None => false,
            },
            _ => match stored_text(v) {
                Some(t) => lex_lt(s, t),
                None => false,
            },
        },
        FilterValueV::Number(m) => match v {
            SchematicFieldValueV::Number(n) => num_val(n) > num_val(m),
            _ => false,
        },
        FilterValueV::Range(_) => false,
    }
}

/// Whether a stored value satisfies one condition against a filter value.
/// Substring conditions apply to string-valued fields with textual filter
/// values; `Between` holds for a number inside an inclusive range.
pub open spec fn cond_matches(
    v: SchematicFieldValueV,
    cond: FilterConditionType,
    fv: FilterValueV,
) -> bool {
    match cond {
        FilterConditionType::Cont => match (stored_text(v), fv) {
            (Some(t), FilterValueV::Text(s)) => seq_contains(t, s),
            _ => false,
        },
        FilterConditionType::Dnc => match (stored_text(v), fv) {
            (Some(t), FilterValueV::Text(s)) => !seq_contains(t, s),
            _ => false,
        },
        FilterConditionType::Eq => val_eq(v, fv),
        FilterConditionType::Neq => !val_eq(v, fv),
        FilterConditionType::Gte => val_gt(v, fv) || val_eq(v, fv),
        FilterConditionType::Gt => val_gt(v, fv),
        FilterConditionType::Lte => val_lt(v, fv) || val_eq(v, fv),
        FilterConditionType::Lt => val_lt(v, fv),
        FilterConditionType::Between => match fv {
            FilterValueV::Range((a, b)) => match v {
                SchematicFieldValueV::Number(n) => num_val(a) <= num_val(n) <= num_val(b),
                _ => false,
            },
            _ => false,
        },
    }
}

/// The record metadata a filter on one of the four reserved keys
/// compares against: the public identifier as text, the fixed owner
/// placeholder, or a timestamp.
pub open spec fn reserved_meta_value(rec: SchemaDataModel, key: Seq<char>) -> Option<
    SchematicFieldValueV,
> {
    if key == "_id"@ {
        Some(SchematicFieldValueV::Text(rec.public_id@))
    } else if key == "_owner"@ {
        Some(SchematicFieldValueV::Text(crate::records::owner_placeholder()))
    } else if key == "_createdAt"@ {
        Some(SchematicFieldValueV::DateTime(rec.created_at))
    } else if key == "_updatedAt"@ {
        Some(SchematicFieldValueV::DateTime(rec.updated_at))
    } else {
        None
    }
}

/// Whether one filter accepts a row: the field must resolve through the
/// schema; a reserved key compares against the record's metadata, any
/// other against the row's value in the field's partition, absent values
/// never matching; the value must satisfy the condition against the
/// (coerced) filter value.
pub open spec fn one_filter_matches(schema: SchemaModel, rec: SchemaDataModel, f: Filter) -> bool {
    &&& has_field(schema.fields@, f.name@)
    &&& {
        let fld = field_at(schema.fields@, f.name@);
        let stored = match reserved_meta_value(rec, f.name@) {
            Some(v) => Some(v),
            None => lookup_value(rec.partitions@, fld.field_type, f.name@),
        };
        match stored {
            Some(v) => cond_matches(v, f.cond, coerce_spec(fld.field_type, f.value@)),
            None => false,
        }
    }
}

/// Whether every filter accepts the row.
pub open spec fn row_matches(schema: SchemaModel, rec: SchemaDataModel, filters: Seq<
    Filter,
>) -> bool {
    forall|i: int| 0 <= i < filters.len() ==> one_filter_matches(schema, rec, #[trigger] filters[i])
}

/// A row belongs to the query's ground set: it is a live row of this
/// schema that every filter accepts.
pub open spec fn row_selected(schema: SchemaModel, rec: SchemaDataModel, filters: Seq<
    Filter,
>) -> bool {
    rec.schema_id == schema.id && rec.deleted_at is None && row_matches(schema, rec, filters)
}

/// The rows a query selects, in storage order.
pub open spec fn matching_rows(
    records: Seq<SchemaDataModel>,
    schema: SchemaModel,
    filters: Seq<Filter>,
) -> Seq<SchemaDataModel>
    decreases records.len(),
{
    if records.len() == 0 {
        Seq::empty()
    } else {
        matching_rows(records.drop_last(), schema, filters) + if row_selected(
            schema,
            records.last(),
            filters,
        ) {
            seq![records.last()]
        } else {
            Seq::empty()
        }
    }
}

/// The first error among the filters from position `i` on: an unknown or
/// deleted field, or a `Between` without a range value.
pub open spec fn filters_check_from(schema: SchemaModel, filters: Seq<Filter>, i: int) -> Option<
    SchemaError,
>
    decreases filters.len() - i,
{
    if i < 0 || i >= filters.len() {
        None
    } else {
        let f = filters[i];
        if !has_field(schema.fields@, f.name@) || field_at(schema.fields@, f.name@).is_deleted {
            Some(SchemaError::FieldNotFound)
        } else if f.cond is Between && !(f.value@ is Range) {
            Some(SchemaError::UnsupportedFilter)
        } else {
            filters_check_from(schema, filters, i + 1)
        }
    }
}

/// The first error among the filters, in order.
pub open spec fn filters_check(schema: SchemaModel, filters: Seq<Filter>) -> Option<SchemaError> {
    filters_check_from(schema, filters, 0)
}

/// Decide one condition against a stored value.
pub fn eval_cond(v: &SchematicFieldValue, cond: FilterConditionType, fv: &FilterValue) -> (r: bool)
    ensures
        r == cond_matches(v@, cond, fv@),
{
    match cond {
        FilterConditionType::Cont | FilterConditionType::Dnc => {
            let hit = match (text_of(v), fv) {
                (Some(t), FilterValue::Text(s)) => str_contains(t.as_str(), s.as_str()),
                _ => false,
            };
            match cond {
                FilterConditionType::Cont => hit,
                _ => match (text_of(v), fv) {
                    (Some(_), FilterValue::Text(_)) => !hit,
                    _ => false,
                },
            }
        },
        FilterConditionType::Eq => eval_eq(v, fv),
        FilterConditionType::Neq => !eval_eq(v, fv),
        FilterConditionType::Gte => eval_gt(v, fv) || eval_eq(v, fv),
        FilterConditionType::Gt => eval_gt(v, fv),
        FilterConditionType::Lte => eval_lt(v, fv) || eval_eq(v, fv),
        FilterConditionType::Lt => eval_lt(v, fv),
        FilterConditionType::Between => match fv {
            FilterValue::Range((a, b)) => match v {
                SchematicFieldValue::Number(n) => {
                    let nv = num_value(*n);
                    num_value(*a) <= nv && nv <= num_value(*b)
                },
                _ => false,
            },
            _ => false,
        },
    }
}

/// The numeric value of a `Number`, wide enough for both variants.
fn num_value(n: Number) -> (r: i64)
    ensures
        r == num_val(n),
{
    match n {
        Number::Byte(b) => b as i64,
        Number::Integer(i) => i,
    }
}

/// Borrow the text of a string-valued stored value.
fn text_of(v: &SchematicFieldValue) -> (r: Option<&String>)
    ensures
        match r {
            Some(s) => stored_text(v@) == Some(s@),
            None => stored_text(v@) is None,
        },
{
    match v {
        SchematicFieldValue::Text(s) => Some(s),
        SchematicFieldValue::Url(s) => Some(s),
        SchematicFieldValue::Email(s) => Some(s),
        SchematicFieldValue::Phone(s) => Some(s),
        SchematicFieldValue::Address(s) => Some(s),
        SchematicFieldValue::Reference(s) => Some(s),
        _ => None,
    }
}

/// Decide equality of a stored value and a filter value.
fn eval_eq(v: &SchematicFieldValue, fv: &FilterValue) -> (r: bool)
    ensures
        r == val_eq(v@, fv@),
{
    match fv {
        FilterValue::Text(s) => match v {
            SchematicFieldValue::Boolean(b) => {
                if *b {
                    str_eq(s.as_str(), "true")
                } else {
                    str_eq(s.as_str(), "false")
                }
            },
            SchematicFieldValue::DateTime(d) => match parse_datetime(s.as_str()) {
                Some(p) => p == *d,
                None => false,
            },
            SchematicFieldValue::Date(d) => match parse_date(s.as_str()) {
                Some(p) => p == *d,
                None => false,
            },
            SchematicFieldValue::Time(t) => match parse_time(s.as_str()) {
                Some(p) => p == *t,
                None => false,
            },
            _ => match text_of(v) {
                Some(t) => str_eq(t.as_str(), s.as_str()),
                None => false,
            },
        },
        FilterValue::Number(m) => match v {
            SchematicFieldValue::Number(n) => num_value(*n) == num_value(*m),
            _ => false,
        },
        FilterValue::Range(_) => false,
    }
}

/// Decide whether a stored value is strictly below a filter value.
fn eval_lt(v: &SchematicFieldValue, fv: &FilterValue) -> (r: bool)
    ensures
        r == val_lt(v@, fv@),
{
    match fv {
        FilterValue::Text(s) => match v {
            SchematicFieldValue::DateTime(d) => match parse_datetime(s.as_str()) {
                Some(p) => datetime_before(*d, p),
                None => false,
            },
            SchematicFieldValue::Date(d) => match parse_date(s.as_str()) {
                Some(p) => date_before(*d, p),
                None => false,
            },
            SchematicFieldValue::Time(t) => match parse_time(s.as_str()) {
                Some(p) => time_before(*t, p),
                None => false,
            },
            _ => match text_of(v) {
                Some(t) => str_lex_lt(t.as_str(), s.as_str()),
                None => false,
            },
        },
        FilterValue::Number(m) => match v {
            SchematicFieldValue::Number(n) => num_value(*n) < num_value(*m),
            _ => false,
        },
        FilterValue::Range(_) => false,
    }
}

/// Decide whether a stored value is strictly above a filter value.
fn eval_gt(v: &SchematicFieldValue, fv: &FilterValue) -> (r: bool)
    ensures
        r == val_gt(v@, fv@),
{
    match fv {
        FilterValue::Text(s) => match v {
            SchematicFieldValue::DateTime(d) => match parse_datetime(s.as_str()) {
                Some(p) => datetime_before(p, *d),
                None => false,
            },
            SchematicFieldValue::Date(d) => match parse_date(s.as_str()) {
                Some(p) => date_before(p, *d),
                None => false,
            },
            SchematicFieldValue::Time(t) => match parse_time(s.as_str()) {
                Some(p) => time_before(p, *t),
                None => false,
            },
            _ => match text_of(v) {
                Some(t) => str_lex_lt(s.as_str(), t.as_str()),
                None => false,
            },
        },
        FilterValue::Number(m) => match v {
            SchematicFieldValue::Number(n) => num_value(*n) > num_value(*m),
            _ => false,
        },
        FilterValue::Range(_) => false,
    }
}

/// Coerce a filter value for a column type, as `coerce_spec` describes.
fn coerce_value<'a>(t: SchematicFieldType, fv: &'a FilterValue) -> (r: FilterValue)
    ensures
        r@ == coerce_spec(t, fv@),
{
    match t {
        SchematicFieldType::Number => match fv {
            FilterValue::Text(s) => match parse_i64(s.as_str()) {
                Some(n) => FilterValue::Number(Number::Integer(n)),
                None => FilterValue::Text(crate::values::clone_str(s)),
            },
            FilterValue::Number(n) => FilterValue::Number(*n),
            FilterValue::Range(r) => FilterValue::Range(*r),
        },
        _ => match fv {
            FilterValue::Text(s) => FilterValue::Text(crate::values::clone_str(s)),
            FilterValue::Number(n) => FilterValue::Number(*n),
            FilterValue::Range(r) => FilterValue::Range(*r),
        },
    }
}

/// Decide one filter against a row.
pub fn eval_filter(schema: &SchemaModel, rec: &SchemaDataModel, f: &Filter) -> (r: bool)
    requires
        schema_wf(*schema),
        record_wf(*rec),
    ensures
        r == one_filter_matches(*schema, *rec, *f),
{
    match schema.find_field(f.name.as_str()) {
        None => false,
        Some(fi) => {
            proof {
                assert(has_field(schema.fields@, f.name@));
                assert(crate::schema::field_idx(schema.fields@, f.name@) == fi);
            }
            let t = schema.fields[fi].1.field_type;
            let coerced = coerce_value(t, &f.value);
            let name = f.name.as_str();
            if str_eq(name, "_id") {
                let meta = SchematicFieldValue::Text(crate::values::clone_str(&rec.public_id));
                eval_cond(&meta, f.cond, &coerced)
            } else if str_eq(name, "_owner") {
                let meta = SchematicFieldValue::Text(
                    String::from_str("00000000-0000-0000-0000-000000000000"),
                );
                eval_cond(&meta, f.cond, &coerced)
            } else if str_eq(name, "_createdAt") {
                let meta = SchematicFieldValue::DateTime(rec.created_at);
                eval_cond(&meta, f.cond, &coerced)
            } else if str_eq(name, "_updatedAt") {
                let meta = SchematicFieldValue::DateTime(rec.updated_at);
                eval_cond(&meta, f.cond, &coerced)
            } else {
                match rec.get_value(t, f.name.as_str()) {
                    Some(v) => eval_cond(v, f.cond, &coerced),
                    None => false,
                }
            }
        },
    }
}

/// What a query orders by, resolved against the schema: the record's
/// internal id, one of its timestamps, or a custom field's stored value.
pub enum SortKeySpec {
    ById,
    ByCreated,
    ByUpdated,
    ByField(SchematicFieldType, Seq<char>),
}

/// The executable form of a resolved sort key.
#[derive(Debug)]
pub enum SortKey {
    ById,
    ByCreated,
    ByUpdated,
    ByField(SchematicFieldType, String),
}

/// The ghost image of a resolved sort key.
pub open spec fn sort_key_view(k: SortKey) -> SortKeySpec {
    match k {
        SortKey::ById => SortKeySpec::ById,
        SortKey::ByCreated => SortKeySpec::ByCreated,
        SortKey::ByUpdated => SortKeySpec::ByUpdated,
        SortKey::ByField(t, s) => SortKeySpec::ByField(t, s@),
    }
}

/// Strict order of two stored values under a sort: numbers numerically,
/// texts lexicographically, false before true, calendar values
/// chronologically. Values of unlike or list kinds tie.
pub open spec fn key_lt(x: SchematicFieldValueV, y: SchematicFieldValueV) -> bool {
    match (x, y) {
        (SchematicFieldValueV::Number(a), SchematicFieldValueV::Number(b)) => num_val(a) < num_val(
            b,
        ),
        (SchematicFieldValueV::Boolean(a), SchematicFieldValueV::Boolean(b)) => !a && b,
        (SchematicFieldValueV::DateTime(a), SchematicFieldValueV::DateTime(b)) => datetime_lt(a, b),
        (SchematicFieldValueV::Date(a), SchematicFieldValueV::Date(b)) => date_lt(a, b),
        (SchematicFieldValueV::Time(a), SchematicFieldValueV::Time(b)) => time_lt(a, b),
        _ => match (stored_text(x), stored_text(y)) {
            (Some(a), Some(b)) => lex_lt(a, b),
            _ => false,
        },
    }
}

/// Whether row `a` must come strictly before row `b` under the sort.
/// A row without a value for the sorted field goes last either way.
pub open spec fn rec_sort_lt(
    a: SchemaDataModel,
    b: SchemaDataModel,
    sk: SortKeySpec,
    asc: bool,
) -> bool {
    match sk {
        SortKeySpec::ById => if asc {
            a.id < b.id
        } else {
            b.id < a.id
        },
        SortKeySpec::ByCreated => if asc {
            datetime_lt(a.created_at, b.created_at)
        } else {
            datetime_lt(b.created_at, a.created_at)
        },
        SortKeySpec::ByUpdated => if asc {
            datetime_lt(a.updated_at, b.updated_at)
        } else {
            datetime_lt(b.updated_at, a.updated_at)
        },
        SortKeySpec::ByField(t, key) => {
            let ka = lookup_value(a.partitions@, t, key);
            let kb = lookup_value(b.partitions@, t, key);
            match (ka, kb) {
                (Some(x), Some(y)) => if asc {
                    key_lt(x, y)
                } else {
                    key_lt(y, x)
                },
                (Some(_), None) => true,
                _ => false,
            }
        },
    }
}

/// Where a stable insertion places a new row: after every row it does
/// not strictly precede, so equal rows keep their arrival order.
pub open spec fn sorted_insert(
    s: Seq<SchemaDataModel>,
    x: SchemaDataModel,
    sk: SortKeySpec,
    asc: bool,
) -> Seq<SchemaDataModel>
    decreases s.len(),
{
    if s.len() == 0 {
        seq![x]
    } else if rec_sort_lt(x, s.last(), sk, asc) {
        sorted_insert(s.drop_last(), x, sk, asc).push(s.last())
    } else {
        s.push(x)
    }
}

/// The rows in sort order: a stable insertion sort of the selection.
pub open spec fn sort_rows(s: Seq<SchemaDataModel>, sk: SortKeySpec, asc: bool) -> Seq<
    SchemaDataModel,
>
    decreases s.len(),
{
    if s.len() == 0 {
        Seq::empty()
    } else {
        sorted_insert(sort_rows(s.drop_last(), sk, asc), s.last(), sk, asc)
    }
}

/// The page `[offset, offset + limit)` of the ordered rows, clipped to
/// what exists.
pub open spec fn page_spec(s: Seq<SchemaDataModel>, offset: int, limit: int) -> Seq<
    SchemaDataModel,
> {
    let lo = if offset > s.len() {
        s.len() as int
    } else {
        offset
    };
    let hi = if offset + limit > s.len() {
        s.len() as int
    } else {
        offset + limit
    };
    s.subrange(lo, hi)
}

/// The rows a query hands back, before pagination.
pub open spec fn ordered_rows(
    records: Seq<SchemaDataModel>,
    schema: SchemaModel,
    filters: Seq<Filter>,
    sort: Option<(SortKeySpec, bool)>,
) -> Seq<SchemaDataModel> {
    match sort {
        None => matching_rows(records, schema, filters),
        Some((sk, asc)) => sort_rows(matching_rows(records, schema, filters), sk, asc),
    }
}

/// The ghost image of an ordering request.
pub open spec fn order_view(order: Option<&DefaultSort>) -> Option<(Seq<char>, SortOrder)> {
    match order {
        None => None,
        Some(d) => Some((d.field@, d.order)),
    }
}

/// Resolve an ordering request against the schema. The named field must
/// exist; the reserved id and timestamp keys order by record metadata;
/// the owner key has no backing value and is refused; a deleted field is
/// gone for reads and is refused too.
pub open spec fn sort_check(schema: SchemaModel, order: Option<(Seq<char>, SortOrder)>) -> Result<
    Option<(SortKeySpec, bool)>,
    SchemaError,
> {
    match order {
        None => Ok(None),
        Some((name, dir)) => {
            let asc = dir is Ascending;
            if !has_field(schema.fields@, name) {
                Err(SchemaError::FieldNotFound)
            } else if name == "_id"@ {
                Ok(Some((SortKeySpec::ById, asc)))
            } else if name == "_owner"@ {
                Err(SchemaError::FieldNotFound)
            } else if name == "_createdAt"@ {
                Ok(Some((SortKeySpec::ByCreated, asc)))
            } else if name == "_updatedAt"@ {
                Ok(Some((SortKeySpec::ByUpdated, asc)))
            } else if field_at(schema.fields@, name).is_deleted {
                Err(SchemaError::FieldNotFound)
            } else {
                Ok(Some((SortKeySpec::ByField(field_at(schema.fields@, name).field_type, name), asc)))
            }
        },
    }
}

/// What a whole query request resolves to: the sort is checked first,
/// then every filter, in the order the checks run.
pub open spec fn query_check(
    schema: SchemaModel,
    filters: Seq<Filter>,
    order: Option<(Seq<char>, SortOrder)>,
) -> Result<Option<(SortKeySpec, bool)>, SchemaError> {
    match sort_check(schema, order) {
        Err(e) => Err(e),
        Ok(sort) => match filters_check(schema, filters) {
            Some(e) => Err(e),
            None => Ok(sort),
        },
    }
}

/// The values a page of references stands for.
pub open spec fn refs_view(s: Seq<&SchemaDataModel>) -> Seq<SchemaDataModel> {
    s.map_values(|x: &SchemaDataModel| *x)
}

/// Check every filter against the schema, reporting the first error.
fn check_filters(schema: &SchemaModel, filters: &Vec<Filter>) -> (r: Option<SchemaError>)
    requires
        schema_wf(*schema),
    ensures
        r == filters_check(*schema, filters@),
{
    let n = filters.len();
    let mut i: usize = 0;
    while i < n
        invariant
            schema_wf(*schema),
            n == filters@.len(),
            0 <= i <= n,
            filters_check(*schema, filters@) == filters_check_from(*schema, filters@, i as int),
        decreases n - i,
    {
        let f = &filters[i];
        match schema.find_field(f.name.as_str()) {
            None => {
                return Some(SchemaError::FieldNotFound);
            },
            Some(fi) => {
                proof {
                    assert(has_field(schema.fields@, f.name@));
                    assert(crate::schema::field_idx(schema.fields@, f.name@) == fi);
                }
                if schema.fields[fi].1.is_deleted {
                    return Some(SchemaError::FieldNotFound);
                }
            },
        }
        let is_between = matches!(f.cond, FilterConditionType::Between);
        if is_between && !f.value.is_range() {
            return Some(SchemaError::UnsupportedFilter);
        }
        i = i + 1;
    }
    None
}

/// Resolve an ordering request, as `sort_check` describes.
fn resolve_sort(schema: &SchemaModel, order: Option<&DefaultSort>) -> (r: Result<
    Option<(SortKey, bool)>,
    SchemaError,
>)
    requires
        schema_wf(*schema),
    ensures
        match r {
            Ok(s) => sort_check(*schema, order_view(order)) == Ok::<
                Option<(SortKeySpec, bool)>,
                SchemaError,
            >(
                match s {
                    Some((k, asc)) => Some((sort_key_view(k), asc)),
                    None => None,
                },
            ),
            Err(e) => sort_check(*schema, order_view(order)) == Err::<
                Option<(SortKeySpec, bool)>,
                SchemaError,
            >(e),
        },
{
    match order {
        None => Ok(None),
        Some(d) => {
            let name = d.field.as_str();
            let asc = matches!(d.order, SortOrder::Ascending);
            match schema.find_field(name) {
                None => Err(SchemaError::FieldNotFound),
                Some(fi) => {
                    proof {
                        assert(has_field(schema.fields@, name@));
                        assert(crate::schema::field_idx(schema.fields@, name@) == fi);
                    }
                    if str_eq(name, "_id") {
                        Ok(Some((SortKey::ById, asc)))
                    } else if str_eq(name, "_owner") {
                        Err(SchemaError::FieldNotFound)
                    } else if str_eq(name, "_createdAt") {
                        Ok(Some((SortKey::ByCreated, asc)))
                    } else if str_eq(name, "_updatedAt") {
                        Ok(Some((SortKey::ByUpdated, asc)))
                    } else if schema.fields[fi].1.is_deleted {
                        Err(SchemaError::FieldNotFound)
                    } else {
                        Ok(
                            Some(
                                (
                                    SortKey::ByField(
                                        schema.fields[fi].1.field_type,
                                        crate::values::clone_str(&d.field),
                                    ),
                                    asc,
                                ),
                            ),
                        )
                    }
                },
            }
        },
    }
}

/// Decide the strict sort order of two stored values.
fn key_before(x: &SchematicFieldValue, y: &SchematicFieldValue) -> (r: bool)
    ensures
        r == key_lt(x@, y@),
{
    match (x, y) {
        (SchematicFieldValue::Number(a), SchematicFieldValue::Number(b)) => num_value(*a)
            < num_value(*b),
        (SchematicFieldValue::Boolean(a), SchematicFieldValue::Boolean(b)) => !*a && *b,
        (SchematicFieldValue::DateTime(a), SchematicFieldValue::DateTime(b)) => datetime_before(
            *a,
            *b,
        ),
        (SchematicFieldValue::Date(a), SchematicFieldValue::Date(b)) => date_before(*a, *b),
        (SchematicFieldValue::Time(a), SchematicFieldValue::Time(b)) => time_before(*a, *b),
        _ => match (text_of(x), text_of(y)) {
            (Some(a), Some(b)) => str_lex_lt(a.as_str(), b.as_str()),
            _ => false,
        },
    }
}

/// Decide whether row `a` must come strictly before row `b`.
fn rec_before(a: &SchemaDataModel, b: &SchemaDataModel, key: &SortKey, asc: bool) -> (r: bool)
    requires
        record_wf(*a),
        record_wf(*b),
    ensures
        r == rec_sort_lt(*a, *b, sort_key_view(*key), asc),
{
    match key {
        SortKey::ById => if asc {
            a.id < b.id
        } else {
            b.id < a.id
        },
        SortKey::ByCreated => if asc {
            datetime_before(a.created_at, b.created_at)
        } else {
            datetime_before(b.created_at, a.created_at)
        },
        SortKey::ByUpdated => if asc {
            datetime_before(a.updated_at, b.updated_at)
        } else {
            datetime_before(b.updated_at, a.updated_at)
        },
        SortKey::ByField(t, name) => {
            let ka = a.get_value(*t, name.as_str());
            let kb = b.get_value(*t, name.as_str());
            match (ka, kb) {
                (Some(x), Some(y)) => if asc {
                    key_before(x, y)
                } else {
                    key_before(y, x)
                },
                (Some(_), None) => true,
                _ => false,
            }
        },
    }
}

/// A stable insertion lands exactly where the backwards scan stopped.
proof fn lemma_sorted_insert_at(
    s: Seq<SchemaDataModel>,
    x: SchemaDataModel,
    sk: SortKeySpec,
    asc: bool,
    j: int,
)
    requires
        0 <= j <= s.len(),
        forall|k: int| j <= k < s.len() ==> rec_sort_lt(x, #[trigger] s[k], sk, asc),
        j > 0 ==> !rec_sort_lt(x, s[j - 1], sk, asc),
    ensures
        sorted_insert(s, x, sk, asc) == s.insert(j, x),
    decreases s.len(),
{
    if j == s.len() {
        if s.len() == 0 {
            assert(sorted_insert(s, x, sk, asc) =~= s.insert(j, x));
        } else {
            assert(!rec_sort_lt(x, s.last(), sk, asc));
            assert(sorted_insert(s, x, sk, asc) =~= s.insert(j, x));
        }
    } else {
        assert(rec_sort_lt(x, s.last(), sk, asc));
        lemma_sorted_insert_at(s.drop_last(), x, sk, asc, j);
        assert(sorted_insert(s, x, sk, asc) == s.drop_last().insert(j, x).push(s.last()));
        assert(s.drop_last().insert(j, x).push(s.last()) =~= s.insert(j, x));
    }
}

/// Insert a row reference into an already sorted page, stably.
fn insert_sorted_ref<'a>(
    out: &mut Vec<&'a SchemaDataModel>,
    x: &'a SchemaDataModel,
    key: &SortKey,
    asc: bool,
)
    requires
        record_wf(*x),
        forall|i: int| 0 <= i < old(out)@.len() ==> record_wf(*#[trigger] old(out)@[i]),
    ensures
        refs_view(final(out)@) == sorted_insert(refs_view(old(out)@), *x, sort_key_view(*key), asc),
        forall|i: int| 0 <= i < final(out)@.len() ==> record_wf(*#[trigger] final(out)@[i]),
{
    let mut j: usize = out.len();
    loop
        invariant_except_break
            0 <= j <= out@.len(),
            record_wf(*x),
            forall|i: int| 0 <= i < out@.len() ==> record_wf(*#[trigger] out@[i]),
            *out == *old(out),
            forall|k: int|
                j <= k < out@.len() ==> rec_sort_lt(*x, *#[trigger] out@[k], sort_key_view(*key), asc),
        ensures
            0 <= j <= out@.len(),
            *out == *old(out),
            forall|k: int|
                j <= k < out@.len() ==> rec_sort_lt(*x, *#[trigger] out@[k], sort_key_view(*key), asc),
            j > 0 ==> !rec_sort_lt(*x, *out@[j - 1], sort_key_view(*key), asc),
        decreases j,
    {
        if j == 0 {
            break ;
        }
        if !rec_before(x, out[j - 1], key, asc) {
            break ;
        }
        j = j - 1;
    }
    out.insert(j, x);
    proof {
        let ov = refs_view(old(out)@);
        assert(forall|k: int|
            j <= k < ov.len() ==> rec_sort_lt(*x, #[trigger] ov[k], sort_key_view(*key), asc));
        assert(j > 0 ==> !rec_sort_lt(*x, ov[j - 1], sort_key_view(*key), asc));
        lemma_sorted_insert_at(ov, *x, sort_key_view(*key), asc, j as int);
        assert(refs_view(out@) =~= ov.insert(j as int, *x));
    }
}

/// Sorting reorders the selection without adding or losing rows.
pub proof fn lemma_sort_rows_len(s: Seq<SchemaDataModel>, sk: SortKeySpec, asc: bool)
    ensures
        sort_rows(s, sk, asc).len() == s.len(),
    decreases s.len(),
{
    if s.len() > 0 {
        lemma_sort_rows_len(s.drop_last(), sk, asc);
        lemma_sorted_insert_len(sort_rows(s.drop_last(), sk, asc), s.last(), sk, asc);
    }
}

proof fn lemma_sorted_insert_len(
    s: Seq<SchemaDataModel>,
    x: SchemaDataModel,
    sk: SortKeySpec,
    asc: bool,
)
    ensures
        sorted_insert(s, x, sk, asc).len() == s.len() + 1,
    decreases s.len(),
{
    if s.len() > 0 && rec_sort_lt(x, s.last(), sk, asc) {
        lemma_sorted_insert_len(s.drop_last(), x, sk, asc);
    }
}

/// The comparison class of a stored value: numbers, booleans, each
/// calendar kind and string-valued values each order among themselves;
/// list- and object-valued values form one unordered class.
pub open spec fn kind_class(v: SchematicFieldValueV) -> int {
    match v {
        SchematicFieldValueV::Number(_) => 0,
        SchematicFieldValueV::Boolean(_) => 1,
        SchematicFieldValueV::DateTime(_) => 2,
        SchematicFieldValueV::Date(_) => 3,
        SchematicFieldValueV::Time(_) => 4,
        _ => if stored_text(v) is Some {
            5
        } else {
            6
        },
    }
}

/// Two stored values of one comparison class.
pub open spec fn same_kind(x: SchematicFieldValueV, y: SchematicFieldValueV) -> bool {
    kind_class(x) == kind_class(y)
}

/// Two rows compare cleanly under a sort: when both carry a value for
/// the sorted field, the values are of one kind. Well-formed records of
/// one schema always satisfy this, since one partition holds one kind.
pub open spec fn keys_compatible(a: SchemaDataModel, b: SchemaDataModel, sk: SortKeySpec) -> bool {
    match sk {
        SortKeySpec::ByField(t, key) => match (
            lookup_value(a.partitions@, t, key),
            lookup_value(b.partitions@, t, key),
        ) {
            (Some(x), Some(y)) => same_kind(x, y),
            _ => true,
        },
        _ => true,
    }
}

/// The key order never puts a value before itself.
proof fn lemma_key_lt_irrefl(x: SchematicFieldValueV)
    ensures
        !key_lt(x, x),
{
    match stored_text(x) {
        Some(s) => {
            crate::text::lemma_lex_lt_irrefl(s);
        },
        None => {},
    }
}

/// The key order is asymmetric.
proof fn lemma_key_lt_asym(x: SchematicFieldValueV, y: SchematicFieldValueV)
    requires
        key_lt(x, y),
    ensures
        !key_lt(y, x),
{
    if key_lt(y, x) {
        match (stored_text(x), stored_text(y)) {
            (Some(s), Some(u)) => {
                crate::text::lemma_lex_lt_trans(s, u, s);
                crate::text::lemma_lex_lt_irrefl(s);
            },
            _ => {},
        }
    }
}

/// Not-below chains within one kind: not below and not below again is
/// not below.
proof fn lemma_key_lt_neg_trans(
    x: SchematicFieldValueV,
    y: SchematicFieldValueV,
    z: SchematicFieldValueV,
)
    requires
        same_kind(x, y),
        same_kind(y, z),
        same_kind(x, z),
        !key_lt(x, y),
        !key_lt(y, z),
    ensures
        !key_lt(x, z),
{
    if key_lt(x, z) {
        match (stored_text(x), stored_text(y), stored_text(z)) {
            (Some(sx), Some(sy), Some(sz)) => {
                crate::text::lemma_lex_lt_connex(sx, sy);
                crate::text::lemma_lex_lt_connex(sy, sz);
                if lex_lt(sy, sx) {
                    crate::text::lemma_lex_lt_trans(sy, sx, sz);
                } else {
                    assert(crate::text::code_eq(sx, sy));
                    crate::text::lemma_lex_lt_congr(sx, sz, sy, sz);
                }
            },
            _ => {},
        }
    }
}

/// The row order is asymmetric under any sort.
proof fn lemma_rec_lt_asym(a: SchemaDataModel, b: SchemaDataModel, sk: SortKeySpec, asc: bool)
    requires
        rec_sort_lt(a, b, sk, asc),
    ensures
        !rec_sort_lt(b, a, sk, asc),
{
    match sk {
        SortKeySpec::ByField(t, key) => {
            match (lookup_value(a.partitions@, t, key), lookup_value(b.partitions@, t, key)) {
                (Some(x), Some(y)) => {
                    if asc {
                        lemma_key_lt_asym(x, y);
                    } else {
                        lemma_key_lt_asym(y, x);
                    }
                },
                _ => {},
            }
        },
        _ => {},
    }
}

/// Not-before chains across comparable rows.
proof fn lemma_rec_lt_neg_trans(
    a: SchemaDataModel,
    b: SchemaDataModel,
    c: SchemaDataModel,
    sk: SortKeySpec,
    asc: bool,
)
    requires
        keys_compatible(a, b, sk),
        keys_compatible(b, c, sk),
        keys_compatible(a, c, sk),
        !rec_sort_lt(a, b, sk, asc),
        !rec_sort_lt(b, c, sk, asc),
    ensures
        !rec_sort_lt(a, c, sk, asc),
{
    match sk {
        SortKeySpec::ByField(t, key) => {
            let ka = lookup_value(a.partitions@, t, key);
            let kb = lookup_value(b.partitions@, t, key);
            let kc = lookup_value(c.partitions@, t, key);
            if ka is Some {
                assert(kb is Some);
                assert(kc is Some);
                if asc {
                    lemma_key_lt_neg_trans(ka->0, kb->0, kc->0);
                } else {
                    lemma_key_lt_neg_trans(kc->0, kb->0, ka->0);
                }
            }
        },
        _ => {},
    }
}

/// No later row of the sequence must come strictly before an earlier one.
pub open spec fn pairwise_sorted(s: Seq<SchemaDataModel>, sk: SortKeySpec, asc: bool) -> bool {
    forall|i: int, j: int| 0 <= i < j < s.len() ==> !rec_sort_lt(s[j], s[i], sk, asc)
}

/// Every pair of rows of the sequence compares cleanly under the sort.
pub open spec fn keys_homog(s: Seq<SchemaDataModel>, sk: SortKeySpec) -> bool {
    forall|i: int, j: int|
        0 <= i < s.len() && 0 <= j < s.len() ==> keys_compatible(#[trigger] s[i], #[trigger] s[j], sk)
}

/// A stable insertion into a sorted, comparable sequence keeps it sorted
/// and adds exactly the new row.
proof fn lemma_sorted_insert_props(
    s: Seq<SchemaDataModel>,
    x: SchemaDataModel,
    sk: SortKeySpec,
    asc: bool,
)
    requires
        pairwise_sorted(s, sk, asc),
        keys_homog(s, sk),
        forall|i: int|
            0 <= i < s.len() ==> keys_compatible(#[trigger] s[i], x, sk) && keys_compatible(
                x,
                s[i],
                sk,
            ),
    ensures
        pairwise_sorted(sorted_insert(s, x, sk, asc), sk, asc),
        sorted_insert(s, x, sk, asc).to_multiset() == s.to_multiset().insert(x),
    decreases s.len(),
{
    broadcast use vstd::seq_lib::group_to_multiset_ensures;

    let r = sorted_insert(s, x, sk, asc);
    if s.len() == 0 {
        assert(r =~= s.push(x));
    } else if rec_sort_lt(x, s.last(), sk, asc) {
        let dl = s.drop_last();
        assert(s =~= dl.push(s.last()));
        assert(pairwise_sorted(dl, sk, asc));
        assert(keys_homog(dl, sk));
        lemma_sorted_insert_props(dl, x, sk, asc);
        let inner = sorted_insert(dl, x, sk, asc);
        assert(r == inner.push(s.last()));
        assert(r.to_multiset() =~= inner.to_multiset().insert(s.last()));
        assert(inner.to_multiset() == dl.to_multiset().insert(x));
        assert(s.to_multiset() =~= dl.to_multiset().insert(s.last()));
        assert(r.to_multiset() =~= s.to_multiset().insert(x));
        assert forall|i: int| 0 <= i < inner.len() implies !rec_sort_lt(
            s.last(),
            inner[i],
            sk,
            asc,
        ) by {
            let e = inner[i];
            assert(inner.contains(e));
            assert(inner.to_multiset().count(e) > 0);
            if e == x {
                lemma_rec_lt_asym(x, s.last(), sk, asc);
            } else {
                assert(dl.to_multiset().insert(x).count(e) > 0);
                assert(dl.to_multiset().count(e) > 0);
                assert(dl.contains(e));
                let j = choose|j: int| 0 <= j < dl.len() && dl[j] == e;
                assert(s[j] == e && j < s.len() - 1);
                assert(!rec_sort_lt(s.last(), s[j], sk, asc));
            }
        }
        assert forall|i: int, j: int| 0 <= i < j < r.len() implies !rec_sort_lt(
            r[j],
            r[i],
            sk,
            asc,
        ) by {
            if j < inner.len() {
                assert(r[i] == inner[i] && r[j] == inner[j]);
            } else {
                assert(r[j] == s.last() && r[i] == inner[i]);
            }
        }
    } else {
        assert(r == s.push(x));
        assert(r.to_multiset() =~= s.to_multiset().insert(x));
        assert forall|i: int, j: int| 0 <= i < j < r.len() implies !rec_sort_lt(
            r[j],
            r[i],
            sk,
            asc,
        ) by {
            if j == s.len() {
                assert(r[j] == x && r[i] == s[i]);
                if i == s.len() - 1 {
                    assert(!rec_sort_lt(x, s.last(), sk, asc));
                } else {
                    assert(!rec_sort_lt(s.last(), s[i], sk, asc));
                    lemma_rec_lt_neg_trans(x, s.last(), s[i], sk, asc);
                }
            } else {
                assert(r[i] == s[i] && r[j] == s[j]);
            }
        }
    }
}

/// Sorting the selection yields a permutation of it, ordered by the
/// sort: the rows of a query come back whole, merely rearranged. Every
/// pair of selected rows must compare cleanly, which rows of one
/// well-formed schema always do.
pub proof fn lemma_sort_rows_correct(s: Seq<SchemaDataModel>, sk: SortKeySpec, asc: bool)
    requires
        keys_homog(s, sk),
    ensures
        pairwise_sorted(sort_rows(s, sk, asc), sk, asc),
        sort_rows(s, sk, asc).to_multiset() == s.to_multiset(),
    decreases s.len(),
{
    broadcast use vstd::seq_lib::group_to_multiset_ensures;

    let r = sort_rows(s, sk, asc);
    if s.len() == 0 {
    } else {
        let dl = s.drop_last();
        assert(s =~= dl.push(s.last()));
        assert(keys_homog(dl, sk));
        lemma_sort_rows_correct(dl, sk, asc);
        let inner = sort_rows(dl, sk, asc);
        assert forall|i: int|
            0 <= i < inner.len() implies keys_compatible(#[trigger] inner[i], s.last(), sk)
            && keys_compatible(s.last(), inner[i], sk) by {
            let e = inner[i];
            assert(inner.contains(e));
            assert(inner.to_multiset().count(e) > 0);
            assert(dl.to_multiset().count(e) > 0);
            assert(dl.contains(e));
            let j = choose|j: int| 0 <= j < dl.len() && dl[j] == e;
            assert(s[j] == e);
            assert(keys_compatible(s[j], s[s.len() - 1], sk));
            assert(keys_compatible(s[s.len() - 1], s[j], sk));
        }
        assert forall|i: int, j: int|
            0 <= i < inner.len() && 0 <= j < inner.len() implies keys_compatible(
            #[trigger] inner[i],
            #[trigger] inner[j],
            sk,
        ) by {
            let e = inner[i];
            let f = inner[j];
            assert(inner.contains(e) && inner.contains(f));
            assert(inner.to_multiset().count(e) > 0 && inner.to_multiset().count(f) > 0);
            assert(dl.to_multiset().count(e) > 0 && dl.to_multiset().count(f) > 0);
            assert(dl.contains(e) && dl.contains(f));
            let a = choose|a: int| 0 <= a < dl.len() && dl[a] == e;
            let b = choose|b: int| 0 <= b < dl.len() && dl[b] == f;
            assert(keys_compatible(s[a], s[b], sk));
        }
        lemma_sorted_insert_props(inner, s.last(), sk, asc);
        assert(r.to_multiset() == inner.to_multiset().insert(s.last()));
        assert(r.to_multiset() =~= s.to_multiset());
    }
}

/// Rows of one well-formed schema always compare cleanly: one partition
/// holds values of one kind.
pub proof fn lemma_wf_keys_compatible(a: SchemaDataModel, b: SchemaDataModel, sk: SortKeySpec)
    requires
        record_wf(a),
        record_wf(b),
    ensures
        keys_compatible(a, b, sk),
{
    match sk {
        SortKeySpec::ByField(t, key) => {
            lemma_wf_lookup_matches(a, t, key);
            lemma_wf_lookup_matches(b, t, key);
            match (lookup_value(a.partitions@, t, key), lookup_value(b.partitions@, t, key)) {
                (Some(x), Some(y)) => {
                    assert(crate::records::value_matches_type(t, x));
                    assert(crate::records::value_matches_type(t, y));
                    assert(kind_class(x) == kind_class(y));
                },
                _ => {},
            }
        },
        _ => {},
    }
}

/// A value read from a well-formed record's partition has the variant
/// the partition's type stores.
proof fn lemma_wf_lookup_matches(a: SchemaDataModel, t: SchematicFieldType, key: Seq<char>)
    requires
        record_wf(a),
    ensures
        match lookup_value(a.partitions@, t, key) {
            Some(x) => crate::records::value_matches_type(t, x),
            None => true,
        },
{
    let entries = crate::records::entries_of(a.partitions@, t);
    if crate::records::part_has(a.partitions@, t) {
        let pi = crate::records::part_idx(a.partitions@, t);
        assert(0 <= pi < a.partitions@.len() && a.partitions@[pi].field_type == t);
        if crate::records::entry_has(entries, key) {
            let ei = crate::records::entry_idx(entries, key);
            assert(0 <= ei < entries.len() && entries[ei].0@ == key);
            assert(crate::records::value_matches_type(t, a.partitions@[pi].entries@[ei].1@));
        }
    }
}

/// Every selected row is a row of the store.
proof fn lemma_matching_contains(
    records: Seq<SchemaDataModel>,
    schema: SchemaModel,
    filters: Seq<Filter>,
    e: SchemaDataModel,
)
    requires
        matching_rows(records, schema, filters).contains(e),
    ensures
        records.contains(e),
    decreases records.len(),
{
    if records.len() > 0 {
        let dl = records.drop_last();
        let m = matching_rows(records, schema, filters);
        let md = matching_rows(dl, schema, filters);
        let i = choose|i: int| 0 <= i < m.len() && m[i] == e;
        if i < md.len() {
            assert(md[i] == e);
            lemma_matching_contains(dl, schema, filters, e);
            let j = choose|j: int| 0 <= j < dl.len() && dl[j] == e;
            assert(records[j] == e);
        } else {
            assert(e == records.last());
        }
    }
}

/// Filter, sort and pagination are correct together on a well-formed
/// store: the rows a sorted query would page over are exactly the
/// filtered selection, rearranged into sort order.
pub proof fn lemma_query_rows_sorted(
    records: Seq<SchemaDataModel>,
    schema: SchemaModel,
    filters: Seq<Filter>,
    sk: SortKeySpec,
    asc: bool,
)
    requires
        forall|i: int| 0 <= i < records.len() ==> record_wf(#[trigger] records[i]),
    ensures
        pairwise_sorted(ordered_rows(records, schema, filters, Some((sk, asc))), sk, asc),
        ordered_rows(records, schema, filters, Some((sk, asc))).to_multiset() == matching_rows(
            records,
            schema,
            filters,
        ).to_multiset(),
{
    let m = matching_rows(records, schema, filters);
    assert forall|i: int, j: int|
        0 <= i < m.len() && 0 <= j < m.len() implies keys_compatible(
        #[trigger] m[i],
        #[trigger] m[j],
        sk,
    ) by {
        assert(m.contains(m[i]) && m.contains(m[j]));
        lemma_matching_contains(records, schema, filters, m[i]);
        lemma_matching_contains(records, schema, filters, m[j]);
        let a = choose|a: int| 0 <= a < records.len() && records[a] == m[i];
        let b = choose|b: int| 0 <= b < records.len() && records[b] == m[j];
        assert(record_wf(records[a]) && record_wf(records[b]));
        lemma_wf_keys_compatible(records[a], records[b], sk);
    }
    lemma_sort_rows_correct(m, sk, asc);
}

/// A count equals an unpaginated query: the number of rows the filters
/// select is exactly the length of the page that starts at zero with a
/// limit of at least the whole selection, under any sort.
pub proof fn lemma_count_is_unpaged_find(
    records: Seq<SchemaDataModel>,
    schema: SchemaModel,
    filters: Seq<Filter>,
    sort: Option<(SortKeySpec, bool)>,
    limit: int,
)
    requires
        limit >= matching_rows(records, schema, filters).len(),
    ensures
        page_spec(ordered_rows(records, schema, filters, sort), 0, limit) == ordered_rows(
            records,
            schema,
            filters,
            sort,
        ),
        ordered_rows(records, schema, filters, sort).len() == matching_rows(
            records,
            schema,
            filters,
        ).len(),
{
    match sort {
        Some((sk, asc)) => {
            lemma_sort_rows_len(matching_rows(records, schema, filters), sk, asc);
        },
        None => {},
    }
    assert(page_spec(ordered_rows(records, schema, filters, sort), 0, limit) =~= ordered_rows(
        records,
        schema,
        filters,
        sort,
    ));
}

/// Run a query: the live rows of the schema that every filter accepts,
/// in storage order or sorted by the one requested field, clipped to the
/// page `[offset, offset + limit)`. A filter or sort naming an unknown
/// or deleted field, or a `Between` without a range, is refused exactly
/// as `query_check` says.
pub fn find_by<'a>(
    records: &'a Vec<SchemaDataModel>,
    schema: &SchemaModel,
    filters: Option<&Vec<Filter>>,
    order: Option<&DefaultSort>,
    offset: usize,
    limit: usize,
) -> (r: Result<Vec<&'a SchemaDataModel>, SchemaError>)
    requires
        schema_wf(*schema),
        forall|i: int| 0 <= i < records@.len() ==> record_wf(#[trigger] records@[i]),
    ensures
        ({
            let fspec = match filters {
                Some(f) => f@,
                None => Seq::<Filter>::empty(),
            };
            match r {
                Err(e) => query_check(*schema, fspec, order_view(order)) == Err::<
                    Option<(SortKeySpec, bool)>,
                    SchemaError,
                >(e),
                Ok(page) => query_check(*schema, fspec, order_view(order)) matches Ok(sort)
                    && refs_view(page@) == page_spec(
                    ordered_rows(records@, *schema, fspec, sort),
                    offset as int,
                    limit as int,
                ),
            }
        }),
{
    let ghost fspec = match filters {
        Some(f) => f@,
        None => Seq::<Filter>::empty(),
    };
    let sort = match resolve_sort(schema, order) {
        Ok(s) => s,
        Err(e) => {
            return Err(e);
        },
    };
    match filters {
        Some(f) => match check_filters(schema, f) {
            Some(e) => {
                return Err(e);
            },
            None => {},
        },
        None => {},
    }
    let ghost gsort = match &sort {
        Some((k, asc)) => Some((sort_key_view(*k), *asc)),
        None => None::<(SortKeySpec, bool)>,
    };
    // Collect the selection in storage order.
    let mut selected: Vec<&SchemaDataModel> = Vec::new();
    let n = records.len();
    let mut i: usize = 0;
    while i < n
        invariant
            schema_wf(*schema),
            forall|k: int| 0 <= k < records@.len() ==> record_wf(#[trigger] records@[k]),
            n == records@.len(),
            0 <= i <= n,
            fspec == match filters {
                Some(f) => f@,
                None => Seq::<Filter>::empty(),
            },
            refs_view(selected@) == matching_rows(records@.subrange(0, i as int), *schema, fspec),
            forall|k: int| 0 <= k < selected@.len() ==> record_wf(*#[trigger] selected@[k]),
        decreases n - i,
    {
        let rec = &records[i];
        let keep = if rec.schema_id == schema.id && rec.deleted_at.is_none() {
            match filters {
                Some(f) => eval_filters(schema, rec, f),
                None => true,
            }
        } else {
            false
        };
        proof {
            assert(records@.subrange(0, i + 1).drop_last() =~= records@.subrange(0, i as int));
            assert(records@.subrange(0, i + 1).last() == records@[i as int]);
        }
        if keep {
            selected.push(rec);
            proof {
                assert(refs_view(selected@) =~= matching_rows(
                    records@.subrange(0, i + 1),
                    *schema,
                    fspec,
                ));
            }
        } else {
            proof {
                assert(refs_view(selected@) =~= matching_rows(
                    records@.subrange(0, i + 1),
                    *schema,
                    fspec,
                ));
            }
        }
        i = i + 1;
    }
    proof {
        assert(records@.subrange(0, n as int) =~= records@);
    }
    // Apply the sort, if one was asked for.
    let ordered: Vec<&SchemaDataModel> = match &sort {
        None => selected,
        Some((key, asc)) => {
            let mut sorted_out: Vec<&SchemaDataModel> = Vec::new();
            let m = selected.len();
            let mut k: usize = 0;
            while k < m
                invariant
                    m == selected@.len(),
                    0 <= k <= m,
                    forall|j: int| 0 <= j < selected@.len() ==> record_wf(*#[trigger] selected@[j]),
                    forall|j: int|
                        0 <= j < sorted_out@.len() ==> record_wf(*#[trigger] sorted_out@[j]),
                    refs_view(sorted_out@) == sort_rows(
                        refs_view(selected@.subrange(0, k as int)),
                        sort_key_view(*key),
                        *asc,
                    ),
                decreases m - k,
            {
                proof {
                    assert(refs_view(selected@.subrange(0, k + 1)).drop_last() =~= refs_view(
                        selected@.subrange(0, k as int),
                    ));
                    assert(refs_view(selected@.subrange(0, k + 1)).last() == *selected@[k as int]);
                }
                insert_sorted_ref(&mut sorted_out, selected[k], key, *asc);
                k = k + 1;
            }
            proof {
                assert(selected@.subrange(0, m as int) =~= selected@);
            }
            sorted_out
        },
    };
    // Page.
    let total = ordered.len();
    let lo = if offset > total {
        total
    } else {
        offset
    };
    let hi = if limit > total - lo {
        total
    } else {
        lo + limit
    };
    let mut page: Vec<&SchemaDataModel> = Vec::new();
    let mut k: usize = lo;
    while k < hi
        invariant
            lo <= k <= hi <= ordered@.len(),
            page@.len() == k - lo,
            forall|j: int| 0 <= j < page@.len() ==> #[trigger] page@[j] == ordered@[lo + j],
        decreases hi - k,
    {
        page.push(ordered[k]);
        k = k + 1;
    }
    proof {
        let full = ordered_rows(records@, *schema, fspec, gsort);
        if gsort is Some {
            lemma_sort_rows_len(
                matching_rows(records@, *schema, fspec),
                gsort.unwrap().0,
                gsort.unwrap().1,
            );
        }
        assert(refs_view(ordered@) == full);
        assert(query_check(*schema, fspec, order_view(order)) == Ok::<
            Option<(SortKeySpec, bool)>,
            SchemaError,
        >(gsort));
        let pg = page_spec(full, offset as int, limit as int);
        assert(refs_view(page@).len() == pg.len());
        assert(forall|j: int|
            0 <= j < page@.len() ==> #[trigger] refs_view(page@)[j] == refs_view(ordered@)[lo + j]);
        assert(refs_view(page@) =~= pg);
        assert(refs_view(page@) == page_spec(
            ordered_rows(records@, *schema, fspec, gsort),
            offset as int,
            limit as int,
        ));
    }
    Ok(page)
}

/// Count the rows a query selects, with the same filter semantics as
/// `find_by` and no ordering or pagination.
pub fn count_by(
    records: &Vec<SchemaDataModel>,
    schema: &SchemaModel,
    filters: Option<&Vec<Filter>>,
) -> (r: Result<usize, SchemaError>)
    requires
        schema_wf(*schema),
        forall|i: int| 0 <= i < records@.len() ==> record_wf(#[trigger] records@[i]),
    ensures
        ({
            let fspec = match filters {
                Some(f) => f@,
                None => Seq::<Filter>::empty(),
            };
            match r {
                Err(e) => filters_check(*schema, fspec) == Some(e),
                Ok(c) => filters_check(*schema, fspec) is None && c == matching_rows(
                    records@,
                    *schema,
                    fspec,
                ).len(),
            }
        }),
{
    let ghost fspec = match filters {
        Some(f) => f@,
        None => Seq::<Filter>::empty(),
    };
    match filters {
        Some(f) => match check_filters(schema, f) {
            Some(e) => {
                return Err(e);
            },
            None => {},
        },
        None => {},
    }
    let n = records.len();
    let mut count: usize = 0;
    let mut i: usize = 0;
    while i < n
        invariant
            schema_wf(*schema),
            forall|k: int| 0 <= k < records@.len() ==> record_wf(#[trigger] records@[k]),
            n == records@.len(),
            0 <= i <= n,
            fspec == match filters {
                Some(f) => f@,
                None => Seq::<Filter>::empty(),
            },
            count == matching_rows(records@.subrange(0, i as int), *schema, fspec).len(),
            count <= i,
        decreases n - i,
    {
        let rec = &records[i];
        let keep = if rec.schema_id == schema.id && rec.deleted_at.is_none() {
            match filters {
                Some(f) => eval_filters(schema, rec, f),
                None => true,
            }
        } else {
            false
        };
        proof {
            assert(records@.subrange(0, i + 1).drop_last() =~= records@.subrange(0, i as int));
            assert(records@.subrange(0, i + 1).last() == records@[i as int]);
        }
        if keep {
            count = count + 1;
        }
        i = i + 1;
    }
    proof {
        assert(records@.subrange(0, n as int) =~= records@);
    }
    Ok(count)
}

/// Decide every filter against a row.
pub fn eval_filters(schema: &SchemaModel, rec: &SchemaDataModel, filters: &Vec<Filter>) -> (r:
    bool)
    requires
        schema_wf(*schema),
        record_wf(*rec),
    ensures
        r == row_matches(*schema, *rec, filters@),
{
    let n = filters.len();
    let mut i: usize = 0;
    while i < n
        invariant
            schema_wf(*schema),
            record_wf(*rec),
            n == filters@.len(),
            0 <= i <= n,
            forall|j: int| 0 <= j < i ==> one_filter_matches(*schema, *rec, #[trigger] filters@[j]),
        decreases n - i,
    {
        if !eval_filter(schema, rec, &filters[i]) {
            return false;
        }
        i = i + 1;
    }
    true
}

} // verus!
