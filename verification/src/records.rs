//! The data record model: one row of a schema. Values are not laid out
//! one column per field; they are partitioned by field type, each
//! partition a map from field key to a typed value. A value for key `K`
//! of declared type `T` lives only in the partition for `T`, which the
//! schema's field-type lookup decides before every write.
use vstd::prelude::*;

use crate::SchemaError;
use crate::dates::DateTime;
use crate::fields::{SchematicField, SchematicFieldType};
use crate::schema::{SchemaModel, has_field, schema_wf};
use crate::text::str_eq;
use crate::values::{
    SchematicFieldValue, SchematicFieldValueV, SimpleValue, SimpleValueV, clone_field_value,
    clone_str, external_of, external_of_spec,
};

verus! {

/// One storage partition of a record: the values of every field of one
/// declared type, keyed by field id.
#[derive(Debug)]
pub struct FieldPartition {
    pub field_type: SchematicFieldType,
    pub entries: Vec<(String, SchematicFieldValue)>,
}

/// One row of a schema.
#[derive(Debug)]
pub struct SchemaDataModel {
    pub id: i64,
    pub addon_id: i32,
    pub schema_id: i32,
    /// The externally stable identifier, distinct from the internal id.
    pub public_id: String,
    pub partitions: Vec<FieldPartition>,
    pub created_at: DateTime,
    pub updated_at: DateTime,
    pub deleted_at: Option<DateTime>,
}

/// A stored value's variant agrees with the partition type holding it.
pub open spec fn value_matches_type(t: SchematicFieldType, v: SchematicFieldValueV) -> bool {
    match t {
        SchematicFieldType::Text | SchematicFieldType::RichContent
            | SchematicFieldType::RichText => v is Text,
        SchematicFieldType::Number => v is Number,
        SchematicFieldType::URL => v is Url,
        SchematicFieldType::Email => v is Email,
        SchematicFieldType::Phone => v is Phone,
        SchematicFieldType::Address => v is Address,
        SchematicFieldType::Boolean => v is Boolean,
        SchematicFieldType::DateTime => v is DateTime,
        SchematicFieldType::Date => v is Date,
        SchematicFieldType::Time => v is Time,
        SchematicFieldType::Reference | SchematicFieldType::Document | SchematicFieldType::Image
            | SchematicFieldType::Video | SchematicFieldType::Audio => v is Reference,
        SchematicFieldType::MultiReference | SchematicFieldType::MediaGallery
            | SchematicFieldType::MultiDocument => v is MultiReference,
        SchematicFieldType::Tags => v is Tags,
        SchematicFieldType::Array => v is Array,
        SchematicFieldType::Object => v is Object,
    }
}

/// Check a stored value's variant against a partition type.
pub fn check_value_matches_type(t: SchematicFieldType, v: &SchematicFieldValue) -> (r: bool)
    ensures
        r == value_matches_type(t, v@),
{
    match t {
        SchematicFieldType::Text | SchematicFieldType::RichContent
            | SchematicFieldType::RichText => matches!(v, SchematicFieldValue::Text(_)),
        SchematicFieldType::Number => matches!(v, SchematicFieldValue::Number(_)),
        SchematicFieldType::URL => matches!(v, SchematicFieldValue::Url(_)),
        SchematicFieldType::Email => matches!(v, SchematicFieldValue::Email(_)),
        SchematicFieldType::Phone => matches!(v, SchematicFieldValue::Phone(_)),
        SchematicFieldType::Address => matches!(v, SchematicFieldValue::Address(_)),
        SchematicFieldType::Boolean => matches!(v, SchematicFieldValue::Boolean(_)),
        SchematicFieldType::DateTime => matches!(v, SchematicFieldValue::DateTime(_)),
        SchematicFieldType::Date => matches!(v, SchematicFieldValue::Date(_)),
        SchematicFieldType::Time => matches!(v, SchematicFieldValue::Time(_)),
        SchematicFieldType::Reference | SchematicFieldType::Document | SchematicFieldType::Image
            | SchematicFieldType::Video | SchematicFieldType::Audio => matches!(
            v,
            SchematicFieldValue::Reference(_),
        ),
        SchematicFieldType::MultiReference | SchematicFieldType::MediaGallery
            | SchematicFieldType::MultiDocument => matches!(
            v,
            SchematicFieldValue::MultiReference(_),
        ),
        SchematicFieldType::Tags => matches!(v, SchematicFieldValue::Tags(_)),
        SchematicFieldType::Array => matches!(v, SchematicFieldValue::Array(_)),
        SchematicFieldType::Object => matches!(v, SchematicFieldValue::Object(_)),
    }
}

/// A partition for type `t` exists.
pub open spec fn part_has(parts: Seq<FieldPartition>, t: SchematicFieldType) -> bool {
    exists|i: int| 0 <= i < parts.len() && #[trigger] parts[i].field_type == t
}

/// The position of the partition for type `t`.
pub open spec fn part_idx(parts: Seq<FieldPartition>, t: SchematicFieldType) -> int {
    choose|i: int| 0 <= i < parts.len() && #[trigger] parts[i].field_type == t
}

/// The entries of the partition for type `t`; an absent partition reads
/// as empty.
pub open spec fn entries_of(parts: Seq<FieldPartition>, t: SchematicFieldType) -> Seq<
    (String, SchematicFieldValue),
> {
    if part_has(parts, t) {
        parts[part_idx(parts, t)].entries@
    } else {
        Seq::empty()
    }
}

/// An entry keyed `k` exists.
pub open spec fn entry_has(entries: Seq<(String, SchematicFieldValue)>, k: Seq<char>) -> bool {
    exists|i: int| 0 <= i < entries.len() && #[trigger] entries[i].0@ == k
}

/// The position of the entry keyed `k`.
pub open spec fn entry_idx(entries: Seq<(String, SchematicFieldValue)>, k: Seq<char>) -> int {
    choose|i: int| 0 <= i < entries.len() && #[trigger] entries[i].0@ == k
}

/// The value stored under key `k` in an entry list, if any.
pub open spec fn lookup_entries(entries: Seq<(String, SchematicFieldValue)>, k: Seq<char>) -> Option<
    SchematicFieldValueV,
> {
    if entry_has(entries, k) {
        Some(entries[entry_idx(entries, k)].1@)
    } else {
        None
    }
}

/// The stored value under key `k` in the partition for `t`, if any.
pub open spec fn lookup_value(
    parts: Seq<FieldPartition>,
    t: SchematicFieldType,
    k: Seq<char>,
) -> Option<SchematicFieldValueV> {
    lookup_entries(entries_of(parts, t), k)
}

/// An entry list after storing `v` under `k`: replaced in place when the
/// key exists, appended otherwise.
pub open spec fn upsert_spec(
    entries: Seq<(String, SchematicFieldValue)>,
    key: String,
    v: SchematicFieldValue,
) -> Seq<(String, SchematicFieldValue)> {
    if entry_has(entries, key@) {
        entries.update(entry_idx(entries, key@), (key, v))
    } else {
        entries.push((key, v))
    }
}

/// An entry list after clearing `k`: removed when present.
pub open spec fn remove_spec(entries: Seq<(String, SchematicFieldValue)>, k: Seq<char>) -> Seq<
    (String, SchematicFieldValue),
> {
    if entry_has(entries, k) {
        entries.remove(entry_idx(entries, k))
    } else {
        entries
    }
}

/// No two entries of a partition share a key.
pub open spec fn entries_unique(entries: Seq<(String, SchematicFieldValue)>) -> bool {
    forall|i: int, j: int| 0 <= i < j < entries.len() ==> entries[i].0@ != entries[j].0@
}

/// Well-formedness of a record: partition types are distinct, keys are
/// unique within a partition, and every stored value's variant agrees
/// with its partition's type.
pub open spec fn record_wf(r: SchemaDataModel) -> bool {
    &&& forall|i: int, j: int|
        0 <= i < j < r.partitions@.len() ==> r.partitions@[i].field_type != r.partitions@[
            j
        ].field_type
    &&& forall|i: int|
        0 <= i < r.partitions@.len() ==> entries_unique(#[trigger] r.partitions@[i].entries@)
    &&& forall|i: int, j: int|
        0 <= i < r.partitions@.len() && 0 <= j < r.partitions@[i].entries@.len()
            ==> value_matches_type(
            r.partitions@[i].field_type,
            #[trigger] r.partitions@[i].entries@[j].1@,
        )
}

/// The ghost image of a partition's entries: each key's characters with
/// the value's ghost image.
pub open spec fn entries_view(entries: Seq<(String, SchematicFieldValue)>) -> Seq<
    (Seq<char>, SchematicFieldValueV),
> {
    entries.map_values(|e: (String, SchematicFieldValue)| (e.0@, e.1@))
}

/// The ghost image of one partition.
pub open spec fn one_part_view(p: FieldPartition) -> (
    SchematicFieldType,
    Seq<(Seq<char>, SchematicFieldValueV)>,
) {
    (p.field_type, entries_view(p.entries@))
}

/// The ghost image of a record's partitions, the measure by which copies
/// of a record are compared.
pub open spec fn parts_view(parts: Seq<FieldPartition>) -> Seq<
    (SchematicFieldType, Seq<(Seq<char>, SchematicFieldValueV)>),
> {
    parts.map_values(|p: FieldPartition| one_part_view(p))
}

/// After replacing the partition at `pi` by one of the same type, every
/// other type's entries read unchanged and the target type reads the new
/// partition's entries.
proof fn lemma_parts_update(
    oldp: Seq<FieldPartition>,
    newp: Seq<FieldPartition>,
    pi: int,
    target: SchematicFieldType,
)
    requires
        0 <= pi < oldp.len(),
        newp.len() == oldp.len(),
        forall|j: int| 0 <= j < newp.len() && j != pi ==> newp[j] == oldp[j],
        oldp[pi].field_type == target,
        newp[pi].field_type == target,
        forall|i: int, j: int| 0 <= i < j < oldp.len() ==> oldp[i].field_type != oldp[j].field_type,
    ensures
        part_has(newp, target) && part_idx(newp, target) == pi,
        part_has(oldp, target) && part_idx(oldp, target) == pi,
        entries_of(newp, target) == newp[pi].entries@,
        entries_of(oldp, target) == oldp[pi].entries@,
        forall|t: SchematicFieldType|
            t != target ==> #[trigger] entries_of(newp, t) == entries_of(oldp, t),
        forall|i: int, j: int| 0 <= i < j < newp.len() ==> newp[i].field_type != newp[j].field_type,
{
    assert(forall|j: int|
        0 <= j < newp.len() ==> #[trigger] newp[j].field_type == oldp[j].field_type);
    assert(part_has(newp, target));
    assert(part_has(oldp, target));
    let ci = part_idx(newp, target);
    assert(0 <= ci < newp.len() && newp[ci].field_type == target);
    assert(ci == pi);
    let co = part_idx(oldp, target);
    assert(0 <= co < oldp.len() && oldp[co].field_type == target);
    assert(co == pi);
    assert forall|t: SchematicFieldType| t != target implies #[trigger] entries_of(newp, t)
        == entries_of(oldp, t) by {
        if part_has(newp, t) {
            let ni = part_idx(newp, t);
            assert(0 <= ni < newp.len() && newp[ni].field_type == t);
            assert(ni != pi);
            assert(oldp[ni].field_type == t);
            assert(part_has(oldp, t));
            let oi = part_idx(oldp, t);
            assert(0 <= oi < oldp.len() && oldp[oi].field_type == t);
            assert(oi == ni);
        } else {
            if part_has(oldp, t) {
                let oi = part_idx(oldp, t);
                assert(0 <= oi < oldp.len() && oldp[oi].field_type == t);
                assert(newp[oi].field_type == t);
                assert(false);
            }
        }
    }
}

/// After appending a partition of a type no partition had, the new type
/// reads the appended entries and every other type reads unchanged.
proof fn lemma_parts_push(oldp: Seq<FieldPartition>, p: FieldPartition, target: SchematicFieldType)
    requires
        p.field_type == target,
        !part_has(oldp, target),
        forall|i: int, j: int| 0 <= i < j < oldp.len() ==> oldp[i].field_type != oldp[j].field_type,
    ensures
        part_has(oldp.push(p), target) && part_idx(oldp.push(p), target) == oldp.len(),
        entries_of(oldp.push(p), target) == p.entries@,
        entries_of(oldp, target) == Seq::<(String, SchematicFieldValue)>::empty(),
        forall|t: SchematicFieldType|
            t != target ==> #[trigger] entries_of(oldp.push(p), t) == entries_of(oldp, t),
        forall|i: int, j: int|
            0 <= i < j < oldp.push(p).len() ==> oldp.push(p)[i].field_type != oldp.push(
                p,
            )[j].field_type,
{
    let newp = oldp.push(p);
    assert(newp[oldp.len() as int] == p);
    assert(part_has(newp, target));
    let ci = part_idx(newp, target);
    assert(0 <= ci < newp.len() && newp[ci].field_type == target);
    assert(ci == oldp.len() as int);
    assert forall|t: SchematicFieldType| t != target implies #[trigger] entries_of(newp, t)
        == entries_of(oldp, t) by {
        if part_has(newp, t) {
            let ni = part_idx(newp, t);
            assert(0 <= ni < newp.len() && newp[ni].field_type == t);
            assert(ni != oldp.len() as int);
            assert(oldp[ni].field_type == t);
            assert(part_has(oldp, t));
            let oi = part_idx(oldp, t);
            assert(0 <= oi < oldp.len() && oldp[oi].field_type == t);
            assert(oi == ni);
        } else {
            if part_has(oldp, t) {
                let oi = part_idx(oldp, t);
                assert(0 <= oi < oldp.len() && oldp[oi].field_type == t);
                assert(newp[oi].field_type == t);
                assert(false);
            }
        }
    }
}

impl SchemaDataModel {
    /// A fresh record with no field values.
    pub fn new(addon_id: i32, schema_id: i32, public_id: String, now: DateTime) -> (r: Self)
        ensures
            record_wf(r),
            r.id == 0 && r.addon_id == addon_id && r.schema_id == schema_id,
            r.public_id == public_id,
            r.partitions@.len() == 0,
            r.created_at == now && r.updated_at == now && r.deleted_at is None,
    {
        SchemaDataModel {
            id: 0,
            addon_id,
            schema_id,
            public_id,
            partitions: Vec::new(),
            created_at: now,
            updated_at: now,
            deleted_at: None,
        }
    }

    /// Find the partition for a type.
    pub fn find_partition(&self, t: SchematicFieldType) -> (r: Option<usize>)
        ensures
            match r {
                Some(i) => i < self.partitions@.len() && self.partitions@[i as int].field_type == t
                    && part_has(self.partitions@, t),
                None => !part_has(self.partitions@, t),
            },
    {
        let n = self.partitions.len();
        let mut i: usize = 0;
        while i < n
            invariant
                n == self.partitions@.len(),
                0 <= i <= n,
                forall|j: int| 0 <= j < i ==> #[trigger] self.partitions@[j].field_type != t,
            decreases n - i,
        {
            if self.partitions[i].field_type == t {
                return Some(i);
            }
            i = i + 1;
        }
        None
    }

    /// Store `value` for the field `field_name`. The value is routed to
    /// the partition of `field_type` — unless the field sits in a
    /// repeating-group ("duplicator") context, in which case it must be
    /// an array and lands in the catch-all `Array` partition whatever the
    /// declared type says. A value of the wrong variant changes nothing.
    pub fn insert_field(
        &mut self,
        field_name: String,
        is_field_in_duplicator: bool,
        field_type: SchematicFieldType,
        value: SchematicFieldValue,
    ) -> (r: Result<(), SchemaError>)
        requires
            record_wf(*old(self)),
        ensures
            record_wf(*final(self)),
            ({
                let target = if is_field_in_duplicator {
                    SchematicFieldType::Array
                } else {
                    field_type
                };
                match r {
                    Err(e) => {
                        &&& *final(self) == *old(self)
                        &&& e == SchemaError::TypeMismatch
                        &&& !value_matches_type(target, value@)
                    },
                    Ok(_) => {
                        &&& value_matches_type(target, value@)
                        &&& entries_of(final(self).partitions@, target) == upsert_spec(
                            entries_of(old(self).partitions@, target),
                            field_name,
                            value,
                        )
                        &&& forall|t: SchematicFieldType|
                            t != target ==> #[trigger] entries_of(final(self).partitions@, t)
                                == entries_of(old(self).partitions@, t)
                        &&& *final(self) == (SchemaDataModel {
                            partitions: final(self).partitions,
                            ..*old(self)
                        })
                    },
                }
            }),
    {
        let target = if is_field_in_duplicator {
            SchematicFieldType::Array
        } else {
            field_type
        };
        if !check_value_matches_type(target, &value) {
            return Err(SchemaError::TypeMismatch);
        }
        match self.find_partition(target) {
            Some(pi) => {
                proof {
                    assert(part_idx(self.partitions@, target) == pi);
                }
                let mut part = self.partitions.remove(pi);
                let ghost old_entries = part.entries@;
                let n = part.entries.len();
                let mut k: usize = 0;
                let mut found: Option<usize> = None;
                while k < n
                    invariant
                        n == part.entries@.len(),
                        0 <= k <= n,
                        match found {
                            Some(fi) => fi < k && part.entries@[fi as int].0@ == field_name@,
                            None => forall|j: int|
                                0 <= j < k ==> #[trigger] part.entries@[j].0@ != field_name@,
                        },
                    decreases n - k,
                {
                    if found.is_none() && str_eq(part.entries[k].0.as_str(), field_name.as_str()) {
                        found = Some(k);
                    }
                    k = k + 1;
                }
                match found {
                    Some(fi) => {
                        proof {
                            assert(entry_has(old_entries, field_name@));
                            assert(entry_idx(old_entries, field_name@) == fi);
                        }
                        let _ = part.entries.remove(fi);
                        part.entries.insert(fi, (field_name, value));
                        proof {
                            assert(part.entries@ =~= upsert_spec(old_entries, field_name, value));
                        }
                    },
                    None => {
                        proof {
                            assert(!entry_has(old_entries, field_name@));
                        }
                        part.entries.push((field_name, value));
                    },
                }
                self.partitions.insert(pi, part);
                proof {
                    assert(self.partitions@[pi as int] == part);
                    assert(forall|j: int|
                        0 <= j < self.partitions@.len() && j != pi
                            ==> #[trigger] self.partitions@[j] == old(self).partitions@[j]);
                    lemma_parts_update(old(self).partitions@, self.partitions@, pi as int, target);
                    assert(entries_of(self.partitions@, target) == upsert_spec(
                        old_entries,
                        field_name,
                        value,
                    ));
                }
                Ok(())
            },
            None => {
                let mut entries: Vec<(String, SchematicFieldValue)> = Vec::new();
                entries.push((field_name, value));
                let new_part = FieldPartition { field_type: target, entries };
                proof {
                    lemma_parts_push(self.partitions@, new_part, target);
                    assert(!entry_has(entries_of(self.partitions@, target), field_name@));
                }
                self.partitions.push(new_part);
                Ok(())
            },
        }
    }

    /// Store or clear one field of an already existing record, touching
    /// only the partition of `field_type`. Clearing a field whose whole
    /// partition was never written is refused as a no-op, to catch
    /// misrouted update calls; a value of the wrong variant is refused and
    /// changes nothing. A successful update stamps the record.
    pub fn update_field(
        &mut self,
        field_name: String,
        field_type: SchematicFieldType,
        value: Option<SchematicFieldValue>,
        now: DateTime,
    ) -> (r: Result<(), SchemaError>)
        requires
            record_wf(*old(self)),
        ensures
            record_wf(*final(self)),
            match r {
                Err(e) => *final(self) == *old(self) && if value is None && !part_has(
                    old(self).partitions@,
                    field_type,
                ) {
                    e == SchemaError::NoOpUpdate
                } else {
                    &&& e == SchemaError::TypeMismatch
                    &&& value matches Some(v) && !value_matches_type(field_type, v@)
                },
                Ok(_) => {
                    &&& (match value {
                        Some(v) => value_matches_type(field_type, v@) && entries_of(
                            final(self).partitions@,
                            field_type,
                        ) == upsert_spec(
                            entries_of(old(self).partitions@, field_type),
                            field_name,
                            v,
                        ),
                        None => part_has(old(self).partitions@, field_type) && entries_of(
                            final(self).partitions@,
                            field_type,
                        ) == remove_spec(
                            entries_of(old(self).partitions@, field_type),
                            field_name@,
                        ),
                    })
                    &&& forall|t: SchematicFieldType|
                        t != field_type ==> #[trigger] entries_of(final(self).partitions@, t)
                            == entries_of(old(self).partitions@, t)
                    &&& *final(self) == (SchemaDataModel {
                        partitions: final(self).partitions,
                        updated_at: now,
                        ..*old(self)
                    })
                },
            },
    {
        let pidx = self.find_partition(field_type);
        match value {
            None => {
                match pidx {
                    None => Err(SchemaError::NoOpUpdate),
                    Some(pi) => {
                        proof {
                            assert(part_idx(self.partitions@, field_type) == pi);
                        }
                        let mut part = self.partitions.remove(pi);
                        let ghost old_entries = part.entries@;
                        let n = part.entries.len();
                        let mut k: usize = 0;
                        let mut found: Option<usize> = None;
                        while k < n
                            invariant
                                n == part.entries@.len(),
                                0 <= k <= n,
                                match found {
                                    Some(fi) => fi < k && part.entries@[fi as int].0@
                                        == field_name@,
                                    None => forall|j: int|
                                        0 <= j < k ==> #[trigger] part.entries@[j].0@
                                            != field_name@,
                                },
                            decreases n - k,
                        {
                            if found.is_none() && str_eq(
                                part.entries[k].0.as_str(),
                                field_name.as_str(),
                            ) {
                                found = Some(k);
                            }
                            k = k + 1;
                        }
                        match found {
                            Some(fi) => {
                                proof {
                                    assert(entry_has(old_entries, field_name@));
                                    assert(entry_idx(old_entries, field_name@) == fi);
                                }
                                let _ = part.entries.remove(fi);
                                proof {
                                    assert(part.entries@ =~= remove_spec(
                                        old_entries,
                                        field_name@,
                                    ));
                                }
                            },
                            None => {
                                proof {
                                    assert(!entry_has(old_entries, field_name@));
                                }
                            },
                        }
                        self.partitions.insert(pi, part);
                        self.updated_at = now;
                        proof {
                            assert(forall|j: int|
                                0 <= j < self.partitions@.len() && j != pi
                                    ==> #[trigger] self.partitions@[j] == old(self).partitions@[j]);
                            lemma_parts_update(
                                old(self).partitions@,
                                self.partitions@,
                                pi as int,
                                field_type,
                            );
                        }
                        Ok(())
                    },
                }
            },
            Some(v) => {
                if !check_value_matches_type(field_type, &v) {
                    return Err(SchemaError::TypeMismatch);
                }
                let inserted = self.insert_field(field_name, false, field_type, v);
                proof {
                    assert(inserted is Ok);
                }
                self.updated_at = now;
                Ok(())
            },
        }
    }

    /// Borrow the value stored under `key` in the partition of type `t`.
    pub fn get_value(&self, t: SchematicFieldType, key: &str) -> (r: Option<&SchematicFieldValue>)
        requires
            record_wf(*self),
        ensures
            match r {
                Some(v) => lookup_value(self.partitions@, t, key@) == Some(v@),
                None => lookup_value(self.partitions@, t, key@) is None,
            },
    {
        let pidx = self.find_partition(t);
        match pidx {
            None => None,
            Some(pi) => {
                proof {
                    assert(part_idx(self.partitions@, t) == pi);
                }
                let part = &self.partitions[pi];
                let n = part.entries.len();
                let mut k: usize = 0;
                while k < n
                    invariant
                        record_wf(*self),
                        n == part.entries@.len(),
                        0 <= k <= n,
                        part == self.partitions@[pi as int],
                        pi < self.partitions@.len(),
                        part_has(self.partitions@, t),
                        part_idx(self.partitions@, t) == pi,
                        forall|j: int| 0 <= j < k ==> #[trigger] part.entries@[j].0@ != key@,
                    decreases n - k,
                {
                    if str_eq(part.entries[k].0.as_str(), key) {
                        proof {
                            assert(entries_unique(part.entries@));
                            assert(entry_has(part.entries@, key@));
                            let ei = entry_idx(part.entries@, key@);
                            assert(0 <= ei < part.entries@.len() && part.entries@[ei].0@ == key@);
                            assert(ei == k);
                        }
                        return Some(&part.entries[k].1);
                    }
                    k = k + 1;
                }
                proof {
                    assert(!entry_has(part.entries@, key@));
                }
                None
            },
        }
    }

    /// Copy a row: every partition is carried over verbatim, under a fresh
    /// internal id, a fresh public identifier and fresh timestamps.
    pub fn duplicate(&self, id: i64, public_id: String, now: DateTime) -> (r: SchemaDataModel)
        requires
            record_wf(*self),
        ensures
            record_wf(r),
            r.id == id && r.addon_id == self.addon_id && r.schema_id == self.schema_id,
            r.public_id == public_id,
            parts_view(r.partitions@) == parts_view(self.partitions@),
            r.created_at == now && r.updated_at == now && r.deleted_at is None,
    {
        let mut parts: Vec<FieldPartition> = Vec::new();
        let n = self.partitions.len();
        let mut i: usize = 0;
        while i < n
            invariant
                record_wf(*self),
                n == self.partitions@.len(),
                0 <= i <= n,
                parts@.len() == i,
                forall|j: int|
                    0 <= j < i ==> #[trigger] one_part_view(parts@[j]) == one_part_view(
                        self.partitions@[j],
                    ),
            decreases n - i,
        {
            let src = &self.partitions[i];
            let m = src.entries.len();
            let mut entries: Vec<(String, SchematicFieldValue)> = Vec::new();
            let mut k: usize = 0;
            while k < m
                invariant
                    m == src.entries@.len(),
                    0 <= k <= m,
                    entries@.len() == k,
                    forall|j: int|
                        0 <= j < k ==> #[trigger] entries@[j].0@ == src.entries@[j].0@
                            && entries@[j].1@ == src.entries@[j].1@,
                decreases m - k,
            {
                let key = clone_str(&src.entries[k].0);
                let val = clone_field_value(&src.entries[k].1);
                entries.push((key, val));
                proof {
                    assert(entries@[k as int].0@ == src.entries@[k as int].0@);
                    assert(entries@[k as int].1@ == src.entries@[k as int].1@);
                }
                k = k + 1;
            }
            proof {
                assert(entries_view(entries@) =~= entries_view(src.entries@));
            }
            parts.push(FieldPartition { field_type: src.field_type, entries });
            proof {
                assert(parts@.last().field_type == self.partitions@[i as int].field_type);
                assert(one_part_view(parts@[i as int]) == one_part_view(
                    self.partitions@[i as int],
                ));
            }
            i = i + 1;
        }
        proof {
            assert(parts_view(parts@) =~= parts_view(self.partitions@));
        }
        let out = SchemaDataModel {
            id,
            addon_id: self.addon_id,
            schema_id: self.schema_id,
            public_id,
            partitions: parts,
            created_at: now,
            updated_at: now,
            deleted_at: None,
        };
        proof {
            lemma_wf_from_parts_view(self.partitions@, out.partitions@);
            assert(record_wf(out));
        }
        out
    }
}

/// Storing a value leaves it readable under its key, every other key
/// untouched, and the keys still unique.
pub proof fn lemma_upsert_props(
    entries: Seq<(String, SchematicFieldValue)>,
    key: String,
    v: SchematicFieldValue,
)
    requires
        entries_unique(entries),
    ensures
        lookup_entries(upsert_spec(entries, key, v), key@) == Some(v@),
        forall|k: Seq<char>|
            k != key@ ==> #[trigger] lookup_entries(upsert_spec(entries, key, v), k)
                == lookup_entries(entries, k),
        entries_unique(upsert_spec(entries, key, v)),
{
    let e2 = upsert_spec(entries, key, v);
    if entry_has(entries, key@) {
        let i = entry_idx(entries, key@);
        assert(0 <= i < entries.len() && entries[i].0@ == key@);
        assert(e2 =~= entries.update(i, (key, v)));
        assert(forall|j: int| 0 <= j < e2.len() && j != i ==> e2[j] == entries[j]);
        assert(e2[i].0@ == key@ && e2[i].1 == v);
        assert(entries_unique(e2));
        assert(entry_has(e2, key@));
        let ci = entry_idx(e2, key@);
        assert(0 <= ci < e2.len() && e2[ci].0@ == key@);
        assert(ci == i);
        assert forall|k: Seq<char>| k != key@ implies #[trigger] lookup_entries(e2, k)
            == lookup_entries(entries, k) by {
            if entry_has(e2, k) {
                let a = entry_idx(e2, k);
                assert(0 <= a < e2.len() && e2[a].0@ == k);
                assert(a != i);
                assert(entries[a].0@ == k);
                assert(entry_has(entries, k));
                let b = entry_idx(entries, k);
                assert(0 <= b < entries.len() && entries[b].0@ == k);
                assert(b == a);
            } else {
                if entry_has(entries, k) {
                    let b = entry_idx(entries, k);
                    assert(0 <= b < entries.len() && entries[b].0@ == k);
                    assert(b != i);
                    assert(e2[b].0@ == k);
                    assert(false);
                }
            }
        }
    } else {
        assert(e2 =~= entries.push((key, v)));
        assert(e2[entries.len() as int].0@ == key@);
        assert(entries_unique(e2));
        assert(entry_has(e2, key@));
        let ci = entry_idx(e2, key@);
        assert(0 <= ci < e2.len() && e2[ci].0@ == key@);
        assert(ci == entries.len() as int);
        assert forall|k: Seq<char>| k != key@ implies #[trigger] lookup_entries(e2, k)
            == lookup_entries(entries, k) by {
            if entry_has(e2, k) {
                let a = entry_idx(e2, k);
                assert(0 <= a < e2.len() && e2[a].0@ == k);
                assert(a != entries.len() as int);
                assert(entry_has(entries, k));
                let b = entry_idx(entries, k);
                assert(0 <= b < entries.len() && entries[b].0@ == k);
                assert(b == a);
            } else {
                if entry_has(entries, k) {
                    let b = entry_idx(entries, k);
                    assert(e2[b].0@ == k);
                    assert(false);
                }
            }
        }
    }
}

/// Clearing a key leaves it unreadable and every other key untouched.
pub proof fn lemma_remove_props(entries: Seq<(String, SchematicFieldValue)>, key: Seq<char>)
    requires
        entries_unique(entries),
    ensures
        lookup_entries(remove_spec(entries, key), key) is None,
        forall|k: Seq<char>|
            k != key ==> #[trigger] lookup_entries(remove_spec(entries, key), k) == lookup_entries(
                entries,
                k,
            ),
        entries_unique(remove_spec(entries, key)),
{
    let e2 = remove_spec(entries, key);
    if entry_has(entries, key) {
        let i = entry_idx(entries, key);
        assert(0 <= i < entries.len() && entries[i].0@ == key);
        assert(e2 =~= entries.remove(i));
        assert(forall|j: int| 0 <= j < i ==> e2[j] == entries[j]);
        assert(forall|j: int| i <= j < e2.len() ==> e2[j] == entries[j + 1]);
        assert(entries_unique(e2));
        if entry_has(e2, key) {
            let a = entry_idx(e2, key);
            assert(0 <= a < e2.len() && e2[a].0@ == key);
            if a < i {
                assert(entries[a].0@ == key);
                assert(false);
            } else {
                assert(entries[a + 1].0@ == key);
                assert(false);
            }
        }
        assert forall|k: Seq<char>| k != key implies #[trigger] lookup_entries(e2, k)
            == lookup_entries(entries, k) by {
            if entry_has(e2, k) {
                let a = entry_idx(e2, k);
                assert(0 <= a < e2.len() && e2[a].0@ == k);
                let src = if a < i {
                    a
                } else {
                    a + 1
                };
                assert(entries[src].0@ == k);
                assert(entry_has(entries, k));
                let b = entry_idx(entries, k);
                assert(0 <= b < entries.len() && entries[b].0@ == k);
                assert(b == src);
                assert(lookup_entries(e2, k) == Some(entries[src].1@));
            } else {
                if entry_has(entries, k) {
                    let b = entry_idx(entries, k);
                    assert(0 <= b < entries.len() && entries[b].0@ == k);
                    assert(b != i);
                    if b < i {
                        assert(e2[b].0@ == k);
                    } else {
                        assert(e2[b - 1].0@ == k);
                    }
                    assert(false);
                }
            }
        }
    }
}

/// A value that converts successfully for a column type always lands in
/// the shape that column's partition stores.
pub proof fn lemma_parse_value_matches(t: SchematicFieldType, v: crate::values::SimpleValueV)
    requires
        crate::values::parse_value_spec(t, v) is Ok,
    ensures
        value_matches_type(t, crate::values::parse_value_spec(t, v)->Ok_0),
{
}

/// The fixed placeholder emitted for the owner field: owner tracking is
/// not implemented, and every read shows the nil identifier.
pub open spec fn owner_placeholder() -> Seq<char> {
    "00000000-0000-0000-0000-000000000000"@
}

/// The ghost image of an emitted key-value list.
pub open spec fn pairs_view(s: Seq<(String, SimpleValue)>) -> Seq<(Seq<char>, SimpleValueV)> {
    s.map_values(|p: (String, SimpleValue)| (p.0@, p.1@))
}

/// The ghost image of a requested-columns filter.
pub open spec fn cols_view(columns: Option<&Vec<String>>) -> Option<Seq<Seq<char>>> {
    match columns {
        Some(c) => Some(c.deep_view()),
        None => None,
    }
}

/// What one schema column contributes to a record's external map: nothing
/// for a deleted column; the record's metadata for the four reserved keys;
/// nothing for a custom column outside the requested set or without a
/// stored value; otherwise the stored value in its external shape.
pub open spec fn emit_field_spec(
    key: Seq<char>,
    f: SchematicField,
    rec: SchemaDataModel,
    columns: Option<Seq<Seq<char>>>,
) -> Seq<(Seq<char>, SimpleValueV)> {
    if f.is_deleted {
        Seq::empty()
    } else if key == "_id"@ {
        seq![(key, SimpleValueV::Text(rec.public_id@))]
    } else if key == "_owner"@ {
        seq![(key, SimpleValueV::Text(owner_placeholder()))]
    } else if key == "_createdAt"@ {
        seq![(key, SimpleValueV::DateTime(rec.created_at))]
    } else if key == "_updatedAt"@ {
        seq![(key, SimpleValueV::DateTime(rec.updated_at))]
    } else if match columns {
        Some(cols) => !cols.contains(key),
        None => false,
    } {
        Seq::empty()
    } else {
        match lookup_value(rec.partitions@, f.field_type, key) {
            Some(v) => seq![(key, external_of_spec(v))],
            None => Seq::empty(),
        }
    }
}

/// What the first `n` schema columns contribute, in schema order.
pub open spec fn emit_fields_spec(
    fields: Seq<(String, SchematicField)>,
    rec: SchemaDataModel,
    columns: Option<Seq<Seq<char>>>,
    n: int,
) -> Seq<(Seq<char>, SimpleValueV)>
    decreases n,
{
    if n <= 0 {
        Seq::empty()
    } else {
        emit_fields_spec(fields, rec, columns, n - 1) + emit_field_spec(
            fields[n - 1].0@,
            fields[n - 1].1,
            rec,
            columns,
        )
    }
}

/// What the first `n` entries of the catch-all `Array` partition add:
/// every key the schema does not know is emitted with a `[]` suffix, so
/// values of deleted or never-registered repeating-group fields are still
/// recovered.
pub open spec fn leftover_spec(
    entries: Seq<(String, SchematicFieldValue)>,
    fields: Seq<(String, SchematicField)>,
    n: int,
) -> Seq<(Seq<char>, SimpleValueV)>
    decreases n,
{
    if n <= 0 {
        Seq::empty()
    } else {
        leftover_spec(entries, fields, n - 1) + if has_field(fields, entries[n - 1].0@) {
            Seq::empty()
        } else {
            seq![(entries[n - 1].0@ + "[]"@, external_of_spec(entries[n - 1].1@))]
        }
    }
}

/// The full external map of a record under a schema: every column's
/// contribution in schema order, then the unknown keys left in the
/// `Array` partition.
pub open spec fn external_map_spec(
    schema: SchemaModel,
    rec: SchemaDataModel,
    columns: Option<Seq<Seq<char>>>,
) -> Seq<(Seq<char>, SimpleValueV)> {
    let arr = entries_of(rec.partitions@, SchematicFieldType::Array);
    emit_fields_spec(schema.fields@, rec, columns, schema.fields@.len() as int) + leftover_spec(
        arr,
        schema.fields@,
        arr.len() as int,
    )
}

impl SchemaDataModel {
    /// Read the whole record out in its external shape, keyed by field
    /// id: reserved keys from the record's metadata, custom columns from
    /// their typed partitions, in schema order, skipping deleted columns,
    /// columns outside the requested set and columns without a value;
    /// then every unknown key left in the `Array` partition, suffixed
    /// with `[]`.
    pub fn to_external_map(&self, schema: &SchemaModel, columns: Option<&Vec<String>>) -> (r: Vec<
        (String, SimpleValue),
    >)
        requires
            record_wf(*self),
            schema_wf(*schema),
        ensures
            pairs_view(r@) == external_map_spec(*schema, *self, cols_view(columns)),
    {
        let mut out: Vec<(String, SimpleValue)> = Vec::new();
        let nf = schema.fields.len();
        let mut i: usize = 0;
        while i < nf
            invariant
                record_wf(*self),
                schema_wf(*schema),
                nf == schema.fields@.len(),
                0 <= i <= nf,
                pairs_view(out@) == emit_fields_spec(
                    schema.fields@,
                    *self,
                    cols_view(columns),
                    i as int,
                ),
            decreases nf - i,
        {
            let ghost pre = pairs_view(out@);
            let ghost gkey = schema.fields@[i as int].0@;
            let ghost gfield = schema.fields@[i as int].1;
            let ghost contribution = emit_field_spec(gkey, gfield, *self, cols_view(columns));
            let key = schema.fields[i].0.as_str();
            let deleted = schema.fields[i].1.is_deleted;
            if deleted {
                proof {
                    assert(pairs_view(out@) =~= pre + contribution);
                }
            } else if str_eq(key, "_id") {
                out.push((clone_str(&schema.fields[i].0), SimpleValue::Text(clone_str(
                    &self.public_id,
                ))));
                proof {
                    assert(pairs_view(out@) =~= pre + contribution);
                }
            } else if str_eq(key, "_owner") {
                out.push((clone_str(&schema.fields[i].0), SimpleValue::Text(String::from_str(
                    "00000000-0000-0000-0000-000000000000",
                ))));
                proof {
                    assert(pairs_view(out@) =~= pre + contribution);
                }
            } else if str_eq(key, "_createdAt") {
                out.push((clone_str(&schema.fields[i].0), SimpleValue::DateTime(self.created_at)));
                proof {
                    assert(pairs_view(out@) =~= pre + contribution);
                }
            } else if str_eq(key, "_updatedAt") {
                out.push((clone_str(&schema.fields[i].0), SimpleValue::DateTime(self.updated_at)));
                proof {
                    assert(pairs_view(out@) =~= pre + contribution);
                }
            } else {
                let filtered_out = match columns {
                    Some(cols) => !crate::text::contains_str(cols, key),
                    None => false,
                };
                if filtered_out {
                    proof {
                        assert(pairs_view(out@) =~= pre + contribution);
                    }
                } else {
                    match self.get_value(schema.fields[i].1.field_type, key) {
                        Some(v) => {
                            out.push((clone_str(&schema.fields[i].0), external_of(v)));
                            proof {
                                assert(pairs_view(out@) =~= pre + contribution);
                            }
                        },
                        None => {
                            proof {
                                assert(pairs_view(out@) =~= pre + contribution);
                            }
                        },
                    }
                }
            }
            i = i + 1;
        }
        let ghost emitted = emit_fields_spec(schema.fields@, *self, cols_view(columns), nf as int);
        match self.find_partition(SchematicFieldType::Array) {
            None => {
                proof {
                    let arr = entries_of(self.partitions@, SchematicFieldType::Array);
                    assert(arr =~= Seq::<(String, SchematicFieldValue)>::empty());
                    assert(pairs_view(out@) =~= emitted + leftover_spec(
                        arr,
                        schema.fields@,
                        arr.len() as int,
                    ));
                }
            },
            Some(pi) => {
                proof {
                    assert(part_idx(self.partitions@, SchematicFieldType::Array) == pi);
                }
                let part = &self.partitions[pi];
                let ne = part.entries.len();
                let mut k: usize = 0;
                while k < ne
                    invariant
                        record_wf(*self),
                        schema_wf(*schema),
                        ne == part.entries@.len(),
                        0 <= k <= ne,
                        part == self.partitions@[pi as int],
                        pi < self.partitions@.len(),
                        pairs_view(out@) == emitted + leftover_spec(
                            part.entries@,
                            schema.fields@,
                            k as int,
                        ),
                    decreases ne - k,
                {
                    let ghost pre = pairs_view(out@);
                    let ent_key = part.entries[k].0.as_str();
                    match schema.find_field(ent_key) {
                        Some(fi) => {
                            proof {
                                assert(has_field(schema.fields@, ent_key@));
                                assert(pairs_view(out@) =~= emitted + leftover_spec(
                                    part.entries@,
                                    schema.fields@,
                                    k + 1int,
                                ));
                            }
                        },
                        None => {
                            let suffixed = clone_str(&part.entries[k].0).concat("[]");
                            let ext = external_of(&part.entries[k].1);
                            let ghost elem = (
                                part.entries@[k as int].0@ + "[]"@,
                                external_of_spec(part.entries@[k as int].1@),
                            );
                            proof {
                                assert(suffixed@ == elem.0);
                                assert(ext@ == elem.1);
                            }
                            out.push((suffixed, ext));
                            proof {
                                assert(!has_field(schema.fields@, part.entries@[k as int].0@));
                                assert(pairs_view(out@) =~= pre.push(elem));
                                assert(leftover_spec(part.entries@, schema.fields@, k + 1int)
                                    =~= leftover_spec(part.entries@, schema.fields@, k as int)
                                    + seq![elem]);
                                assert(pairs_view(out@) =~= emitted + leftover_spec(
                                    part.entries@,
                                    schema.fields@,
                                    k + 1int,
                                ));
                            }
                        },
                    }
                    k = k + 1;
                }
                proof {
                    assert(entries_of(self.partitions@, SchematicFieldType::Array)
                        == part.entries@);
                }
            },
        }
        out
    }
}

/// Well-formedness carries over to any partition list with the same view.
proof fn lemma_wf_from_parts_view(a: Seq<FieldPartition>, b: Seq<FieldPartition>)
    requires
        parts_view(b) == parts_view(a),
        forall|i: int, j: int| 0 <= i < j < a.len() ==> a[i].field_type != a[j].field_type,
        forall|i: int| 0 <= i < a.len() ==> entries_unique(#[trigger] a[i].entries@),
        forall|i: int, j: int|
            0 <= i < a.len() && 0 <= j < a[i].entries@.len() ==> value_matches_type(
                a[i].field_type,
                #[trigger] a[i].entries@[j].1@,
            ),
    ensures
        forall|i: int, j: int| 0 <= i < j < b.len() ==> b[i].field_type != b[j].field_type,
        forall|i: int| 0 <= i < b.len() ==> entries_unique(#[trigger] b[i].entries@),
        forall|i: int, j: int|
            0 <= i < b.len() && 0 <= j < b[i].entries@.len() ==> value_matches_type(
                b[i].field_type,
                #[trigger] b[i].entries@[j].1@,
            ),
{
    assert(parts_view(b).len() == b.len());
    assert(parts_view(a).len() == a.len());
    assert(b.len() == a.len());
    assert forall|i: int| 0 <= i < b.len() implies #[trigger] b[i].field_type
        == a[i].field_type by {
        assert(parts_view(b)[i] == one_part_view(b[i]));
        assert(parts_view(a)[i] == one_part_view(a[i]));
    }
    assert forall|i: int| 0 <= i < b.len() implies #[trigger] entries_view(b[i].entries@)
        == entries_view(a[i].entries@) by {
        assert(parts_view(b)[i] == one_part_view(b[i]));
        assert(parts_view(a)[i] == one_part_view(a[i]));
    }
    assert forall|i: int| 0 <= i < b.len() implies b[i].entries@.len()
        == a[i].entries@.len() by {
        assert(entries_view(b[i].entries@).len() == b[i].entries@.len());
        assert(entries_view(a[i].entries@).len() == a[i].entries@.len());
        assert(entries_view(b[i].entries@) == entries_view(a[i].entries@));
    }
    assert forall|i: int, j: int|
        0 <= i < b.len() && 0 <= j < b[i].entries@.len() implies #[trigger] b[i].entries@[j].0@
        == a[i].entries@[j].0@ && b[i].entries@[j].1@ == a[i].entries@[j].1@ by {
        assert(entries_view(b[i].entries@) == entries_view(a[i].entries@));
        assert(entries_view(b[i].entries@)[j] == (b[i].entries@[j].0@, b[i].entries@[j].1@));
        assert(entries_view(a[i].entries@)[j] == (a[i].entries@[j].0@, a[i].entries@[j].1@));
    }
    assert forall|i: int| 0 <= i < b.len() implies entries_unique(#[trigger] b[i].entries@) by {
        assert(entries_unique(a[i].entries@));
        assert(forall|x: int, y: int|
            0 <= x < y < b[i].entries@.len() ==> b[i].entries@[x].0@ == a[i].entries@[x].0@ && b[
                i
            ].entries@[y].0@ == a[i].entries@[y].0@);
    }
    assert forall|i: int, j: int|
        0 <= i < b.len() && 0 <= j < b[i].entries@.len() implies value_matches_type(
        b[i].field_type,
        #[trigger] b[i].entries@[j].1@,
    ) by {
        assert(a[i].entries@.len() == b[i].entries@.len());
        assert(entries_view(b[i].entries@) == entries_view(a[i].entries@));
        assert(entries_view(b[i].entries@)[j] == (b[i].entries@[j].0@, b[i].entries@[j].1@));
        assert(entries_view(a[i].entries@)[j] == (a[i].entries@[j].0@, a[i].entries@[j].1@));
        assert(b[i].entries@[j].1@ == a[i].entries@[j].1@);
        assert(b[i].field_type == a[i].field_type);
        assert(value_matches_type(a[i].field_type, a[i].entries@[j].1@));
    }
}

} // verus!
