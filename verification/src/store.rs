//! The in-memory collection store: every schema definition, every data
//! record and every tag, with the transactional operations the engine
//! offers. Each operation either completes whole or leaves the store
//! exactly as it was; nothing here is ever partially applied.
use vstd::prelude::*;

use crate::SchemaError;
use crate::dates::DateTime;
use crate::fields::{
    SchemaDataTagModel, SchemaView, SchematicField, SchematicFieldType, same_tag_slot,
};
use crate::records::{
    SchemaDataModel, entries_of, entries_unique, lemma_parse_value_matches, lemma_remove_props,
    lemma_upsert_props, lookup_entries, lookup_value, part_has, part_idx, parts_view, record_wf,
    remove_spec, upsert_spec,
};
use crate::schema::{
    SchemaModel, add_column_check, field_at, has_field, schema_wf, system_fields_spec,
    valid_schema_names,
};
use crate::text::{eq_ignore_case, str_eq};

verus! {

/// The whole data set: schemas, rows and tags, with the id counters the
/// store assigns from.
#[derive(Debug)]
pub struct CmsStore {
    pub schemas: Vec<SchemaModel>,
    pub records: Vec<SchemaDataModel>,
    pub tags: Vec<SchemaDataTagModel>,
    pub next_schema_id: i32,
    pub next_record_id: i64,
    pub next_tag_id: i64,
}

/// Well-formedness of the store: every schema and record is well-formed,
/// identifiers sit below their counters, a slug is unique per addon, and
/// no two tags of one column share a name up to ASCII case.
pub open spec fn store_wf(s: CmsStore) -> bool {
    &&& 1 <= s.next_schema_id
    &&& 1 <= s.next_record_id
    &&& 1 <= s.next_tag_id
    &&& forall|i: int| 0 <= i < s.schemas@.len() ==> schema_wf(#[trigger] s.schemas@[i])
    &&& forall|i: int| 0 <= i < s.schemas@.len() ==> (#[trigger] s.schemas@[i].id) < s.next_schema_id
    &&& forall|i: int, j: int|
        0 <= i < j < s.schemas@.len() ==> !(s.schemas@[i].addon_id == s.schemas@[j].addon_id
            && s.schemas@[i].name@ == s.schemas@[j].name@)
    &&& forall|i: int| 0 <= i < s.records@.len() ==> record_wf(#[trigger] s.records@[i])
    &&& forall|i: int| 0 <= i < s.records@.len() ==> (#[trigger] s.records@[i].id) < s.next_record_id
    &&& forall|i: int| 0 <= i < s.tags@.len() ==> (#[trigger] s.tags@[i].id) < s.next_tag_id
    &&& forall|i: int, j: int|
        0 <= i < j < s.tags@.len() ==> !same_tag_slot(
            s.tags@[i].schema_id as int,
            s.tags@[i].row_id@,
            s.tags@[i].name@,
            s.tags@[j],
        )
}

/// A schema with this slug exists for the addon, soft-deleted or not.
pub open spec fn has_schema(schemas: Seq<SchemaModel>, addon_id: int, name: Seq<char>) -> bool {
    exists|i: int|
        0 <= i < schemas.len() && (#[trigger] schemas[i]).addon_id == addon_id && schemas[i].name@
            == name
}

/// The position of the addon's schema with this slug.
pub open spec fn schema_idx(schemas: Seq<SchemaModel>, addon_id: int, name: Seq<char>) -> int {
    choose|i: int|
        0 <= i < schemas.len() && (#[trigger] schemas[i]).addon_id == addon_id && schemas[i].name@
            == name
}

/// The decision of the create-schema checks, in order: the naming rules,
/// then slug uniqueness per addon.
pub open spec fn create_schema_check(
    schemas: Seq<SchemaModel>,
    addon_id: int,
    slug: Seq<char>,
    display: Seq<char>,
) -> Option<SchemaError> {
    if !valid_schema_names(slug, display) {
        Some(SchemaError::InvalidName)
    } else if has_schema(schemas, addon_id, slug) {
        Some(SchemaError::SchemaExists)
    } else {
        None
    }
}

impl CmsStore {
    /// An empty store.
    pub fn new() -> (r: Self)
        ensures
            store_wf(r),
            r.schemas@.len() == 0 && r.records@.len() == 0 && r.tags@.len() == 0,
    {
        CmsStore {
            schemas: Vec::new(),
            records: Vec::new(),
            tags: Vec::new(),
            next_schema_id: 1,
            next_record_id: 1,
            next_tag_id: 1,
        }
    }

    /// Find the addon's schema with this slug.
    pub fn find_schema(&self, addon_id: i32, name: &str) -> (r: Option<usize>)
        ensures
            match r {
                Some(i) => i < self.schemas@.len() && self.schemas@[i as int].addon_id == addon_id
                    && self.schemas@[i as int].name@ == name@,
                None => !has_schema(self.schemas@, addon_id as int, name@),
            },
    {
        let n = self.schemas.len();
        let mut i: usize = 0;
        while i < n
            invariant
                n == self.schemas@.len(),
                0 <= i <= n,
                forall|j: int|
                    0 <= j < i ==> !((#[trigger] self.schemas@[j]).addon_id == addon_id
                        && self.schemas@[j].name@ == name@),
            decreases n - i,
        {
            if self.schemas[i].addon_id == addon_id && str_eq(self.schemas[i].name.as_str(), name) {
                return Some(i);
            }
            i = i + 1;
        }
        None
    }

    /// Borrow a schema by position.
    pub fn schema_at(&self, i: usize) -> (r: &SchemaModel)
        requires
            i < self.schemas@.len(),
        ensures
            *r == self.schemas@[i as int],
    {
        &self.schemas[i]
    }

    /// Create a collection: the slug and display name must pass the
    /// naming rules and the slug must be new for the addon. The schema
    /// starts with the four built-in columns and gets the next schema id.
    pub fn create_schema(
        &mut self,
        addon_id: i32,
        slug: String,
        display_name: String,
        views: Vec<SchemaView>,
        now: DateTime,
    ) -> (r: Result<i32, SchemaError>)
        requires
            store_wf(*old(self)),
            old(self).next_schema_id < i32::MAX,
        ensures
            store_wf(*final(self)),
            final(self).records == old(self).records && final(self).tags == old(self).tags,
            final(self).next_record_id == old(self).next_record_id && final(self).next_tag_id
                == old(self).next_tag_id,
            match r {
                Err(e) => *final(self) == *old(self) && create_schema_check(
                    old(self).schemas@,
                    addon_id as int,
                    slug@,
                    display_name@,
                ) == Some(e),
                Ok(id) => {
                    &&& create_schema_check(
                        old(self).schemas@,
                        addon_id as int,
                        slug@,
                        display_name@,
                    ) is None
                    &&& id == old(self).next_schema_id
                    &&& final(self).next_schema_id == old(self).next_schema_id + 1
                    &&& final(self).schemas@.len() == old(self).schemas@.len() + 1
                    &&& final(self).schemas@.drop_last() == old(self).schemas@
                    &&& {
                        let s = final(self).schemas@.last();
                        &&& s.id == id && s.addon_id == addon_id
                        &&& s.name@ == slug@
                        &&& s.display_name@ == crate::text::trim_seq(display_name@)
                        &&& system_fields_spec(s.fields@)
                        &&& s.primary_field@ == "_createdAt"@
                        &&& s.store@ == "cms"@
                        &&& s.version == 1
                        &&& s.permissions.insert is Admin && s.permissions.update is Admin
                        &&& s.permissions.remove is Admin && s.permissions.read is Admin
                        &&& s.allowed_operations@.len() == 0
                        &&& s.ttl is None && s.default_sort is None
                        &&& s.views == views
                        &&& s.created_at == now && s.updated_at == now && s.deleted_at is None
                    }
                },
            },
    {
        let exists_already = self.find_schema(addon_id, slug.as_str()).is_some();
        let id = self.next_schema_id;
        match SchemaModel::create(id, addon_id, slug, display_name, views, now) {
            Err(e) => Err(e),
            Ok(s) => {
                if exists_already {
                    return Err(SchemaError::SchemaExists);
                }
                self.schemas.push(s);
                self.next_schema_id = id + 1;
                Ok(id)
            },
        }
    }

    /// Add a column to the addon's schema with this slug, stamping the
    /// schema on success. The column checks and their order are those of
    /// `SchemaModel::add_column`.
    pub fn add_column(
        &mut self,
        addon_id: i32,
        slug: &str,
        id: &str,
        name: String,
        type_of: SchematicFieldType,
        referenced_schema: Option<String>,
        now: DateTime,
    ) -> (r: Result<SchematicField, SchemaError>)
        requires
            store_wf(*old(self)),
        ensures
            store_wf(*final(self)),
            final(self).records == old(self).records && final(self).tags == old(self).tags,
            final(self).next_schema_id == old(self).next_schema_id && final(self).next_record_id
                == old(self).next_record_id && final(self).next_tag_id == old(self).next_tag_id,
            !has_schema(old(self).schemas@, addon_id as int, slug@) ==> r == Err::<
                SchematicField,
                SchemaError,
            >(SchemaError::SchemaNotFound) && final(self).schemas@ == old(self).schemas@,
            has_schema(old(self).schemas@, addon_id as int, slug@) ==> ({
                let si = schema_idx(old(self).schemas@, addon_id as int, slug@);
                let before = old(self).schemas@[si];
                &&& forall|j: int|
                    0 <= j < old(self).schemas@.len() && j != si ==> final(self).schemas@[j] == old(
                        self,
                    ).schemas@[j]
                &&& final(self).schemas@.len() == old(self).schemas@.len()
                &&& match r {
                    Err(e) => final(self).schemas@[si] == before && add_column_check(
                        before.fields@,
                        crate::text::trim_seq(id@),
                        type_of,
                        referenced_schema is Some,
                    ) == Some(e),
                    Ok(f) => {
                        let after = final(self).schemas@[si];
                        &&& add_column_check(
                            before.fields@,
                            crate::text::trim_seq(id@),
                            type_of,
                            referenced_schema is Some,
                        ) is None
                        &&& after.fields@.len() == before.fields@.len() + 1
                        &&& after.fields@.drop_last() == before.fields@
                        &&& after.fields@.last().0@ == crate::text::trim_seq(id@)
                        &&& after.fields@.last().1@ == f@
                        &&& f.display_name@ == name@ && f.sortable && !f.is_deleted
                            && !f.system_field
                        &&& f.field_type == type_of
                        &&& f.index == before.fields@.len()
                        &&& f@.referenced_schema == (match referenced_schema {
                            Some(s) => Some(s@),
                            None => None::<Seq<char>>,
                        })
                        &&& after.updated_at == now
                        &&& after == (SchemaModel {
                            fields: after.fields,
                            updated_at: now,
                            ..before
                        })
                    },
                }
            }),
    {
        let si = match self.find_schema(addon_id, slug) {
            Some(i) => i,
            None => {
                return Err(SchemaError::SchemaNotFound);
            },
        };
        proof {
            assert(schema_idx(self.schemas@, addon_id as int, slug@) == si);
        }
        let mut s = self.schemas.remove(si);
        let out = s.add_column(id, name, type_of, referenced_schema);
        if out.is_ok() {
            s.updated_at = now;
        }
        self.schemas.insert(si, s);
        proof {
            assert(final(self).schemas@ =~= old(self).schemas@.update(
                si as int,
                final(self).schemas@[si as int],
            ));
            if out is Err {
                assert(final(self).schemas@ =~= old(self).schemas@);
            }
        }
        out
    }

    /// Soft-delete a column of the addon's schema with this slug,
    /// stamping the schema on success. The entry stays and keeps
    /// counting toward the lifetime cap; stored values are untouched and
    /// merely become unreachable.
    pub fn delete_column(
        &mut self,
        addon_id: i32,
        slug: &str,
        column_id: &str,
        now: DateTime,
    ) -> (r: Result<(), SchemaError>)
        requires
            store_wf(*old(self)),
        ensures
            store_wf(*final(self)),
            final(self).records == old(self).records && final(self).tags == old(self).tags,
            final(self).next_schema_id == old(self).next_schema_id && final(self).next_record_id
                == old(self).next_record_id && final(self).next_tag_id == old(self).next_tag_id,
            !has_schema(old(self).schemas@, addon_id as int, slug@) ==> r == Err::<
                (),
                SchemaError,
            >(SchemaError::SchemaNotFound) && final(self).schemas@ == old(self).schemas@,
            has_schema(old(self).schemas@, addon_id as int, slug@) ==> ({
                let si = schema_idx(old(self).schemas@, addon_id as int, slug@);
                let before = old(self).schemas@[si];
                &&& forall|j: int|
                    0 <= j < old(self).schemas@.len() && j != si ==> final(self).schemas@[j] == old(
                        self,
                    ).schemas@[j]
                &&& final(self).schemas@.len() == old(self).schemas@.len()
                &&& match r {
                    Err(e) => final(self).schemas@[si] == before && if !has_field(
                        before.fields@,
                        column_id@,
                    ) {
                        e == SchemaError::FieldNotFound
                    } else {
                        e == SchemaError::SystemColumn && field_at(
                            before.fields@,
                            column_id@,
                        ).system_field
                    },
                    Ok(_) => {
                        let after = final(self).schemas@[si];
                        let fi = crate::schema::field_idx(before.fields@, column_id@);
                        &&& has_field(before.fields@, column_id@)
                        &&& !field_at(before.fields@, column_id@).system_field
                        &&& after.fields@.len() == before.fields@.len()
                        &&& after.fields@[fi].1.is_deleted
                        &&& after.fields@[fi].0 == before.fields@[fi].0
                        &&& after.fields@[fi].1 == (SchematicField {
                            is_deleted: true,
                            ..before.fields@[fi].1
                        })
                        &&& forall|j: int|
                            0 <= j < after.fields@.len() && j != fi ==> after.fields@[j]
                                == before.fields@[j]
                        &&& after.updated_at == now
                        &&& after == (SchemaModel {
                            fields: after.fields,
                            updated_at: now,
                            ..before
                        })
                    },
                }
            }),
    {
        let si = match self.find_schema(addon_id, slug) {
            Some(i) => i,
            None => {
                return Err(SchemaError::SchemaNotFound);
            },
        };
        proof {
            assert(schema_idx(self.schemas@, addon_id as int, slug@) == si);
        }
        let mut s = self.schemas.remove(si);
        let out = s.delete_column(column_id);
        if out.is_ok() {
            s.updated_at = now;
        }
        self.schemas.insert(si, s);
        proof {
            assert(final(self).schemas@ =~= old(self).schemas@.update(
                si as int,
                final(self).schemas@[si as int],
            ));
            if out is Err {
                assert(final(self).schemas@ =~= old(self).schemas@);
            }
        }
        out
    }

    /// Replace the saved views of the addon's schema with this slug.
    pub fn update_views(
        &mut self,
        addon_id: i32,
        slug: &str,
        views: Vec<SchemaView>,
        now: DateTime,
    ) -> (r: Result<(), SchemaError>)
        requires
            store_wf(*old(self)),
        ensures
            store_wf(*final(self)),
            final(self).records == old(self).records && final(self).tags == old(self).tags,
            match r {
                Err(e) => e == SchemaError::SchemaNotFound && !has_schema(
                    old(self).schemas@,
                    addon_id as int,
                    slug@,
                ) && final(self).schemas@ == old(self).schemas@,
                Ok(_) => has_schema(old(self).schemas@, addon_id as int, slug@) && ({
                    let si = schema_idx(old(self).schemas@, addon_id as int, slug@);
                    &&& forall|j: int|
                        0 <= j < old(self).schemas@.len() && j != si ==> final(self).schemas@[j]
                            == old(self).schemas@[j]
                    &&& final(self).schemas@.len() == old(self).schemas@.len()
                    &&& final(self).schemas@[si] == (SchemaModel {
                        views: final(self).schemas@[si].views,
                        updated_at: now,
                        ..old(self).schemas@[si]
                    })
                    &&& final(self).schemas@[si].views == views
                }),
            },
    {
        let si = match self.find_schema(addon_id, slug) {
            Some(i) => i,
            None => {
                return Err(SchemaError::SchemaNotFound);
            },
        };
        proof {
            assert(schema_idx(self.schemas@, addon_id as int, slug@) == si);
        }
        let mut s = self.schemas.remove(si);
        s.update_views(views);
        s.updated_at = now;
        self.schemas.insert(si, s);
        proof {
            assert(final(self).schemas@ =~= old(self).schemas@.update(
                si as int,
                final(self).schemas@[si as int],
            ));
        }
        Ok(())
    }
}

/// The position of the first record with this public identifier, from
/// position `i` on; `-1` when there is none.
pub open spec fn row_find_from(records: Seq<SchemaDataModel>, pid: Seq<char>, i: int) -> int
    decreases records.len() - i,
{
    if i < 0 || i >= records.len() {
        -1
    } else if records[i].public_id@ == pid {
        i
    } else {
        row_find_from(records, pid, i + 1)
    }
}

/// The position of the first record with this public identifier.
pub open spec fn row_find(records: Seq<SchemaDataModel>, pid: Seq<char>) -> int {
    row_find_from(records, pid, 0)
}

/// A tag already occupies this column's slot for this name, up to case.
pub open spec fn tag_slot_has(
    tags: Seq<SchemaDataTagModel>,
    schema_id: int,
    row_id: Seq<char>,
    name: Seq<char>,
) -> bool {
    exists|i: int| 0 <= i < tags.len() && same_tag_slot(schema_id, row_id, name, #[trigger] tags[i])
}

/// The position of the tag occupying the slot.
pub open spec fn tag_slot_idx(
    tags: Seq<SchemaDataTagModel>,
    schema_id: int,
    row_id: Seq<char>,
    name: Seq<char>,
) -> int {
    choose|i: int|
        0 <= i < tags.len() && same_tag_slot(schema_id, row_id, name, #[trigger] tags[i])
}

/// The id of the tag registered for this column under this name, up to
/// ASCII case, if one exists.
pub open spec fn tag_lookup(
    tags: Seq<SchemaDataTagModel>,
    schema_id: int,
    row_id: Seq<char>,
    name: Seq<char>,
) -> Option<i64> {
    if tag_slot_has(tags, schema_id, row_id, name) {
        Some(tags[tag_slot_idx(tags, schema_id, row_id, name)].id)
    } else {
        None
    }
}

/// Tag creation is idempotent up to ASCII case: once a tag fills a
/// column's slot, a later lookup under any case variant of its name finds
/// that very tag, so concurrent or repeated creations under case-varying
/// spellings all hand back one identical tag id.
pub proof fn lemma_tag_creation_idempotent(
    tags: Seq<SchemaDataTagModel>,
    t: SchemaDataTagModel,
    schema_id: int,
    row_id: Seq<char>,
    n2: Seq<char>,
)
    requires
        tag_lookup(tags, schema_id, row_id, t.name@) is None,
        t.schema_id == schema_id,
        t.row_id@ == row_id,
        crate::text::eq_ignore_case_seq(t.name@, n2),
    ensures
        tag_lookup(tags.push(t), schema_id, row_id, n2) == Some(t.id),
        tag_lookup(tags.push(t), schema_id, row_id, t.name@) == Some(t.id),
{
    let p = tags.push(t);
    assert(same_tag_slot(schema_id, row_id, n2, p[tags.len() as int]));
    assert(same_tag_slot(schema_id, row_id, t.name@, p[tags.len() as int]));
    assert(tag_slot_has(p, schema_id, row_id, n2));
    assert(tag_slot_has(p, schema_id, row_id, t.name@));
    let ci = tag_slot_idx(p, schema_id, row_id, n2);
    assert(0 <= ci < p.len() && same_tag_slot(schema_id, row_id, n2, p[ci]));
    if ci < tags.len() {
        assert(same_tag_slot(schema_id, row_id, t.name@, tags[ci]));
        assert(tag_slot_has(tags, schema_id, row_id, t.name@));
        assert(false);
    }
    let cj = tag_slot_idx(p, schema_id, row_id, t.name@);
    assert(0 <= cj < p.len() && same_tag_slot(schema_id, row_id, t.name@, p[cj]));
    if cj < tags.len() {
        assert(tag_slot_has(tags, schema_id, row_id, t.name@));
        assert(false);
    }
}

impl CmsStore {
    /// Find the first record with this public identifier.
    pub fn find_row(&self, public_id: &str) -> (r: Option<usize>)
        ensures
            match r {
                Some(i) => row_find(self.records@, public_id@) == i && i < self.records@.len()
                    && self.records@[i as int].public_id@ == public_id@,
                None => row_find(self.records@, public_id@) == -1,
            },
    {
        let n = self.records.len();
        let mut i: usize = 0;
        while i < n
            invariant
                n == self.records@.len(),
                0 <= i <= n,
                row_find(self.records@, public_id@) == row_find_from(
                    self.records@,
                    public_id@,
                    i as int,
                ),
            decreases n - i,
        {
            if str_eq(self.records[i].public_id.as_str(), public_id) {
                return Some(i);
            }
            i = i + 1;
        }
        None
    }

    /// Borrow a record by position.
    pub fn record_at(&self, i: usize) -> (r: &SchemaDataModel)
        requires
            i < self.records@.len(),
        ensures
            *r == self.records@[i as int],
    {
        &self.records[i]
    }

    /// Create an empty row for the addon's schema with this slug, under
    /// the next record id and a fresh public identifier.
    pub fn create_row(&mut self, addon_id: i32, slug: &str, now: DateTime) -> (r: Result<
        i64,
        SchemaError,
    >)
        requires
            store_wf(*old(self)),
            old(self).next_record_id < i64::MAX,
        ensures
            store_wf(*final(self)),
            final(self).schemas == old(self).schemas && final(self).tags == old(self).tags,
            final(self).next_schema_id == old(self).next_schema_id && final(self).next_tag_id
                == old(self).next_tag_id,
            match r {
                Err(e) => *final(self) == *old(self) && e == SchemaError::SchemaNotFound
                    && !has_schema(old(self).schemas@, addon_id as int, slug@),
                Ok(id) => {
                    &&& has_schema(old(self).schemas@, addon_id as int, slug@)
                    &&& id == old(self).next_record_id
                    &&& final(self).next_record_id == old(self).next_record_id + 1
                    &&& final(self).records@.len() == old(self).records@.len() + 1
                    &&& final(self).records@.drop_last() == old(self).records@
                    &&& {
                        let rec = final(self).records@.last();
                        let si = schema_idx(old(self).schemas@, addon_id as int, slug@);
                        &&& rec.id == id && rec.addon_id == addon_id
                        &&& rec.schema_id == old(self).schemas@[si].id
                        &&& rec.partitions@.len() == 0
                        &&& rec.public_id@.len() == 36
                        &&& rec.created_at == now && rec.updated_at == now && rec.deleted_at
                            is None
                    }
                },
            },
    {
        let si = match self.find_schema(addon_id, slug) {
            Some(i) => i,
            None => {
                return Err(SchemaError::SchemaNotFound);
            },
        };
        proof {
            assert(schema_idx(self.schemas@, addon_id as int, slug@) == si);
        }
        let schema_id_val = self.schemas[si].id;
        let id = self.next_record_id;
        let mut rec = SchemaDataModel::new(
            addon_id,
            schema_id_val,
            crate::trusted::fresh_public_id(),
            now,
        );
        rec.id = id;
        self.records.push(rec);
        self.next_record_id = id + 1;
        Ok(id)
    }

    /// Copy the row with this public identifier: every partition carried
    /// over verbatim, under the next record id, a fresh public identifier
    /// and fresh timestamps.
    pub fn duplicate_row(&mut self, public_id: &str, now: DateTime) -> (r: Result<
        i64,
        SchemaError,
    >)
        requires
            store_wf(*old(self)),
            old(self).next_record_id < i64::MAX,
        ensures
            store_wf(*final(self)),
            final(self).schemas == old(self).schemas && final(self).tags == old(self).tags,
            final(self).next_schema_id == old(self).next_schema_id && final(self).next_tag_id
                == old(self).next_tag_id,
            match r {
                Err(e) => *final(self) == *old(self) && e == SchemaError::RecordNotFound
                    && row_find(old(self).records@, public_id@) == -1,
                Ok(id) => {
                    &&& row_find(old(self).records@, public_id@) >= 0
                    &&& id == old(self).next_record_id
                    &&& final(self).next_record_id == old(self).next_record_id + 1
                    &&& final(self).records@.len() == old(self).records@.len() + 1
                    &&& final(self).records@.drop_last() == old(self).records@
                    &&& {
                        let src = old(self).records@[row_find(old(self).records@, public_id@)];
                        let rec = final(self).records@.last();
                        &&& rec.id == id
                        &&& rec.addon_id == src.addon_id && rec.schema_id == src.schema_id
                        &&& crate::records::parts_view(rec.partitions@) == crate::records::parts_view(
                            src.partitions@,
                        )
                        &&& rec.public_id@.len() == 36
                        &&& rec.created_at == now && rec.updated_at == now && rec.deleted_at
                            is None
                    }
                },
            },
    {
        let ri = match self.find_row(public_id) {
            Some(i) => i,
            None => {
                return Err(SchemaError::RecordNotFound);
            },
        };
        let id = self.next_record_id;
        let rec = self.records[ri].duplicate(id, crate::trusted::fresh_public_id(), now);
        self.records.push(rec);
        self.next_record_id = id + 1;
        Ok(id)
    }

    /// Soft-delete the row with this public identifier.
    pub fn delete_row(&mut self, public_id: &str, now: DateTime) -> (r: Result<(), SchemaError>)
        requires
            store_wf(*old(self)),
        ensures
            store_wf(*final(self)),
            final(self).schemas == old(self).schemas && final(self).tags == old(self).tags,
            final(self).next_schema_id == old(self).next_schema_id && final(self).next_record_id
                == old(self).next_record_id && final(self).next_tag_id == old(self).next_tag_id,
            match r {
                Err(e) => *final(self) == *old(self) && e == SchemaError::RecordNotFound
                    && row_find(old(self).records@, public_id@) == -1,
                Ok(_) => {
                    let ri = row_find(old(self).records@, public_id@);
                    &&& ri >= 0
                    &&& final(self).records@.len() == old(self).records@.len()
                    &&& final(self).records@[ri] == (SchemaDataModel {
                        deleted_at: Some(now),
                        ..old(self).records@[ri]
                    })
                    &&& forall|j: int|
                        0 <= j < final(self).records@.len() && j != ri ==> final(self).records@[j]
                            == old(self).records@[j]
                },
            },
    {
        let ri = match self.find_row(public_id) {
            Some(i) => i,
            None => {
                return Err(SchemaError::RecordNotFound);
            },
        };
        let mut rec = self.records.remove(ri);
        rec.deleted_at = Some(now);
        self.records.insert(ri, rec);
        proof {
            assert(final(self).records@ =~= old(self).records@.update(
                ri as int,
                final(self).records@[ri as int],
            ));
        }
        Ok(())
    }

    /// Store or clear one cell of the row with this public identifier.
    /// The column must exist, undeleted, in the addon's schema with this
    /// slug; the value is converted by the column's declared type and
    /// written to that type's partition alone. Clearing a cell whose
    /// whole partition was never written is refused as a no-op. On any
    /// refusal no record changes.
    pub fn update_cell(
        &mut self,
        addon_id: i32,
        slug: &str,
        row_public_id: &str,
        field_name: &str,
        value: Option<crate::values::SimpleValue>,
        now: DateTime,
    ) -> (r: Result<(), SchemaError>)
        requires
            store_wf(*old(self)),
        ensures
            store_wf(*final(self)),
            final(self).schemas == old(self).schemas && final(self).tags == old(self).tags,
            final(self).next_schema_id == old(self).next_schema_id && final(self).next_record_id
                == old(self).next_record_id && final(self).next_tag_id == old(self).next_tag_id,
            ({
                let gv = match value {
                    Some(v) => Some(v@),
                    None => None::<crate::values::SimpleValueV>,
                };
                match r {
                    Err(e) => final(self).records@ == old(self).records@ && if !has_schema(
                        old(self).schemas@,
                        addon_id as int,
                        slug@,
                    ) {
                        e == SchemaError::SchemaNotFound
                    } else {
                        let schema = old(self).schemas@[schema_idx(
                            old(self).schemas@,
                            addon_id as int,
                            slug@,
                        )];
                        if !has_field(schema.fields@, field_name@) || field_at(
                            schema.fields@,
                            field_name@,
                        ).is_deleted {
                            e == SchemaError::FieldNotFound
                        } else if row_find(old(self).records@, row_public_id@) == -1 {
                            e == SchemaError::RecordNotFound
                        } else {
                            let t = field_at(schema.fields@, field_name@).field_type;
                            match gv {
                                Some(vv) => crate::values::parse_value_spec(t, vv) == Err::<
                                    crate::values::SchematicFieldValueV,
                                    SchemaError,
                                >(e),
                                None => e == SchemaError::NoOpUpdate && !crate::records::part_has(
                                    old(self).records@[row_find(
                                        old(self).records@,
                                        row_public_id@,
                                    )].partitions@,
                                    t,
                                ),
                            }
                        }
                    },
                    Ok(_) => {
                        &&& has_schema(old(self).schemas@, addon_id as int, slug@)
                        &&& {
                            let schema = old(self).schemas@[schema_idx(
                                old(self).schemas@,
                                addon_id as int,
                                slug@,
                            )];
                            let t = field_at(schema.fields@, field_name@).field_type;
                            let ri = row_find(old(self).records@, row_public_id@);
                            let rold = old(self).records@[ri];
                            let rnew = final(self).records@[ri];
                            &&& has_field(schema.fields@, field_name@)
                            &&& !field_at(schema.fields@, field_name@).is_deleted
                            &&& ri >= 0
                            &&& final(self).records@.len() == old(self).records@.len()
                            &&& forall|j: int|
                                0 <= j < final(self).records@.len() && j != ri
                                    ==> final(self).records@[j] == old(self).records@[j]
                            &&& rnew == (SchemaDataModel {
                                partitions: rnew.partitions,
                                updated_at: now,
                                ..rold
                            })
                            &&& forall|t2: SchematicFieldType|
                                t2 != t ==> #[trigger] crate::records::entries_of(
                                    rnew.partitions@,
                                    t2,
                                ) == crate::records::entries_of(rold.partitions@, t2)
                            &&& match gv {
                                Some(vv) => crate::values::parse_value_spec(t, vv) is Ok
                                    && crate::records::lookup_value(
                                    rnew.partitions@,
                                    t,
                                    field_name@,
                                ) == Some(crate::values::parse_value_spec(t, vv)->Ok_0),
                                None => crate::records::lookup_value(
                                    rnew.partitions@,
                                    t,
                                    field_name@,
                                ) is None,
                            }
                            &&& forall|k: Seq<char>|
                                k != field_name@ ==> #[trigger] crate::records::lookup_value(
                                    rnew.partitions@,
                                    t,
                                    k,
                                ) == crate::records::lookup_value(rold.partitions@, t, k)
                        }
                    },
                }
            }),
    {
        let si = match self.find_schema(addon_id, slug) {
            Some(i) => i,
            None => {
                return Err(SchemaError::SchemaNotFound);
            },
        };
        proof {
            assert(schema_idx(self.schemas@, addon_id as int, slug@) == si);
        }
        let fi = match self.schemas[si].find_field(field_name) {
            Some(i) => i,
            None => {
                return Err(SchemaError::FieldNotFound);
            },
        };
        proof {
            assert(has_field(self.schemas@[si as int].fields@, field_name@));
            assert(crate::schema::field_idx(self.schemas@[si as int].fields@, field_name@) == fi);
        }
        if self.schemas[si].fields[fi].1.is_deleted {
            return Err(SchemaError::FieldNotFound);
        }
        let t = self.schemas[si].fields[fi].1.field_type;
        let ri = match self.find_row(row_public_id) {
            Some(i) => i,
            None => {
                return Err(SchemaError::RecordNotFound);
            },
        };
        let ghost gv = match &value {
            Some(v) => Some(v@),
            None => None::<crate::values::SimpleValueV>,
        };
        let converted = match value {
            Some(v) => match t.parse_value(v) {
                Ok(fv) => Some(fv),
                Err(e) => {
                    return Err(e);
                },
            },
            None => None,
        };
        proof {
            if gv is Some {
                lemma_parse_value_matches(t, gv->Some_0);
            }
        }
        let mut rec = self.records.remove(ri);
        let ghost rold = rec;
        let key_str = String::from_str(field_name);
        let ghost gkey = key_str;
        let ghost gconv = converted;
        let out = rec.update_field(key_str, t, converted, now);
        match out {
            Ok(_) => {
                proof {
                    let old_entries = entries_of(rold.partitions@, t);
                    assert(entries_unique(old_entries)) by {
                        if part_has(rold.partitions@, t) {
                            let pi = part_idx(rold.partitions@, t);
                            assert(0 <= pi < rold.partitions@.len()
                                && rold.partitions@[pi].field_type == t);
                            assert(entries_unique(rold.partitions@[pi].entries@));
                        }
                    }
                    match gconv {
                        Some(fv) => {
                            lemma_upsert_props(old_entries, gkey, fv);
                        },
                        None => {
                            lemma_remove_props(old_entries, gkey@);
                        },
                    }
                }
                self.records.insert(ri, rec);
                proof {
                    let old_entries = entries_of(rold.partitions@, t);
                    assert(final(self).records@ =~= old(self).records@.update(
                        ri as int,
                        final(self).records@[ri as int],
                    ));
                    assert(final(self).records@[ri as int] == rec);
                    assert(old(self).records@[ri as int] == rold);
                    assert(gkey@ == field_name@);
                    match gconv {
                        Some(fv) => {
                            assert(gv is Some);
                            assert(fv@ == crate::values::parse_value_spec(t, gv->Some_0)->Ok_0);
                        },
                        None => {
                            assert(gv is None);
                        },
                    }
                    assert(forall|k: Seq<char>|
                        #[trigger] lookup_value(rold.partitions@, t, k) == lookup_entries(
                            old_entries,
                            k,
                        ));
                    match gconv {
                        Some(fv) => {
                            assert(entries_of(rec.partitions@, t) == upsert_spec(
                                old_entries,
                                gkey,
                                fv,
                            ));
                            assert(lookup_value(rec.partitions@, t, field_name@) == Some(fv@));
                            assert(forall|k: Seq<char>|
                                k != field_name@ ==> #[trigger] lookup_value(rec.partitions@, t, k)
                                    == lookup_entries(old_entries, k));
                        },
                        None => {
                            assert(entries_of(rec.partitions@, t) == remove_spec(
                                old_entries,
                                gkey@,
                            ));
                            assert(lookup_value(rec.partitions@, t, field_name@) is None);
                            assert(forall|k: Seq<char>|
                                k != field_name@ ==> #[trigger] lookup_value(rec.partitions@, t, k)
                                    == lookup_entries(old_entries, k));
                        },
                    }
                    let schema = old(self).schemas@[schema_idx(
                        old(self).schemas@,
                        addon_id as int,
                        slug@,
                    )];
                    assert(schema_idx(old(self).schemas@, addon_id as int, slug@) == si);
                    assert(has_field(schema.fields@, field_name@));
                    assert(crate::schema::field_idx(schema.fields@, field_name@) == fi);
                    assert(field_at(schema.fields@, field_name@).field_type == t);
                    assert(!field_at(schema.fields@, field_name@).is_deleted);
                    assert(row_find(old(self).records@, row_public_id@) == ri);
                    let rnew = final(self).records@[ri as int];
                    let rold2 = old(self).records@[ri as int];
                    assert(rnew == rec && rold2 == rold);
                    assert(rnew == (SchemaDataModel {
                        partitions: rnew.partitions,
                        updated_at: now,
                        ..rold2
                    }));
                    assert(forall|j: int|
                        0 <= j < final(self).records@.len() && j != ri
                            ==> final(self).records@[j] == old(self).records@[j]);
                    assert(forall|t2: SchematicFieldType|
                        t2 != t ==> #[trigger] entries_of(rnew.partitions@, t2) == entries_of(
                            rold2.partitions@,
                            t2,
                        ));
                    assert(forall|k: Seq<char>|
                        k != field_name@ ==> #[trigger] lookup_value(rnew.partitions@, t, k)
                            == lookup_value(rold2.partitions@, t, k));
                    match gv {
                        Some(vv) => {
                            assert(lookup_value(rnew.partitions@, t, field_name@) == Some(
                                crate::values::parse_value_spec(t, vv)->Ok_0,
                            ));
                        },
                        None => {
                            assert(lookup_value(rnew.partitions@, t, field_name@) is None);
                        },
                    }
                }
                Ok(())
            },
            Err(e) => {
                proof {
                    match gconv {
                        Some(fv) => {
                            assert(crate::records::value_matches_type(t, fv@));
                            assert(false);
                        },
                        None => {
                            assert(gv is None);
                        },
                    }
                }
                self.records.insert(ri, rec);
                proof {
                    assert(final(self).records@ =~= old(self).records@);
                    assert(old(self).records@[ri as int] == rold);
                }
                Err(e)
            },
        }
    }

    /// Run a query against the addon's schema with this slug: filtered,
    /// optionally sorted, paginated. A schema whose rows live on the
    /// owning addon's server is not queried here; the caller must proxy.
    pub fn find_by<'a>(
        &'a self,
        addon_id: i32,
        slug: &str,
        filters: Option<&Vec<crate::query::Filter>>,
        order: Option<&crate::fields::DefaultSort>,
        offset: usize,
        limit: usize,
    ) -> (r: Result<Vec<&'a SchemaDataModel>, SchemaError>)
        requires
            store_wf(*self),
        ensures
            ({
                let fspec = match filters {
                    Some(f) => f@,
                    None => Seq::<crate::query::Filter>::empty(),
                };
                if !has_schema(self.schemas@, addon_id as int, slug@) {
                    r == Err::<Vec<&'a SchemaDataModel>, SchemaError>(SchemaError::SchemaNotFound)
                } else {
                    let schema = self.schemas@[schema_idx(self.schemas@, addon_id as int, slug@)];
                    if schema.store@ == "addon"@ {
                        r == Err::<Vec<&'a SchemaDataModel>, SchemaError>(SchemaError::AddonStored)
                    } else {
                        match r {
                            Err(e) => crate::query::query_check(
                                schema,
                                fspec,
                                crate::query::order_view(order),
                            ) == Err::<Option<(crate::query::SortKeySpec, bool)>, SchemaError>(e),
                            Ok(page) => crate::query::query_check(
                                schema,
                                fspec,
                                crate::query::order_view(order),
                            ) matches Ok(sort) && crate::query::refs_view(page@)
                                == crate::query::page_spec(
                                crate::query::ordered_rows(self.records@, schema, fspec, sort),
                                offset as int,
                                limit as int,
                            ),
                        }
                    }
                }
            }),
    {
        let si = match self.find_schema(addon_id, slug) {
            Some(i) => i,
            None => {
                return Err(SchemaError::SchemaNotFound);
            },
        };
        proof {
            assert(schema_idx(self.schemas@, addon_id as int, slug@) == si);
        }
        if str_eq(self.schemas[si].store.as_str(), "addon") {
            return Err(SchemaError::AddonStored);
        }
        crate::query::find_by(&self.records, &self.schemas[si], filters, order, offset, limit)
    }

    /// Count the rows a query selects, with the same filter semantics as
    /// `find_by` and no ordering or pagination.
    pub fn count_by(
        &self,
        addon_id: i32,
        slug: &str,
        filters: Option<&Vec<crate::query::Filter>>,
    ) -> (r: Result<usize, SchemaError>)
        requires
            store_wf(*self),
        ensures
            ({
                let fspec = match filters {
                    Some(f) => f@,
                    None => Seq::<crate::query::Filter>::empty(),
                };
                if !has_schema(self.schemas@, addon_id as int, slug@) {
                    r == Err::<usize, SchemaError>(SchemaError::SchemaNotFound)
                } else {
                    let schema = self.schemas@[schema_idx(self.schemas@, addon_id as int, slug@)];
                    if schema.store@ == "addon"@ {
                        r == Err::<usize, SchemaError>(SchemaError::AddonStored)
                    } else {
                        match r {
                            Err(e) => crate::query::filters_check(schema, fspec) == Some(e),
                            Ok(c) => crate::query::filters_check(schema, fspec) is None && c
                                == crate::query::matching_rows(self.records@, schema, fspec).len(),
                        }
                    }
                }
            }),
    {
        let si = match self.find_schema(addon_id, slug) {
            Some(i) => i,
            None => {
                return Err(SchemaError::SchemaNotFound);
            },
        };
        proof {
            assert(schema_idx(self.schemas@, addon_id as int, slug@) == si);
        }
        if str_eq(self.schemas[si].store.as_str(), "addon") {
            return Err(SchemaError::AddonStored);
        }
        crate::query::count_by(&self.records, &self.schemas[si], filters)
    }

    /// Look a tag up by column and name, ignoring ASCII case, and create
    /// it under the next tag id if the slot is empty. A caller always
    /// gets a valid tag id and the slot never holds two tags.
    pub fn get_or_create_tag(
        &mut self,
        schema_id: i32,
        row_id: String,
        name: String,
        color: String,
    ) -> (r: i64)
        requires
            store_wf(*old(self)),
            old(self).next_tag_id < i64::MAX,
        ensures
            store_wf(*final(self)),
            final(self).schemas == old(self).schemas && final(self).records == old(self).records,
            final(self).next_schema_id == old(self).next_schema_id && final(self).next_record_id
                == old(self).next_record_id,
            match tag_lookup(old(self).tags@, schema_id as int, row_id@, name@) {
                Some(id) => r == id && *final(self) == *old(self),
                None => {
                    &&& r == old(self).next_tag_id
                    &&& final(self).next_tag_id == old(self).next_tag_id + 1
                    &&& final(self).tags@.len() == old(self).tags@.len() + 1
                    &&& final(self).tags@.drop_last() == old(self).tags@
                    &&& {
                        let t = final(self).tags@.last();
                        &&& t.id == r && t.schema_id == schema_id
                        &&& t.row_id@ == row_id@ && t.name@ == name@ && t.color@ == color@
                    }
                },
            },
    {
        let n = self.tags.len();
        let mut i: usize = 0;
        while i < n
            invariant
                store_wf(*self),
                n == self.tags@.len(),
                0 <= i <= n,
                forall|j: int|
                    0 <= j < i ==> !same_tag_slot(
                        schema_id as int,
                        row_id@,
                        name@,
                        #[trigger] self.tags@[j],
                    ),
            decreases n - i,
        {
            let t = &self.tags[i];
            if t.schema_id == schema_id && str_eq(t.row_id.as_str(), row_id.as_str())
                && eq_ignore_case(t.name.as_str(), name.as_str()) {
                proof {
                    assert(same_tag_slot(schema_id as int, row_id@, name@, self.tags@[i as int]));
                    assert(tag_slot_has(self.tags@, schema_id as int, row_id@, name@));
                    let ci = tag_slot_idx(self.tags@, schema_id as int, row_id@, name@);
                    assert(0 <= ci < self.tags@.len() && same_tag_slot(
                        schema_id as int,
                        row_id@,
                        name@,
                        self.tags@[ci],
                    ));
                    if ci != i {
                        if ci < i {
                            assert(same_tag_slot(
                                self.tags@[ci].schema_id as int,
                                self.tags@[ci].row_id@,
                                self.tags@[ci].name@,
                                self.tags@[i as int],
                            ));
                        } else {
                            assert(same_tag_slot(
                                self.tags@[i as int].schema_id as int,
                                self.tags@[i as int].row_id@,
                                self.tags@[i as int].name@,
                                self.tags@[ci],
                            ));
                        }
                        assert(false);
                    }
                }
                return self.tags[i].id;
            }
            i = i + 1;
        }
        proof {
            assert(!tag_slot_has(self.tags@, schema_id as int, row_id@, name@));
        }
        let id = self.next_tag_id;
        self.tags.push(SchemaDataTagModel { id, schema_id, row_id, name, color });
        self.next_tag_id = id + 1;
        id
    }
}

/// Every column of an import holds as many values as the first one.
pub open spec fn all_same_len(data: Seq<(String, Vec<crate::values::SimpleValue>)>) -> bool {
    forall|i: int| 0 <= i < data.len() ==> (#[trigger] data[i].1)@.len() == data[0].1@.len()
}

/// No two columns of an import share a key.
pub open spec fn distinct_keys(data: Seq<(String, Vec<crate::values::SimpleValue>)>) -> bool {
    forall|i: int, j: int|
        0 <= i < j < data.len() ==> (#[trigger] data[i].0)@ != (#[trigger] data[j].0)@
}

/// The converted columns of an import carry pairwise distinct keys.
spec fn conv_distinct(
    converted: Seq<(String, SchematicFieldType, Vec<crate::values::SchematicFieldValue>)>,
) -> bool {
    forall|a: int, b: int|
        0 <= a < b < converted.len() ==> (#[trigger] converted[a].0)@ != (#[trigger] converted[b].0)@
}

/// A stored row holds, for every converted column, that column's value
/// for the row.
spec fn row_has_converted(
    rec: SchemaDataModel,
    converted: Seq<(String, SchematicFieldType, Vec<crate::values::SchematicFieldValue>)>,
    k: int,
) -> bool {
    forall|cc: int|
        0 <= cc < converted.len() ==> lookup_value(
            rec.partitions@,
            (#[trigger] converted[cc]).1,
            converted[cc].0@,
        ) == Some(converted[cc].2@[k]@)
}

/// Whether one value converts for a column type. A `Tags` column accepts
/// tag-name text or a plain number list; every other column accepts what
/// `parse_value_spec` accepts.
pub open spec fn cell_check(
    t: SchematicFieldType,
    v: crate::values::SimpleValueV,
) -> Option<SchemaError> {
    if t is Tags {
        match v {
            crate::values::SimpleValueV::Text(_) => None,
            crate::values::SimpleValueV::ListNumber(_) => None,
            _ => Some(SchemaError::TypeMismatch),
        }
    } else {
        match crate::values::parse_value_spec(t, v) {
            Ok(_) => None,
            Err(e) => Some(e),
        }
    }
}

/// The check of one positional cell of an import; a column the schema
/// does not know, or has deleted, is dropped and checks clean.
pub open spec fn conv_check_cell(
    sf: Seq<(String, SchematicField)>,
    data: Seq<(String, Vec<crate::values::SimpleValue>)>,
    ci: int,
    k: int,
) -> Option<SchemaError> {
    if has_field(sf, data[ci].0@) && !field_at(sf, data[ci].0@).is_deleted {
        cell_check(field_at(sf, data[ci].0@).field_type, data[ci].1@[k]@)
    } else {
        None
    }
}

/// The first conversion failure of an import from cell `(ci, k)` on,
/// scanning column by column and each column row by row.
pub open spec fn conv_check_from(
    sf: Seq<(String, SchematicField)>,
    data: Seq<(String, Vec<crate::values::SimpleValue>)>,
    ci: int,
    k: int,
) -> Option<SchemaError>
    decreases data.len() - ci, data[ci].1@.len() - k,
{
    if ci < 0 || ci >= data.len() {
        None
    } else if k < 0 || k >= data[ci].1@.len() {
        conv_check_from(sf, data, ci + 1, 0)
    } else {
        match conv_check_cell(sf, data, ci, k) {
            Some(e) => Some(e),
            None => conv_check_from(sf, data, ci, k + 1),
        }
    }
}

/// The first conversion failure of a whole import, if any.
pub open spec fn import_conversion_check(
    sf: Seq<(String, SchematicField)>,
    data: Seq<(String, Vec<crate::values::SimpleValue>)>,
) -> Option<SchemaError> {
    conv_check_from(sf, data, 0, 0)
}

/// A column whose cells all check clean passes the scan through.
proof fn lemma_conv_col_clean(
    sf: Seq<(String, SchematicField)>,
    data: Seq<(String, Vec<crate::values::SimpleValue>)>,
    ci: int,
    k0: int,
)
    requires
        0 <= ci < data.len(),
        0 <= k0 <= data[ci].1@.len(),
        forall|k: int|
            k0 <= k < data[ci].1@.len() ==> #[trigger] conv_check_cell(sf, data, ci, k) is None,
    ensures
        conv_check_from(sf, data, ci, k0) == conv_check_from(sf, data, ci + 1, 0),
    decreases data[ci].1@.len() - k0,
{
    if k0 < data[ci].1@.len() {
        lemma_conv_col_clean(sf, data, ci, k0 + 1);
    }
}

/// A `Tags` column cell holding non-blank tag-name text: the one kind of
/// cell whose import can mint new tags.
pub open spec fn tags_text_cell(
    sf: Seq<(String, SchematicField)>,
    data: Seq<(String, Vec<crate::values::SimpleValue>)>,
    ci: int,
    k: int,
) -> bool {
    &&& 0 <= ci < data.len() && 0 <= k < data[ci].1@.len()
    &&& has_field(sf, data[ci].0@) && !field_at(sf, data[ci].0@).is_deleted
    &&& field_at(sf, data[ci].0@).field_type is Tags
    &&& (data[ci].1@[k]@ matches crate::values::SimpleValueV::Text(s) && crate::text::trim_seq(
        s,
    ).len() > 0)
}

/// Some cell of the import carries tag names to resolve.
pub open spec fn has_tag_name_cells(
    sf: Seq<(String, SchematicField)>,
    data: Seq<(String, Vec<crate::values::SimpleValue>)>,
) -> bool {
    exists|ci: int, k: int| #[trigger] tags_text_cell(sf, data, ci, k)
}

/// The first list is an unchanged prefix of the second.
spec fn seq_prefix(a: Seq<SchemaDataTagModel>, b: Seq<SchemaDataTagModel>) -> bool {
    a.len() <= b.len() && (forall|j: int| 0 <= j < a.len() ==> b[j] == a[j])
}

/// Some tag of the store or of the staged batch fills this column's slot
/// for this name, up to ASCII case, under this id.
pub open spec fn tag_match(
    st: Seq<SchemaDataTagModel>,
    pend: Seq<SchemaDataTagModel>,
    sid: int,
    rid: Seq<char>,
    nm: Seq<char>,
    id: i64,
) -> bool {
    ||| exists|i: int|
        0 <= i < st.len() && same_tag_slot(sid, rid, nm, #[trigger] st[i]) && st[i].id == id
    ||| exists|i: int|
        0 <= i < pend.len() && same_tag_slot(sid, rid, nm, #[trigger] pend[i]) && pend[i].id == id
}

/// A match survives staging further tags.
proof fn lemma_tag_match_monotone(
    st: Seq<SchemaDataTagModel>,
    pend: Seq<SchemaDataTagModel>,
    pend2: Seq<SchemaDataTagModel>,
    sid: int,
    rid: Seq<char>,
    nm: Seq<char>,
    id: i64,
)
    requires
        tag_match(st, pend, sid, rid, nm, id),
        seq_prefix(pend, pend2),
    ensures
        tag_match(st, pend2, sid, rid, nm, id),
{
    if exists|i: int|
        0 <= i < pend.len() && same_tag_slot(sid, rid, nm, #[trigger] pend[i]) && pend[i].id
            == id {
        let i = choose|i: int|
            0 <= i < pend.len() && same_tag_slot(sid, rid, nm, #[trigger] pend[i]) && pend[i].id
                == id;
        assert(same_tag_slot(sid, rid, nm, pend2[i]) && pend2[i].id == id);
    }
}

/// What a `Tags` cell's stored value holds, against the tag state: blank
/// text an empty id list; non-blank text one id per comma part, each
/// filling the slot of its trimmed name; a number list its integers.
pub open spec fn tags_cell_matches(
    st: Seq<SchemaDataTagModel>,
    pend: Seq<SchemaDataTagModel>,
    sid: int,
    rid: Seq<char>,
    cellv: crate::values::SimpleValueV,
    storedv: crate::values::SchematicFieldValueV,
) -> bool {
    match cellv {
        crate::values::SimpleValueV::Text(s) => {
            let pieces = crate::text::split_commas_spec(s);
            &&& storedv is Tags
            &&& (crate::text::trim_seq(s).len() == 0 ==> storedv->Tags_0.len() == 0)
            &&& (crate::text::trim_seq(s).len() > 0 ==> storedv->Tags_0.len() == pieces.len()
                && (forall|i: int|
                    0 <= i < pieces.len() ==> tag_match(
                        st,
                        pend,
                        sid,
                        rid,
                        crate::text::trim_seq(#[trigger] pieces[i]),
                        storedv->Tags_0[i],
                    )))
        },
        crate::values::SimpleValueV::ListNumber(nums) => storedv
            == crate::values::SchematicFieldValueV::Tags(
            nums.map_values(|n: crate::values::Number| crate::values::num_i64(n)),
        ),
        _ => true,
    }
}

/// A cell's characterization survives staging further tags.
proof fn lemma_tags_cell_monotone(
    st: Seq<SchemaDataTagModel>,
    pend: Seq<SchemaDataTagModel>,
    pend2: Seq<SchemaDataTagModel>,
    sid: int,
    rid: Seq<char>,
    cellv: crate::values::SimpleValueV,
    storedv: crate::values::SchematicFieldValueV,
)
    requires
        tags_cell_matches(st, pend, sid, rid, cellv, storedv),
        seq_prefix(pend, pend2),
    ensures
        tags_cell_matches(st, pend2, sid, rid, cellv, storedv),
{
    match cellv {
        crate::values::SimpleValueV::Text(s) => {
            let pieces = crate::text::split_commas_spec(s);
            if crate::text::trim_seq(s).len() > 0 {
                assert forall|i: int| 0 <= i < pieces.len() implies tag_match(
                    st,
                    pend2,
                    sid,
                    rid,
                    crate::text::trim_seq(#[trigger] pieces[i]),
                    storedv->Tags_0[i],
                ) by {
                    lemma_tag_match_monotone(
                        st,
                        pend,
                        pend2,
                        sid,
                        rid,
                        crate::text::trim_seq(pieces[i]),
                        storedv->Tags_0[i],
                    );
                }
            }
        },
        _ => {},
    }
}

/// After the staged tags are appended to the store, a match of either
/// list becomes the one tag the combined registry assigns to the name.
proof fn lemma_tag_match_final(
    old_tags: Seq<SchemaDataTagModel>,
    pend: Seq<SchemaDataTagModel>,
    final_tags: Seq<SchemaDataTagModel>,
    sid: int,
    rid: Seq<char>,
    nm: Seq<char>,
    id: i64,
)
    requires
        tag_match(old_tags, pend, sid, rid, nm, id),
        final_tags.len() == old_tags.len() + pend.len(),
        forall|j: int| 0 <= j < old_tags.len() ==> final_tags[j] == old_tags[j],
        forall|j: int|
            0 <= j < pend.len() ==> {
                let t = #[trigger] final_tags[old_tags.len() + j];
                t.id == pend[j].id && t.schema_id == pend[j].schema_id && t.row_id@
                    == pend[j].row_id@ && t.name@ == pend[j].name@
            },
        forall|a: int, b: int|
            0 <= a < b < final_tags.len() ==> !same_tag_slot(
                final_tags[a].schema_id as int,
                final_tags[a].row_id@,
                final_tags[a].name@,
                final_tags[b],
            ),
    ensures
        tag_lookup(final_tags, sid, rid, nm) == Some(id),
{
    let f: int = if exists|i: int|
        0 <= i < old_tags.len() && same_tag_slot(sid, rid, nm, #[trigger] old_tags[i])
            && old_tags[i].id == id {
        choose|i: int|
            0 <= i < old_tags.len() && same_tag_slot(sid, rid, nm, #[trigger] old_tags[i])
                && old_tags[i].id == id
    } else {
        let i = choose|i: int|
            0 <= i < pend.len() && same_tag_slot(sid, rid, nm, #[trigger] pend[i]) && pend[i].id
                == id;
        old_tags.len() + i
    };
    assert(0 <= f < final_tags.len());
    assert(same_tag_slot(sid, rid, nm, final_tags[f]) && final_tags[f].id == id);
    assert(tag_slot_has(final_tags, sid, rid, nm));
    let x = tag_slot_idx(final_tags, sid, rid, nm);
    assert(0 <= x < final_tags.len() && same_tag_slot(sid, rid, nm, final_tags[x]));
    if x != f {
        if x < f {
            assert(same_tag_slot(
                final_tags[x].schema_id as int,
                final_tags[x].row_id@,
                final_tags[x].name@,
                final_tags[f],
            ));
        } else {
            assert(same_tag_slot(
                final_tags[f].schema_id as int,
                final_tags[f].row_id@,
                final_tags[f].name@,
                final_tags[x],
            ));
        }
        assert(false);
    }
}

/// Look a tag id up in any tag list by column and name, ignoring ASCII
/// case; the list must not hold two tags in one slot.
fn find_tag_id(tags: &Vec<SchemaDataTagModel>, schema_id: i32, row_id: &str, name: &str) -> (r:
    Option<i64>)
    requires
        forall|i: int, j: int|
            0 <= i < j < tags@.len() ==> !same_tag_slot(
                tags@[i].schema_id as int,
                tags@[i].row_id@,
                tags@[i].name@,
                tags@[j],
            ),
    ensures
        r == tag_lookup(tags@, schema_id as int, row_id@, name@),
{
    let n = tags.len();
    let mut i: usize = 0;
    while i < n
        invariant
            n == tags@.len(),
            0 <= i <= n,
            forall|a: int, b: int|
                0 <= a < b < tags@.len() ==> !same_tag_slot(
                    tags@[a].schema_id as int,
                    tags@[a].row_id@,
                    tags@[a].name@,
                    tags@[b],
                ),
            forall|j: int|
                0 <= j < i ==> !same_tag_slot(
                    schema_id as int,
                    row_id@,
                    name@,
                    #[trigger] tags@[j],
                ),
        decreases n - i,
    {
        let t = &tags[i];
        if t.schema_id == schema_id && str_eq(t.row_id.as_str(), row_id) && eq_ignore_case(
            t.name.as_str(),
            name,
        ) {
            proof {
                assert(same_tag_slot(schema_id as int, row_id@, name@, tags@[i as int]));
                assert(tag_slot_has(tags@, schema_id as int, row_id@, name@));
                let ci = tag_slot_idx(tags@, schema_id as int, row_id@, name@);
                assert(0 <= ci < tags@.len() && same_tag_slot(
                    schema_id as int,
                    row_id@,
                    name@,
                    tags@[ci],
                ));
                if ci != i {
                    if ci < i {
                        assert(same_tag_slot(
                            tags@[ci].schema_id as int,
                            tags@[ci].row_id@,
                            tags@[ci].name@,
                            tags@[i as int],
                        ));
                    } else {
                        assert(same_tag_slot(
                            tags@[i as int].schema_id as int,
                            tags@[i as int].row_id@,
                            tags@[i as int].name@,
                            tags@[ci],
                        ));
                    }
                    assert(false);
                }
            }
            return Some(tags[i].id);
        }
        i = i + 1;
    }
    proof {
        assert(!tag_slot_has(tags@, schema_id as int, row_id@, name@));
    }
    None
}

impl CmsStore {
    /// Import a batch of rows into the addon's schema with this slug.
    /// Every column must hold one value per row. Values are converted by
    /// each column's declared type; a `Tags` column may instead hold a
    /// comma-separated text of tag names, each resolved — creating tags
    /// as needed, deduplicated within the batch — to its numeric id.
    /// Columns the schema does not know, or whose column was deleted,
    /// are dropped. The batch lands whole or not at all: on any failure
    /// the store is exactly what it was, and every failure is pinned to
    /// its cause — so a batch whose every cell converts is owed success,
    /// except that resolving tag names can, at the edge of the id space,
    /// run out of fresh identifiers.
    #[verifier::rlimit(100)]
    pub fn import_rows(
        &mut self,
        addon_id: i32,
        slug: &str,
        data: Vec<(String, Vec<crate::values::SimpleValue>)>,
        now: DateTime,
    ) -> (r: Result<Vec<String>, SchemaError>)
        requires
            store_wf(*old(self)),
            data@.len() > 0 ==> old(self).next_record_id + data@[0].1@.len() < i64::MAX,
        ensures
            store_wf(*final(self)),
            final(self).schemas == old(self).schemas,
            final(self).next_schema_id == old(self).next_schema_id,
            match r {
                Err(e) => {
                    &&& *final(self) == *old(self)
                    &&& ({
                        let sf = old(self).schemas@[schema_idx(
                            old(self).schemas@,
                            addon_id as int,
                            slug@,
                        )].fields@;
                        if !has_schema(old(self).schemas@, addon_id as int, slug@) {
                            e == SchemaError::SchemaNotFound
                        } else if data@.len() == 0 {
                            e == SchemaError::EmptyImport
                        } else if !all_same_len(data@) {
                            e == SchemaError::ImportLengthMismatch
                        } else if e == SchemaError::IdSpaceExhausted {
                            has_tag_name_cells(sf, data@)
                        } else {
                            import_conversion_check(sf, data@) == Some(e)
                        }
                    })
                },
                Ok(ids) => {
                    &&& has_schema(old(self).schemas@, addon_id as int, slug@)
                    &&& data@.len() > 0 && all_same_len(data@)
                    &&& import_conversion_check(
                        old(self).schemas@[schema_idx(
                            old(self).schemas@,
                            addon_id as int,
                            slug@,
                        )].fields@,
                        data@,
                    ) is None
                    &&& ids@.len() == data@[0].1@.len()
                    &&& final(self).records@.len() == old(self).records@.len() + ids@.len()
                    &&& forall|j: int|
                        0 <= j < old(self).records@.len() ==> #[trigger] final(self).records@[j]
                            == old(self).records@[j]
                    &&& final(self).next_record_id == old(self).next_record_id + ids@.len()
                    &&& ({
                        let base = old(self).records@.len() as int;
                        let sid = old(self).schemas@[schema_idx(
                            old(self).schemas@,
                            addon_id as int,
                            slug@,
                        )].id;
                        forall|k: int|
                            0 <= k < ids@.len() ==> {
                                let rec = #[trigger] final(self).records@[base + k];
                                &&& rec.public_id@ == ids.deep_view()[k]
                                &&& rec.id == old(self).next_record_id + k
                                &&& rec.addon_id == addon_id && rec.schema_id == sid
                                &&& rec.created_at == now && rec.updated_at == now
                                &&& rec.deleted_at is None
                            }
                    })
                    &&& final(self).tags@.len() >= old(self).tags@.len()
                    &&& final(self).tags@.subrange(0, old(self).tags@.len() as int) == old(
                        self,
                    ).tags@
                    &&& (distinct_keys(data@) ==> ({
                        let sf = old(self).schemas@[schema_idx(
                            old(self).schemas@,
                            addon_id as int,
                            slug@,
                        )].fields@;
                        let base = old(self).records@.len() as int;
                        forall|ci: int, k: int|
                            0 <= ci < data@.len() && 0 <= k < ids@.len() && has_field(
                                sf,
                                (#[trigger] data@[ci]).0@,
                            ) && !field_at(sf, data@[ci].0@).is_deleted && !(field_at(
                                sf,
                                data@[ci].0@,
                            ).field_type is Tags) ==> {
                                let t = field_at(sf, data@[ci].0@).field_type;
                                &&& crate::values::parse_value_spec(t, data@[ci].1@[k]@) is Ok
                                &&& crate::records::lookup_value(
                                    (#[trigger] final(self).records@[base + k]).partitions@,
                                    t,
                                    data@[ci].0@,
                                ) == Some(
                                    crate::values::parse_value_spec(t, data@[ci].1@[k]@)->Ok_0,
                                )
                            }
                    }))
                    &&& (distinct_keys(data@) ==> ({
                        let sf = old(self).schemas@[schema_idx(
                            old(self).schemas@,
                            addon_id as int,
                            slug@,
                        )].fields@;
                        let sid = old(self).schemas@[schema_idx(
                            old(self).schemas@,
                            addon_id as int,
                            slug@,
                        )].id;
                        let base = old(self).records@.len() as int;
                        forall|ci: int, k: int|
                            0 <= ci < data@.len() && 0 <= k < ids@.len() && has_field(
                                sf,
                                (#[trigger] data@[ci]).0@,
                            ) && !field_at(sf, data@[ci].0@).is_deleted && field_at(
                                sf,
                                data@[ci].0@,
                            ).field_type is Tags ==> ({
                                let stored = crate::records::lookup_value(
                                    (#[trigger] final(self).records@[base + k]).partitions@,
                                    SchematicFieldType::Tags,
                                    data@[ci].0@,
                                );
                                match data@[ci].1@[k]@ {
                                    crate::values::SimpleValueV::Text(s) => {
                                        let pieces = crate::text::split_commas_spec(s);
                                        &&& stored matches Some(sv)
                                        &&& sv is Tags
                                        &&& (crate::text::trim_seq(s).len() == 0
                                            ==> sv->Tags_0.len() == 0)
                                        &&& (crate::text::trim_seq(s).len() > 0
                                            ==> sv->Tags_0.len() == pieces.len() && (forall|i: int|
                                            0 <= i < pieces.len() ==> tag_lookup(
                                                final(self).tags@,
                                                sid as int,
                                                data@[ci].0@,
                                                crate::text::trim_seq(#[trigger] pieces[i]),
                                            ) == Some(sv->Tags_0[i])))
                                    },
                                    crate::values::SimpleValueV::ListNumber(nums) => stored
                                        == Some(
                                        crate::values::SchematicFieldValueV::Tags(
                                            nums.map_values(
                                                (|n: crate::values::Number|
                                                    crate::values::num_i64(n)),
                                            ),
                                        ),
                                    ),
                                    _ => true,
                                }
                            })
                    }))
                },
            },
    {
        let si = match self.find_schema(addon_id, slug) {
            Some(i) => i,
            None => {
                return Err(SchemaError::SchemaNotFound);
            },
        };
        proof {
            assert(schema_idx(self.schemas@, addon_id as int, slug@) == si);
        }
        let n_cols = data.len();
        if n_cols == 0 {
            return Err(SchemaError::EmptyImport);
        }
        let n_rows = data[0].1.len();
        let mut ci: usize = 0;
        while ci < n_cols
            invariant
                store_wf(*self),
                *self == *old(self),
                si < self.schemas@.len(),
                self.schemas@[si as int].addon_id == addon_id,
                self.schemas@[si as int].name@ == slug@,
                n_cols == data@.len(),
                n_cols > 0,
                n_rows == data@[0].1@.len(),
                0 <= ci <= n_cols,
                forall|j: int| 0 <= j < ci ==> (#[trigger] data@[j].1)@.len() == n_rows,
            decreases n_cols - ci,
        {
            if data[ci].1.len() != n_rows {
                proof {
                    assert(has_schema(old(self).schemas@, addon_id as int, slug@));
                    assert(!all_same_len(data@));
                }
                return Err(SchemaError::ImportLengthMismatch);
            }
            ci = ci + 1;
        }
        proof {
            assert(all_same_len(data@));
        }
        let schema_id_val = self.schemas[si].id;
        let ghost sf = self.schemas@[si as int].fields@;
        // First pass: convert every known column, resolving tag names and
        // staging any new tags, without touching the store.
        let mut converted: Vec<(String, SchematicFieldType, Vec<crate::values::SchematicFieldValue>)> =
            Vec::new();
        let mut pending: Vec<SchemaDataTagModel> = Vec::new();
        let base_tag: i64 = self.next_tag_id;
        let mut tag_cursor: i64 = base_tag;
        let mut ci2: usize = 0;
        while ci2 < n_cols
            invariant
                store_wf(*self),
                *self == *old(self),
                si < self.schemas@.len(),
                self.schemas@[si as int].addon_id == addon_id,
                self.schemas@[si as int].name@ == slug@,
                schema_id_val == self.schemas@[si as int].id,
                n_cols == data@.len(),
                n_cols > 0,
                n_rows == data@[0].1@.len(),
                all_same_len(data@),
                forall|j: int| 0 <= j < n_cols ==> (#[trigger] data@[j].1)@.len() == n_rows,
                0 <= ci2 <= n_cols,
                base_tag == self.next_tag_id,
                base_tag <= tag_cursor,
                pending@.len() == tag_cursor - base_tag,
                forall|k: int| 0 <= k < pending@.len() ==> (#[trigger] pending@[k]).id == base_tag + k,
                forall|k: int|
                    0 <= k < pending@.len() ==> !tag_slot_has(
                        self.tags@,
                        (#[trigger] pending@[k]).schema_id as int,
                        pending@[k].row_id@,
                        pending@[k].name@,
                    ),
                forall|a: int, b: int|
                    0 <= a < b < pending@.len() ==> !same_tag_slot(
                        pending@[a].schema_id as int,
                        pending@[a].row_id@,
                        pending@[a].name@,
                        pending@[b],
                    ),
                converted@.len() <= ci2,
                sf == self.schemas@[si as int].fields@,
                import_conversion_check(sf, data@) == conv_check_from(sf, data@, ci2 as int, 0),
                forall|c: int|
                    0 <= c < converted@.len() ==> (#[trigger] converted@[c].2)@.len() == n_rows,
                forall|c: int, k: int|
                    0 <= c < converted@.len() && 0 <= k < n_rows
                        ==> crate::records::value_matches_type(
                        converted@[c].1,
                        #[trigger] converted@[c].2@[k]@,
                    ),
                forall|c: int|
                    0 <= c < converted@.len() ==> has_field(sf, (#[trigger] converted@[c]).0@)
                        && !field_at(sf, converted@[c].0@).is_deleted && field_at(
                        sf,
                        converted@[c].0@,
                    ).field_type == converted@[c].1,
                forall|c: int|
                    0 <= c < converted@.len() ==> exists|ci: int|
                        0 <= ci < ci2 && (#[trigger] converted@[c]).0@ == data@[ci].0@,
                distinct_keys(data@) ==> conv_distinct(converted@),
                forall|ci: int|
                    0 <= ci < ci2 && has_field(sf, (#[trigger] data@[ci]).0@) && !field_at(
                        sf,
                        data@[ci].0@,
                    ).is_deleted ==> exists|c: int|
                        0 <= c < converted@.len() && (#[trigger] converted@[c]).0@ == data@[ci].0@
                            && converted@[c].1 == field_at(sf, data@[ci].0@).field_type && (!(
                        converted@[c].1 is Tags) ==> forall|k: int|
                            0 <= k < n_rows ==> crate::values::parse_value_spec(
                                converted@[c].1,
                                #[trigger] data@[ci].1@[k]@,
                            ) is Ok && converted@[c].2@[k]@ == crate::values::parse_value_spec(
                                converted@[c].1,
                                data@[ci].1@[k]@,
                            )->Ok_0) && (converted@[c].1 is Tags ==> forall|k: int|
                            0 <= k < n_rows ==> tags_cell_matches(
                                self.tags@,
                                pending@,
                                schema_id_val as int,
                                data@[ci].0@,
                                #[trigger] data@[ci].1@[k]@,
                                converted@[c].2@[k]@,
                            )),
            decreases n_cols - ci2,
        {
            let ghost pend_entry = pending@;
            let key = &data[ci2].0;
            let fi = match self.schemas[si].find_field(key.as_str()) {
                Some(i) => i,
                None => {
                    proof {
                        assert(!has_field(sf, data@[ci2 as int].0@));
                        assert(forall|k: int|
                            0 <= k < data@[ci2 as int].1@.len() ==> #[trigger] conv_check_cell(
                                sf,
                                data@,
                                ci2 as int,
                                k,
                            ) is None);
                        lemma_conv_col_clean(sf, data@, ci2 as int, 0);
                    }
                    ci2 = ci2 + 1;
                    continue ;
                },
            };
            proof {
                assert(has_field(sf, key@));
                assert(crate::schema::field_idx(sf, key@) == fi);
                assert(field_at(sf, key@) == sf[fi as int].1);
            }
            if self.schemas[si].fields[fi].1.is_deleted {
                proof {
                    assert(field_at(sf, data@[ci2 as int].0@).is_deleted);
                    assert(forall|k: int|
                        0 <= k < data@[ci2 as int].1@.len() ==> #[trigger] conv_check_cell(
                            sf,
                            data@,
                            ci2 as int,
                            k,
                        ) is None);
                    lemma_conv_col_clean(sf, data@, ci2 as int, 0);
                }
                ci2 = ci2 + 1;
                continue ;
            }
            let t = self.schemas[si].fields[fi].1.field_type;
            let is_tags = matches!(t, SchematicFieldType::Tags);
            let mut vals: Vec<crate::values::SchematicFieldValue> = Vec::new();
            let mut ri2: usize = 0;
            while ri2 < n_rows
                invariant
                    store_wf(*self),
                    *self == *old(self),
                    si < self.schemas@.len(),
                    self.schemas@[si as int].addon_id == addon_id,
                    self.schemas@[si as int].name@ == slug@,
                    schema_id_val == self.schemas@[si as int].id,
                    n_cols == data@.len(),
                    n_cols > 0,
                    all_same_len(data@),
                    ci2 < n_cols,
                    n_rows == data@[ci2 as int].1@.len(),
                    n_rows == data@[0].1@.len(),
                    0 <= ri2 <= n_rows,
                    is_tags == (t is Tags),
                    base_tag == self.next_tag_id,
                    base_tag <= tag_cursor,
                    pending@.len() == tag_cursor - base_tag,
                    forall|k: int|
                        0 <= k < pending@.len() ==> (#[trigger] pending@[k]).id == base_tag + k,
                    forall|k: int|
                        0 <= k < pending@.len() ==> !tag_slot_has(
                            self.tags@,
                            (#[trigger] pending@[k]).schema_id as int,
                            pending@[k].row_id@,
                            pending@[k].name@,
                        ),
                    forall|a: int, b: int|
                        0 <= a < b < pending@.len() ==> !same_tag_slot(
                            pending@[a].schema_id as int,
                            pending@[a].row_id@,
                            pending@[a].name@,
                            pending@[b],
                        ),
                    vals@.len() == ri2,
                    sf == self.schemas@[si as int].fields@,
                    has_field(sf, data@[ci2 as int].0@),
                    !field_at(sf, data@[ci2 as int].0@).is_deleted,
                    field_at(sf, data@[ci2 as int].0@).field_type == t,
                    import_conversion_check(sf, data@) == conv_check_from(
                        sf,
                        data@,
                        ci2 as int,
                        ri2 as int,
                    ),
                    key@ == data@[ci2 as int].0@,
                    seq_prefix(pend_entry, pending@),
                    forall|k: int|
                        0 <= k < ri2 ==> crate::records::value_matches_type(
                            t,
                            (#[trigger] vals@[k])@,
                        ),
                    is_tags ==> forall|k: int|
                        0 <= k < ri2 ==> tags_cell_matches(
                            self.tags@,
                            pending@,
                            schema_id_val as int,
                            data@[ci2 as int].0@,
                            #[trigger] data@[ci2 as int].1@[k]@,
                            vals@[k]@,
                        ),
                    !is_tags ==> forall|k: int|
                        0 <= k < ri2 ==> crate::values::parse_value_spec(
                            t,
                            #[trigger] data@[ci2 as int].1@[k]@,
                        ) is Ok && vals@[k]@ == crate::values::parse_value_spec(
                            t,
                            data@[ci2 as int].1@[k]@,
                        )->Ok_0,
                decreases n_rows - ri2,
            {
                let ghost pend_cell = pending@;
                if is_tags {
                    match &data[ci2].1[ri2] {
                        crate::values::SimpleValue::Text(s) => {
                            if crate::text::trim(s.as_str()).unicode_len() == 0 {
                                vals.push(crate::values::SchematicFieldValue::Tags(Vec::new()));
                                proof {
                                    assert(data@[ci2 as int].1@[ri2 as int]@
                                        == crate::values::SimpleValueV::Text(s@));
                                    assert(tags_cell_matches(
                                        self.tags@,
                                        pending@,
                                        schema_id_val as int,
                                        data@[ci2 as int].0@,
                                        data@[ci2 as int].1@[ri2 as int]@,
                                        vals@[ri2 as int]@,
                                    ));
                                }
                            } else {
                                proof {
                                    assert(tags_text_cell(sf, data@, ci2 as int, ri2 as int));
                                }
                                let parts = crate::text::split_commas(s.as_str());
                                let mut ids: Vec<i64> = Vec::new();
                                let n_parts = parts.len();
                                let mut pi2: usize = 0;
                                while pi2 < n_parts
                                    invariant
                                        store_wf(*self),
                                        *self == *old(self),
                                        si < self.schemas@.len(),
                                        self.schemas@[si as int].addon_id == addon_id,
                                        self.schemas@[si as int].name@ == slug@,
                                        schema_id_val == self.schemas@[si as int].id,
                                        n_cols == data@.len(),
                                        n_cols > 0,
                                        all_same_len(data@),
                                        n_rows == data@[0].1@.len(),
                                        ci2 < n_cols,
                                        sf == self.schemas@[si as int].fields@,
                                        tags_text_cell(sf, data@, ci2 as int, ri2 as int),
                                        key@ == data@[ci2 as int].0@,
                                        seq_prefix(pend_entry, pending@),
                                        seq_prefix(pend_cell, pending@),
                                        n_parts == parts@.len(),
                                        0 <= pi2 <= n_parts,
                                        ids@.len() == pi2,
                                        forall|i: int|
                                            0 <= i < pi2 ==> tag_match(
                                                self.tags@,
                                                pending@,
                                                schema_id_val as int,
                                                data@[ci2 as int].0@,
                                                crate::text::trim_seq(
                                                    #[trigger] parts.deep_view()[i],
                                                ),
                                                ids@[i],
                                            ),
                                        base_tag == self.next_tag_id,
                                        base_tag <= tag_cursor,
                                        pending@.len() == tag_cursor - base_tag,
                                        forall|k: int|
                                            0 <= k < pending@.len() ==> (#[trigger] pending@[k]).id
                                                == base_tag + k,
                                        forall|k: int|
                                            0 <= k < pending@.len() ==> !tag_slot_has(
                                                self.tags@,
                                                (#[trigger] pending@[k]).schema_id as int,
                                                pending@[k].row_id@,
                                                pending@[k].name@,
                                            ),
                                        forall|a: int, b: int|
                                            0 <= a < b < pending@.len() ==> !same_tag_slot(
                                                pending@[a].schema_id as int,
                                                pending@[a].row_id@,
                                                pending@[a].name@,
                                                pending@[b],
                                            ),
                                    decreases n_parts - pi2,
                                {
                                    let ghost pend_before = pending@;
                                    let nm = crate::text::trim(parts[pi2].as_str()).to_owned();
                                    proof {
                                        assert(parts.deep_view()[pi2 as int] == parts@[pi2 as int]@);
                                        assert(nm@ == crate::text::trim_seq(
                                            parts.deep_view()[pi2 as int],
                                        ));
                                    }
                                    let id: i64 = match find_tag_id(
                                        &pending,
                                        schema_id_val,
                                        key.as_str(),
                                        nm.as_str(),
                                    ) {
                                        Some(id) => {
                                            proof {
                                                assert(tag_slot_has(
                                                    pending@,
                                                    schema_id_val as int,
                                                    key@,
                                                    nm@,
                                                ));
                                                let j = tag_slot_idx(
                                                    pending@,
                                                    schema_id_val as int,
                                                    key@,
                                                    nm@,
                                                );
                                                assert(0 <= j < pending@.len() && same_tag_slot(
                                                    schema_id_val as int,
                                                    key@,
                                                    nm@,
                                                    pending@[j],
                                                ) && pending@[j].id == id);
                                                assert(tag_match(
                                                    self.tags@,
                                                    pending@,
                                                    schema_id_val as int,
                                                    data@[ci2 as int].0@,
                                                    nm@,
                                                    id,
                                                ));
                                            }
                                            id
                                        },
                                        None => match find_tag_id(
                                            &self.tags,
                                            schema_id_val,
                                            key.as_str(),
                                            nm.as_str(),
                                        ) {
                                            Some(id) => {
                                                proof {
                                                    assert(tag_slot_has(
                                                        self.tags@,
                                                        schema_id_val as int,
                                                        key@,
                                                        nm@,
                                                    ));
                                                    let j = tag_slot_idx(
                                                        self.tags@,
                                                        schema_id_val as int,
                                                        key@,
                                                        nm@,
                                                    );
                                                    assert(0 <= j < self.tags@.len()
                                                        && same_tag_slot(
                                                        schema_id_val as int,
                                                        key@,
                                                        nm@,
                                                        self.tags@[j],
                                                    ) && self.tags@[j].id == id);
                                                    assert(tag_match(
                                                        self.tags@,
                                                        pending@,
                                                        schema_id_val as int,
                                                        data@[ci2 as int].0@,
                                                        nm@,
                                                        id,
                                                    ));
                                                }
                                                id
                                            },
                                            None => {
                                                if tag_cursor == i64::MAX {
                                                    proof {
                                                        assert(has_tag_name_cells(sf, data@));
                                                        assert(has_schema(
                                                            old(self).schemas@,
                                                            addon_id as int,
                                                            slug@,
                                                        ));
                                                    }
                                                    return Err(SchemaError::IdSpaceExhausted);
                                                }
                                                let id = tag_cursor;
                                                let newtag = SchemaDataTagModel {
                                                    id,
                                                    schema_id: schema_id_val,
                                                    row_id: crate::values::clone_str(key),
                                                    name: nm,
                                                    color: String::from_str("#FAF"),
                                                };
                                                proof {
                                                    assert(forall|k: int|
                                                        0 <= k < pending@.len()
                                                            ==> !same_tag_slot(
                                                            (#[trigger] pending@[k]).schema_id as int,
                                                            pending@[k].row_id@,
                                                            pending@[k].name@,
                                                            newtag,
                                                        ));
                                                }
                                                let ghost gnewtag = newtag;
                                                pending.push(newtag);
                                                tag_cursor = id + 1;
                                                proof {
                                                    let j = pend_before.len() as int;
                                                    assert(pending@[j] == gnewtag);
                                                    assert(same_tag_slot(
                                                        schema_id_val as int,
                                                        key@,
                                                        nm@,
                                                        pending@[j],
                                                    ) && pending@[j].id == id);
                                                    assert(tag_match(
                                                        self.tags@,
                                                        pending@,
                                                        schema_id_val as int,
                                                        data@[ci2 as int].0@,
                                                        nm@,
                                                        id,
                                                    ));
                                                }
                                                id
                                            },
                                        },
                                    };
                                    proof {
                                        assert(seq_prefix(pend_before, pending@));
                                        assert forall|i: int| 0 <= i < pi2 implies tag_match(
                                            self.tags@,
                                            pending@,
                                            schema_id_val as int,
                                            data@[ci2 as int].0@,
                                            crate::text::trim_seq(
                                                #[trigger] parts.deep_view()[i],
                                            ),
                                            ids@[i],
                                        ) by {
                                            lemma_tag_match_monotone(
                                                self.tags@,
                                                pend_before,
                                                pending@,
                                                schema_id_val as int,
                                                data@[ci2 as int].0@,
                                                crate::text::trim_seq(parts.deep_view()[i]),
                                                ids@[i],
                                            );
                                        }
                                    }
                                    ids.push(id);
                                    pi2 = pi2 + 1;
                                }
                                vals.push(crate::values::SchematicFieldValue::Tags(ids));
                                proof {
                                    assert(data@[ci2 as int].1@[ri2 as int]@
                                        == crate::values::SimpleValueV::Text(s@));
                                    assert(parts.deep_view() == crate::text::split_commas_spec(
                                        s@,
                                    ));
                                    assert(tags_cell_matches(
                                        self.tags@,
                                        pending@,
                                        schema_id_val as int,
                                        data@[ci2 as int].0@,
                                        data@[ci2 as int].1@[ri2 as int]@,
                                        vals@[ri2 as int]@,
                                    ));
                                }
                            }
                        },
                        crate::values::SimpleValue::ListNumber(nums) => {
                            let mut ids: Vec<i64> = Vec::new();
                            let n_nums = nums.len();
                            let mut ni: usize = 0;
                            while ni < n_nums
                                invariant
                                    n_nums == nums@.len(),
                                    0 <= ni <= n_nums,
                                    ids@ =~= nums@.subrange(0, ni as int).map_values(
                                        (|n: crate::values::Number| crate::values::num_i64(n)),
                                    ),
                                decreases n_nums - ni,
                            {
                                let id: i64 = match nums[ni] {
                                    crate::values::Number::Byte(b) => b as i64,
                                    crate::values::Number::Integer(v) => v,
                                };
                                ids.push(id);
                                proof {
                                    assert(nums@.subrange(0, ni + 1).drop_last() =~= nums@.subrange(
                                        0,
                                        ni as int,
                                    ));
                                    assert(ids@ =~= nums@.subrange(0, ni + 1).map_values(
                                        (|n: crate::values::Number| crate::values::num_i64(n)),
                                    ));
                                }
                                ni = ni + 1;
                            }
                            vals.push(crate::values::SchematicFieldValue::Tags(ids));
                            proof {
                                assert(nums@.subrange(0, n_nums as int) =~= nums@);
                                assert(data@[ci2 as int].1@[ri2 as int]@
                                    == crate::values::SimpleValueV::ListNumber(nums@));
                                assert(vals@[ri2 as int]@
                                    == crate::values::SchematicFieldValueV::Tags(
                                    nums@.map_values(
                                        (|n: crate::values::Number| crate::values::num_i64(n)),
                                    ),
                                ));
                                assert(tags_cell_matches(
                                    self.tags@,
                                    pending@,
                                    schema_id_val as int,
                                    data@[ci2 as int].0@,
                                    data@[ci2 as int].1@[ri2 as int]@,
                                    vals@[ri2 as int]@,
                                ));
                            }
                        },
                        _ => {
                            proof {
                                assert(conv_check_cell(sf, data@, ci2 as int, ri2 as int) == Some(
                                    SchemaError::TypeMismatch,
                                ));
                                assert(import_conversion_check(sf, data@) == Some(
                                    SchemaError::TypeMismatch,
                                ));
                                assert(has_schema(old(self).schemas@, addon_id as int, slug@));
                            }
                            return Err(SchemaError::TypeMismatch);
                        },
                    }
                } else {
                    let cell = crate::values::clone_simple_value(&data[ci2].1[ri2]);
                    let ghost cellv = cell@;
                    match t.parse_value(cell) {
                        Ok(fv) => {
                            proof {
                                lemma_parse_value_matches(t, cellv);
                            }
                            vals.push(fv);
                        },
                        Err(e) => {
                            proof {
                                assert(conv_check_cell(sf, data@, ci2 as int, ri2 as int) == Some(
                                    e,
                                ));
                                assert(import_conversion_check(sf, data@) == Some(e));
                                assert(e != SchemaError::IdSpaceExhausted);
                                assert(has_schema(old(self).schemas@, addon_id as int, slug@));
                            }
                            return Err(e);
                        },
                    }
                }
                proof {
                    assert(conv_check_cell(sf, data@, ci2 as int, ri2 as int) is None);
                    assert(conv_check_from(sf, data@, ci2 as int, ri2 as int) == conv_check_from(
                        sf,
                        data@,
                        ci2 as int,
                        ri2 + 1,
                    ));
                    if is_tags {
                        assert(seq_prefix(pend_cell, pending@));
                        assert forall|k: int| 0 <= k < ri2 implies tags_cell_matches(
                            self.tags@,
                            pending@,
                            schema_id_val as int,
                            data@[ci2 as int].0@,
                            #[trigger] data@[ci2 as int].1@[k]@,
                            vals@[k]@,
                        ) by {
                            lemma_tags_cell_monotone(
                                self.tags@,
                                pend_cell,
                                pending@,
                                schema_id_val as int,
                                data@[ci2 as int].0@,
                                data@[ci2 as int].1@[k]@,
                                vals@[k]@,
                            );
                        }
                    }
                }
                ri2 = ri2 + 1;
            }
            proof {
                assert(conv_check_from(sf, data@, ci2 as int, n_rows as int) == conv_check_from(
                    sf,
                    data@,
                    ci2 + 1,
                    0,
                ));
            }
            let ghost conv_pre = converted@;
            converted.push((crate::values::clone_str(key), t, vals));
            proof {
                assert(converted@.last().0@ == data@[ci2 as int].0@);
                assert(converted@.last().1 == field_at(sf, data@[ci2 as int].0@).field_type);
                assert(forall|c: int|
                    0 <= c < conv_pre.len() ==> #[trigger] converted@[c] == conv_pre[c]);
                if distinct_keys(data@) {
                    assert forall|a: int, b: int| 0 <= a < b < converted@.len() implies (
                    #[trigger] converted@[a].0)@ != (#[trigger] converted@[b].0)@ by {
                        if b == converted@.len() - 1 {
                            let cia = choose|ci: int|
                                0 <= ci < ci2 && (converted@[a]).0@ == data@[ci].0@;
                            assert(data@[cia].0@ != data@[ci2 as int].0@);
                        }
                    }
                }
                assert forall|ci: int|
                    0 <= ci < ci2 + 1 && has_field(sf, (#[trigger] data@[ci]).0@) && !field_at(
                    sf,
                    data@[ci].0@,
                ).is_deleted implies exists|c: int|
                    0 <= c < converted@.len() && (#[trigger] converted@[c]).0@ == data@[ci].0@
                        && converted@[c].1 == field_at(sf, data@[ci].0@).field_type && (!(
                    converted@[c].1 is Tags) ==> forall|k: int|
                        0 <= k < n_rows ==> crate::values::parse_value_spec(
                            converted@[c].1,
                            #[trigger] data@[ci].1@[k]@,
                        ) is Ok && converted@[c].2@[k]@ == crate::values::parse_value_spec(
                            converted@[c].1,
                            data@[ci].1@[k]@,
                        )->Ok_0) && (converted@[c].1 is Tags ==> forall|k: int|
                        0 <= k < n_rows ==> tags_cell_matches(
                            self.tags@,
                            pending@,
                            schema_id_val as int,
                            data@[ci].0@,
                            #[trigger] data@[ci].1@[k]@,
                            converted@[c].2@[k]@,
                        )) by {
                    if ci == ci2 {
                        let c = converted@.len() - 1;
                        assert(0 <= c < converted@.len() && (converted@[c]).0@ == data@[ci].0@
                            && converted@[c].1 == field_at(sf, data@[ci].0@).field_type && (!(
                        converted@[c].1 is Tags) ==> forall|k: int|
                            0 <= k < n_rows ==> crate::values::parse_value_spec(
                                converted@[c].1,
                                #[trigger] data@[ci].1@[k]@,
                            ) is Ok && converted@[c].2@[k]@ == crate::values::parse_value_spec(
                                converted@[c].1,
                                data@[ci].1@[k]@,
                            )->Ok_0) && (converted@[c].1 is Tags ==> forall|k: int|
                            0 <= k < n_rows ==> tags_cell_matches(
                                self.tags@,
                                pending@,
                                schema_id_val as int,
                                data@[ci].0@,
                                #[trigger] data@[ci].1@[k]@,
                                converted@[c].2@[k]@,
                            )));
                    } else {
                        let c0 = choose|c: int|
                            0 <= c < conv_pre.len() && (#[trigger] conv_pre[c]).0@ == data@[ci].0@
                                && conv_pre[c].1 == field_at(sf, data@[ci].0@).field_type && (!(
                            conv_pre[c].1 is Tags) ==> forall|k: int|
                                0 <= k < n_rows ==> crate::values::parse_value_spec(
                                    conv_pre[c].1,
                                    #[trigger] data@[ci].1@[k]@,
                                ) is Ok && conv_pre[c].2@[k]@ == crate::values::parse_value_spec(
                                    conv_pre[c].1,
                                    data@[ci].1@[k]@,
                                )->Ok_0) && (conv_pre[c].1 is Tags ==> forall|k: int|
                                0 <= k < n_rows ==> tags_cell_matches(
                                    self.tags@,
                                    pend_entry,
                                    schema_id_val as int,
                                    data@[ci].0@,
                                    #[trigger] data@[ci].1@[k]@,
                                    conv_pre[c].2@[k]@,
                                ));
                        assert(converted@[c0] == conv_pre[c0]);
                        if converted@[c0].1 is Tags {
                            assert(seq_prefix(pend_entry, pending@));
                            assert forall|k: int| 0 <= k < n_rows implies tags_cell_matches(
                                self.tags@,
                                pending@,
                                schema_id_val as int,
                                data@[ci].0@,
                                #[trigger] data@[ci].1@[k]@,
                                converted@[c0].2@[k]@,
                            ) by {
                                lemma_tags_cell_monotone(
                                    self.tags@,
                                    pend_entry,
                                    pending@,
                                    schema_id_val as int,
                                    data@[ci].0@,
                                    data@[ci].1@[k]@,
                                    converted@[c0].2@[k]@,
                                );
                            }
                        }
                    }
                }
            }
            ci2 = ci2 + 1;
        }
        // Second pass: everything converted, so commit the whole batch.
        proof {
            assert(data@.len() > 0);
            assert(has_schema(old(self).schemas@, addon_id as int, slug@));
            assert(conv_check_from(sf, data@, n_cols as int, 0) is None);
            assert(import_conversion_check(sf, data@) is None);
        }
        let base_rec: i64 = self.next_record_id;
        proof {
            assert(base_rec == old(self).next_record_id);
            assert(base_rec + n_rows < i64::MAX);
        }
        let ghost old_rec_len = self.records@.len();
        let mut ids_out: Vec<String> = Vec::new();
        let mut row_i: usize = 0;
        while row_i < n_rows
            invariant
                si < self.schemas@.len(),
                self.schemas == old(self).schemas,
                self.tags == old(self).tags,
                self.next_schema_id == old(self).next_schema_id,
                self.next_tag_id == old(self).next_tag_id,
                self.next_record_id == old(self).next_record_id,
                base_rec == old(self).next_record_id,
                1 <= base_rec,
                old_rec_len == old(self).records@.len(),
                schema_id_val == self.schemas@[si as int].id,
                store_wf(*old(self)),
                base_rec + n_rows < i64::MAX,
                0 <= row_i <= n_rows,
                ids_out@.len() == row_i,
                self.records@.len() == old_rec_len + row_i,
                forall|j: int|
                    0 <= j < old_rec_len ==> #[trigger] self.records@[j] == old(self).records@[j],
                forall|c: int|
                    0 <= c < converted@.len() ==> (#[trigger] converted@[c].2)@.len() == n_rows,
                forall|c: int, k: int|
                    0 <= c < converted@.len() && 0 <= k < n_rows
                        ==> crate::records::value_matches_type(
                        converted@[c].1,
                        #[trigger] converted@[c].2@[k]@,
                    ),
                distinct_keys(data@) ==> conv_distinct(converted@),
                forall|k: int|
                    0 <= k < row_i ==> {
                        let rec = #[trigger] self.records@[old_rec_len + k];
                        &&& rec.public_id@ == ids_out.deep_view()[k]
                        &&& rec.id == base_rec + k
                        &&& rec.addon_id == addon_id && rec.schema_id == schema_id_val
                        &&& rec.created_at == now && rec.updated_at == now
                        &&& rec.deleted_at is None
                        &&& record_wf(rec)
                        &&& (distinct_keys(data@) ==> row_has_converted(rec, converted@, k))
                    },
            decreases n_rows - row_i,
        {
            let pid = crate::trusted::fresh_public_id();
            let pid_copy = crate::values::clone_str(&pid);
            let mut rec = SchemaDataModel::new(addon_id, schema_id_val, pid, now);
            rec.id = base_rec + (row_i as i64);
            let n_conv = converted.len();
            let mut c: usize = 0;
            while c < n_conv
                invariant
                    n_conv == converted@.len(),
                    0 <= c <= n_conv,
                    row_i < n_rows,
                    forall|cc: int|
                        0 <= cc < converted@.len() ==> (#[trigger] converted@[cc].2)@.len()
                            == n_rows,
                    forall|cc: int, k: int|
                        0 <= cc < converted@.len() && 0 <= k < n_rows
                            ==> crate::records::value_matches_type(
                            converted@[cc].1,
                            #[trigger] converted@[cc].2@[k]@,
                        ),
                    record_wf(rec),
                    rec.id == base_rec + row_i,
                    rec.addon_id == addon_id && rec.schema_id == schema_id_val,
                    rec.public_id@ == pid_copy@,
                    rec.created_at == now && rec.updated_at == now && rec.deleted_at is None,
                    distinct_keys(data@) ==> conv_distinct(converted@),
                    distinct_keys(data@) ==> forall|cc: int|
                        0 <= cc < c ==> lookup_value(
                            rec.partitions@,
                            (#[trigger] converted@[cc]).1,
                            converted@[cc].0@,
                        ) == Some(converted@[cc].2@[row_i as int]@),
                decreases n_conv - c,
            {
                let fkey = crate::values::clone_str(&converted[c].0);
                let fval = crate::values::clone_field_value(&converted[c].2[row_i]);
                let t2 = converted[c].1;
                let ghost rec_before = rec;
                let ghost gfkey = fkey;
                let ghost gfval = fval;
                match rec.insert_field(fkey, false, t2, fval) {
                    Ok(_) => {
                        proof {
                            if distinct_keys(data@) {
                                let old_entries = entries_of(rec_before.partitions@, t2);
                                assert(entries_unique(old_entries)) by {
                                    if part_has(rec_before.partitions@, t2) {
                                        let pi = part_idx(rec_before.partitions@, t2);
                                        assert(0 <= pi < rec_before.partitions@.len()
                                            && rec_before.partitions@[pi].field_type == t2);
                                        assert(entries_unique(
                                            rec_before.partitions@[pi].entries@,
                                        ));
                                    }
                                }
                                lemma_upsert_props(old_entries, gfkey, gfval);
                                assert(gfkey@ == converted@[c as int].0@);
                                assert(gfval@ == converted@[c as int].2@[row_i as int]@);
                                assert(entries_of(rec.partitions@, t2) == upsert_spec(
                                    old_entries,
                                    gfkey,
                                    gfval,
                                ));
                                assert forall|cc: int| 0 <= cc < c + 1 implies lookup_value(
                                    rec.partitions@,
                                    (#[trigger] converted@[cc]).1,
                                    converted@[cc].0@,
                                ) == Some(converted@[cc].2@[row_i as int]@) by {
                                    if cc == c {
                                        assert(lookup_value(rec.partitions@, t2, gfkey@) == Some(
                                            gfval@,
                                        ));
                                    } else {
                                        let tcc = converted@[cc].1;
                                        if tcc == t2 {
                                            assert(converted@[cc].0@ != gfkey@);
                                            assert(lookup_entries(
                                                upsert_spec(old_entries, gfkey, gfval),
                                                converted@[cc].0@,
                                            ) == lookup_entries(old_entries, converted@[cc].0@));
                                            assert(lookup_value(
                                                rec_before.partitions@,
                                                t2,
                                                converted@[cc].0@,
                                            ) == lookup_entries(old_entries, converted@[cc].0@));
                                        } else {
                                            assert(entries_of(rec.partitions@, tcc) == entries_of(
                                                rec_before.partitions@,
                                                tcc,
                                            ));
                                        }
                                    }
                                }
                            }
                        }
                    },
                    Err(_) => {
                        proof {
                            assert(false);
                        }
                        return Err(SchemaError::TypeMismatch);
                    },
                }
                c = c + 1;
            }
            self.records.push(rec);
            ids_out.push(pid_copy);
            proof {
                assert(ids_out.deep_view()[row_i as int] == ids_out@[row_i as int]@);
            }
            row_i = row_i + 1;
        }
        self.next_record_id = base_rec + (n_rows as i64);
        let n_pending = pending.len();
        let ghost old_tag_len = self.tags@.len();
        let mut pk: usize = 0;
        while pk < n_pending
            invariant
                n_pending == pending@.len(),
                0 <= pk <= n_pending,
                old_tag_len == old(self).tags@.len(),
                base_tag == old(self).next_tag_id,
                store_wf(*old(self)),
                self.schemas == old(self).schemas,
                self.next_schema_id == old(self).next_schema_id,
                self.next_tag_id == old(self).next_tag_id,
                self.next_record_id == base_rec + n_rows,
                si < self.schemas@.len(),
                self.schemas@[si as int].addon_id == addon_id,
                self.schemas@[si as int].name@ == slug@,
                schema_id_val == self.schemas@[si as int].id,
                1 <= base_rec,
                base_rec == old(self).next_record_id,
                base_rec + n_rows < i64::MAX,
                base_tag <= tag_cursor,
                n_pending == tag_cursor - base_tag,
                ids_out@.len() == n_rows,
                n_cols == data@.len(),
                n_cols > 0,
                all_same_len(data@),
                n_rows == data@[0].1@.len(),
                old_rec_len == old(self).records@.len(),
                self.records@.len() == old_rec_len + n_rows,
                forall|j: int|
                    0 <= j < old_rec_len ==> #[trigger] self.records@[j] == old(self).records@[j],
                forall|k: int|
                    0 <= k < n_rows ==> {
                        let rec = #[trigger] self.records@[old_rec_len + k];
                        &&& rec.public_id@ == ids_out.deep_view()[k]
                        &&& rec.id == base_rec + k
                        &&& rec.addon_id == addon_id && rec.schema_id == schema_id_val
                        &&& rec.created_at == now && rec.updated_at == now
                        &&& rec.deleted_at is None
                        &&& record_wf(rec)
                        &&& (distinct_keys(data@) ==> row_has_converted(rec, converted@, k))
                    },
                self.tags@.len() == old_tag_len + pk,
                forall|j: int|
                    0 <= j < old_tag_len ==> #[trigger] self.tags@[j] == old(self).tags@[j],
                forall|j: int|
                    0 <= j < pk ==> {
                        let t = #[trigger] self.tags@[old_tag_len + j];
                        t.id == pending@[j].id && t.schema_id == pending@[j].schema_id && t.row_id@
                            == pending@[j].row_id@ && t.name@ == pending@[j].name@
                    },
                forall|k: int|
                    0 <= k < pending@.len() ==> (#[trigger] pending@[k]).id == base_tag + k,
                forall|k: int|
                    0 <= k < pending@.len() ==> !tag_slot_has(
                        old(self).tags@,
                        (#[trigger] pending@[k]).schema_id as int,
                        pending@[k].row_id@,
                        pending@[k].name@,
                    ),
                forall|a: int, b: int|
                    0 <= a < b < pending@.len() ==> !same_tag_slot(
                        pending@[a].schema_id as int,
                        pending@[a].row_id@,
                        pending@[a].name@,
                        pending@[b],
                    ),
            decreases n_pending - pk,
        {
            let tag = SchemaDataTagModel {
                id: pending[pk].id,
                schema_id: pending[pk].schema_id,
                row_id: crate::values::clone_str(&pending[pk].row_id),
                name: crate::values::clone_str(&pending[pk].name),
                color: crate::values::clone_str(&pending[pk].color),
            };
            self.tags.push(tag);
            pk = pk + 1;
        }
        self.next_tag_id = tag_cursor;
        proof {
            assert(final(self).tags@.subrange(0, old(self).tags@.len() as int) =~= old(
                self,
            ).tags@);
            assert forall|a: int, b: int| 0 <= a < b < final(self).tags@.len() implies
                !same_tag_slot(
                final(self).tags@[a].schema_id as int,
                final(self).tags@[a].row_id@,
                final(self).tags@[a].name@,
                final(self).tags@[b],
            ) by {
                let fa = final(self).tags@[a];
                let fb = final(self).tags@[b];
                if b >= old_tag_len {
                    let pb = b - old_tag_len;
                    let fb2 = final(self).tags@[old_tag_len + pb];
                    assert(fb2.schema_id == pending@[pb].schema_id && fb2.row_id@
                        == pending@[pb].row_id@ && fb2.name@ == pending@[pb].name@);
                    assert(fb == fb2);
                    if a < old_tag_len {
                        assert(fa == old(self).tags@[a]);
                        assert(!same_tag_slot(
                            pending@[pb].schema_id as int,
                            pending@[pb].row_id@,
                            pending@[pb].name@,
                            old(self).tags@[a],
                        ));
                        if same_tag_slot(fa.schema_id as int, fa.row_id@, fa.name@, fb) {
                            assert(crate::text::eq_ignore_case_seq(fa.name@, pending@[pb].name@));
                            assert(same_tag_slot(
                                pending@[pb].schema_id as int,
                                pending@[pb].row_id@,
                                pending@[pb].name@,
                                old(self).tags@[a],
                            ));
                            assert(false);
                        }
                    } else {
                        let pa = a - old_tag_len;
                        let fa2 = final(self).tags@[old_tag_len + pa];
                        assert(fa2.schema_id == pending@[pa].schema_id && fa2.row_id@
                            == pending@[pa].row_id@ && fa2.name@ == pending@[pa].name@);
                        assert(fa == fa2);
                        assert(!same_tag_slot(
                            pending@[pa].schema_id as int,
                            pending@[pa].row_id@,
                            pending@[pa].name@,
                            pending@[pb],
                        ));
                    }
                } else {
                    assert(fa == old(self).tags@[a] && fb == old(self).tags@[b]);
                }
            }
            assert forall|i: int| 0 <= i < final(self).records@.len() implies record_wf(
                #[trigger] final(self).records@[i],
            ) && final(self).records@[i].id < final(self).next_record_id by {
                if i < old_rec_len {
                    assert(final(self).records@[i] == old(self).records@[i]);
                } else {
                    let k = i - old_rec_len;
                    let rec = final(self).records@[old_rec_len + k];
                    assert(rec.id == base_rec + k && record_wf(rec));
                }
            }
            assert forall|i: int| 0 <= i < final(self).tags@.len() implies (
            #[trigger] final(self).tags@[i]).id < final(self).next_tag_id by {
                if i < old_tag_len {
                    assert(final(self).tags@[i] == old(self).tags@[i]);
                    assert(old(self).tags@[i].id < base_tag);
                } else {
                    let j = i - old_tag_len;
                    let ft = final(self).tags@[old_tag_len + j];
                    assert(ft.id == pending@[j].id);
                    assert(pending@[j].id == base_tag + j);
                }
            }
            assert(schema_idx(old(self).schemas@, addon_id as int, slug@) == si);
            assert(sf == old(self).schemas@[si as int].fields@);
            assert(import_conversion_check(sf, data@) is None);
            if distinct_keys(data@) {
                assert forall|ci: int, k: int|
                    0 <= ci < data@.len() && 0 <= k < n_rows && has_field(
                    sf,
                    (#[trigger] data@[ci]).0@,
                ) && !field_at(sf, data@[ci].0@).is_deleted implies ({
                    let t = field_at(sf, data@[ci].0@).field_type;
                    &&& (!(t is Tags) ==> crate::values::parse_value_spec(t, data@[ci].1@[k]@)
                        is Ok && lookup_value(
                        (#[trigger] final(self).records@[old_rec_len + k]).partitions@,
                        t,
                        data@[ci].0@,
                    ) == Some(crate::values::parse_value_spec(t, data@[ci].1@[k]@)->Ok_0))
                    &&& (t is Tags ==> ({
                        let stored = lookup_value(
                            final(self).records@[old_rec_len + k].partitions@,
                            SchematicFieldType::Tags,
                            data@[ci].0@,
                        );
                        match data@[ci].1@[k]@ {
                            crate::values::SimpleValueV::Text(s) => {
                                let pieces = crate::text::split_commas_spec(s);
                                &&& stored matches Some(sv)
                                &&& sv is Tags
                                &&& (crate::text::trim_seq(s).len() == 0 ==> sv->Tags_0.len()
                                    == 0)
                                &&& (crate::text::trim_seq(s).len() > 0 ==> sv->Tags_0.len()
                                    == pieces.len() && (forall|i: int|
                                    0 <= i < pieces.len() ==> tag_lookup(
                                        final(self).tags@,
                                        schema_id_val as int,
                                        data@[ci].0@,
                                        crate::text::trim_seq(#[trigger] pieces[i]),
                                    ) == Some(sv->Tags_0[i])))
                            },
                            crate::values::SimpleValueV::ListNumber(nums) => stored == Some(
                                crate::values::SchematicFieldValueV::Tags(
                                    nums.map_values(
                                        (|n: crate::values::Number| crate::values::num_i64(n)),
                                    ),
                                ),
                            ),
                            _ => true,
                        }
                    }))
                }) by {
                    let c0 = choose|c: int|
                        0 <= c < converted@.len() && (#[trigger] converted@[c]).0@ == data@[ci].0@
                            && converted@[c].1 == field_at(sf, data@[ci].0@).field_type && (!(
                        converted@[c].1 is Tags) ==> forall|k2: int|
                            0 <= k2 < n_rows ==> crate::values::parse_value_spec(
                                converted@[c].1,
                                #[trigger] data@[ci].1@[k2]@,
                            ) is Ok && converted@[c].2@[k2]@ == crate::values::parse_value_spec(
                                converted@[c].1,
                                data@[ci].1@[k2]@,
                            )->Ok_0) && (converted@[c].1 is Tags ==> forall|k2: int|
                            0 <= k2 < n_rows ==> tags_cell_matches(
                                old(self).tags@,
                                pending@,
                                schema_id_val as int,
                                data@[ci].0@,
                                #[trigger] data@[ci].1@[k2]@,
                                converted@[c].2@[k2]@,
                            ));
                    let rec = final(self).records@[old_rec_len + k];
                    assert(row_has_converted(rec, converted@, k));
                    assert(lookup_value(rec.partitions@, converted@[c0].1, converted@[c0].0@)
                        == Some(converted@[c0].2@[k]@));
                    if converted@[c0].1 is Tags {
                        assert(converted@[c0].1 == SchematicFieldType::Tags);
                        assert(tags_cell_matches(
                            old(self).tags@,
                            pending@,
                            schema_id_val as int,
                            data@[ci].0@,
                            data@[ci].1@[k]@,
                            converted@[c0].2@[k]@,
                        ));
                        match data@[ci].1@[k]@ {
                            crate::values::SimpleValueV::Text(s) => {
                                let pieces = crate::text::split_commas_spec(s);
                                if crate::text::trim_seq(s).len() > 0 {
                                    assert forall|i: int| 0 <= i < pieces.len() implies tag_lookup(
                                        final(self).tags@,
                                        schema_id_val as int,
                                        data@[ci].0@,
                                        crate::text::trim_seq(#[trigger] pieces[i]),
                                    ) == Some(converted@[c0].2@[k]@->Tags_0[i]) by {
                                        lemma_tag_match_final(
                                            old(self).tags@,
                                            pending@,
                                            final(self).tags@,
                                            schema_id_val as int,
                                            data@[ci].0@,
                                            crate::text::trim_seq(pieces[i]),
                                            converted@[c0].2@[k]@->Tags_0[i],
                                        );
                                    }
                                }
                            },
                            _ => {},
                        }
                    }
                }
            }
        }
        Ok(ids_out)
    }
}

} // verus!
