//! The schema definition model: a named collection's typed columns and
//! metadata, with the append-only column lifecycle. Columns are created,
//! may later be soft-deleted, and a deleted column's id is retired for the
//! schema's whole life; a schema holds at most 20 active columns and at
//! most 100 columns ever created.
use vstd::prelude::*;

use crate::SchemaError;
use crate::dates::DateTime;
use crate::fields::{SchemaView, SchematicField, SchematicFieldType, SchematicPermissions};
use crate::text::{seq_contains, str_contains, str_eq, trim, trim_seq};

verus! {

/// The cap on simultaneously active (non-deleted) columns.
pub const MAX_ACTIVE_COLUMNS: usize = 20;

/// The lifetime cap on columns ever created, active and deleted together.
pub const MAX_TOTAL_COLUMNS: usize = 100;

/// A user-defined collection: its typed columns, keyed by field id in
/// creation order, and its descriptive metadata.
#[derive(Debug)]
pub struct SchemaModel {
    pub id: i32,
    pub name: String,
    pub addon_id: i32,
    pub primary_field: String,
    pub display_name: String,
    pub permissions: SchematicPermissions,
    pub version: u32,
    pub allowed_operations: Vec<String>,
    pub ttl: Option<i32>,
    pub default_sort: Option<String>,
    pub views: Vec<SchemaView>,
    /// `"cms"` for locally stored rows, `"addon"` for rows served live by
    /// the owning addon.
    pub store: String,
    pub fields: Vec<(String, SchematicField)>,
    pub created_at: DateTime,
    pub updated_at: DateTime,
    pub deleted_at: Option<DateTime>,
}

/// No two columns share a key.
pub open spec fn unique_keys(fields: Seq<(String, SchematicField)>) -> bool {
    forall|i: int, j: int|
        0 <= i < j < fields.len() ==> fields[i].0@ != fields[j].0@
}

/// Some column carries the key `k`.
pub open spec fn has_field(fields: Seq<(String, SchematicField)>, k: Seq<char>) -> bool {
    exists|i: int| 0 <= i < fields.len() && #[trigger] fields[i].0@ == k
}

/// The position of the column keyed `k`.
pub open spec fn field_idx(fields: Seq<(String, SchematicField)>, k: Seq<char>) -> int {
    choose|i: int| 0 <= i < fields.len() && #[trigger] fields[i].0@ == k
}

/// The column keyed `k`.
pub open spec fn field_at(fields: Seq<(String, SchematicField)>, k: Seq<char>) -> SchematicField {
    fields[field_idx(fields, k)].1
}

/// How many columns are active, that is, not soft-deleted.
pub open spec fn active_count(fields: Seq<(String, SchematicField)>) -> int
    decreases fields.len(),
{
    if fields.len() == 0 {
        0
    } else {
        active_count(fields.drop_last()) + if fields.last().1.is_deleted {
            0int
        } else {
            1int
        }
    }
}

/// Well-formedness of a schema: column keys are unique, each column's
/// index is its creation position, and the lifetime cap is respected.
pub open spec fn schema_wf(s: SchemaModel) -> bool {
    &&& unique_keys(s.fields@)
    &&& forall|i: int| 0 <= i < s.fields@.len() ==> #[trigger] s.fields@[i].1.index == i
    &&& s.fields@.len() <= MAX_TOTAL_COLUMNS as int
}

/// The decision of the add-column checks, in the order they are made:
/// the active cap, the lifetime cap, key reuse, and the referenced-schema
/// requirement; `None` means the column may be added.
pub open spec fn add_column_check(
    fields: Seq<(String, SchematicField)>,
    key: Seq<char>,
    type_of: SchematicFieldType,
    has_referenced: bool,
) -> Option<SchemaError> {
    if active_count(fields) >= MAX_ACTIVE_COLUMNS as int {
        Some(SchemaError::TooManyColumns)
    } else if fields.len() >= MAX_TOTAL_COLUMNS as int {
        Some(SchemaError::TooManyColumnsEverCreated)
    } else if has_field(fields, key) {
        if field_at(fields, key).is_deleted {
            Some(SchemaError::ColumnIdReused)
        } else {
            Some(SchemaError::ColumnIdExists)
        }
    } else if (type_of is Reference || type_of is MultiReference) && !has_referenced {
        Some(SchemaError::MissingReferencedSchema)
    } else {
        None
    }
}

/// A slug is long enough once trimmed and free of `-` and `/`; a display
/// name is long enough once trimmed and free of `/`.
pub open spec fn valid_schema_names(slug: Seq<char>, display: Seq<char>) -> bool {
    &&& trim_seq(slug).len() >= 2
    &&& trim_seq(display).len() >= 2
    &&& !seq_contains(slug, "-"@)
    &&& !seq_contains(slug, "/"@)
    &&& !seq_contains(display, "/"@)
}

/// The four built-in columns every schema starts with.
pub open spec fn system_fields_spec(fields: Seq<(String, SchematicField)>) -> bool {
    &&& fields.len() == 4
    &&& fields[0].0@ == "_id"@ && fields[0].1.field_type is Text
    &&& fields[1].0@ == "_owner"@ && fields[1].1.field_type is Text
    &&& fields[2].0@ == "_createdAt"@ && fields[2].1.field_type is DateTime
    &&& fields[3].0@ == "_updatedAt"@ && fields[3].1.field_type is DateTime
    &&& forall|i: int|
        0 <= i < 4 ==> #[trigger] fields[i].1.system_field && !fields[i].1.is_deleted
            && fields[i].1.sortable && fields[i].1.index == i && fields[i].1.referenced_schema
            is None
}

impl SchemaModel {
    /// Find a column by its key.
    pub fn find_field(&self, key: &str) -> (r: Option<usize>)
        ensures
            match r {
                Some(i) => i < self.fields@.len() && self.fields@[i as int].0@ == key@,
                None => !has_field(self.fields@, key@),
            },
    {
        let n = self.fields.len();
        let mut i: usize = 0;
        while i < n
            invariant
                n == self.fields@.len(),
                0 <= i <= n,
                forall|j: int| 0 <= j < i ==> #[trigger] self.fields@[j].0@ != key@,
            decreases n - i,
        {
            if str_eq(self.fields[i].0.as_str(), key) {
                return Some(i);
            }
            i = i + 1;
        }
        None
    }

    /// How many columns are active.
    pub fn active_columns(&self) -> (r: usize)
        ensures
            r == active_count(self.fields@),
    {
        let n = self.fields.len();
        let mut count: usize = 0;
        let mut i: usize = 0;
        while i < n
            invariant
                n == self.fields@.len(),
                0 <= i <= n,
                count == active_count(self.fields@.subrange(0, i as int)),
                count <= i,
            decreases n - i,
        {
            let was_deleted = self.fields[i].1.is_deleted;
            proof {
                assert(self.fields@.subrange(0, i + 1).drop_last() =~= self.fields@.subrange(
                    0,
                    i as int,
                ));
            }
            if !was_deleted {
                count = count + 1;
            }
            i = i + 1;
        }
        proof {
            assert(self.fields@.subrange(0, n as int) =~= self.fields@);
        }
        count
    }

    /// How many columns were ever created, deleted ones included.
    pub fn total_columns(&self) -> (r: usize)
        ensures
            r == self.fields@.len(),
    {
        self.fields.len()
    }

    /// Build a new collection definition. The slug and display name must
    /// pass the naming rules; the display name is stored trimmed. The four
    /// built-in columns are pre-populated and the primary field is the
    /// creation timestamp.
    pub fn create(
        id: i32,
        addon_id: i32,
        slug: String,
        display_name: String,
        views: Vec<SchemaView>,
        now: DateTime,
    ) -> (r: Result<SchemaModel, SchemaError>)
        ensures
            match r {
                Ok(s) => {
                    &&& valid_schema_names(slug@, display_name@)
                    &&& schema_wf(s)
                    &&& system_fields_spec(s.fields@)
                    &&& s.id == id && s.addon_id == addon_id
                    &&& s.name@ == slug@
                    &&& s.display_name@ == trim_seq(display_name@)
                    &&& s.primary_field@ == "_createdAt"@
                    &&& s.store@ == "cms"@
                    &&& s.version == 1
                    &&& s.permissions.insert is Admin && s.permissions.update is Admin
                    &&& s.permissions.remove is Admin && s.permissions.read is Admin
                    &&& s.allowed_operations@.len() == 0
                    &&& s.ttl is None && s.default_sort is None
                    &&& s.views == views
                    &&& s.created_at == now && s.updated_at == now && s.deleted_at is None
                },
                Err(e) => e == SchemaError::InvalidName && !valid_schema_names(
                    slug@,
                    display_name@,
                ),
            },
    {
        let slug_trimmed_len = trim(slug.as_str()).unicode_len();
        let display_trimmed = trim(display_name.as_str());
        if slug_trimmed_len < 2 || display_trimmed.unicode_len() < 2 || str_contains(
            slug.as_str(),
            "-",
        ) || str_contains(slug.as_str(), "/") || str_contains(display_name.as_str(), "/") {
            return Err(SchemaError::InvalidName);
        }
        let display_owned = display_trimmed.to_owned();
        let mut fields: Vec<(String, SchematicField)> = Vec::new();
        fields.push(
            (
                String::from_str("_id"),
                SchematicField {
                    display_name: String::from_str("ID"),
                    sortable: true,
                    is_deleted: false,
                    system_field: true,
                    field_type: SchematicFieldType::Text,
                    index: 0,
                    referenced_schema: None,
                },
            ),
        );
        fields.push(
            (
                String::from_str("_owner"),
                SchematicField {
                    display_name: String::from_str("Owner"),
                    sortable: true,
                    is_deleted: false,
                    system_field: true,
                    field_type: SchematicFieldType::Text,
                    index: 1,
                    referenced_schema: None,
                },
            ),
        );
        fields.push(
            (
                String::from_str("_createdAt"),
                SchematicField {
                    display_name: String::from_str("Created Date"),
                    sortable: true,
                    is_deleted: false,
                    system_field: true,
                    field_type: SchematicFieldType::DateTime,
                    index: 2,
                    referenced_schema: None,
                },
            ),
        );
        fields.push(
            (
                String::from_str("_updatedAt"),
                SchematicField {
                    display_name: String::from_str("Updated Date"),
                    sortable: true,
                    is_deleted: false,
                    system_field: true,
                    field_type: SchematicFieldType::DateTime,
                    index: 3,
                    referenced_schema: None,
                },
            ),
        );
        proof {
            reveal_strlit("_id");
            reveal_strlit("_owner");
            reveal_strlit("_createdAt");
            reveal_strlit("_updatedAt");
            assert("_id"@.len() == 3);
            assert("_owner"@.len() == 6);
            assert("_createdAt"@.len() == 10);
            assert("_updatedAt"@.len() == 10);
            assert("_createdAt"@[1] == 'c');
            assert("_updatedAt"@[1] == 'u');
            assert("_createdAt"@ != "_updatedAt"@);
            assert(unique_keys(fields@));
        }
        Ok(
            SchemaModel {
                id,
                name: slug,
                addon_id,
                primary_field: String::from_str("_createdAt"),
                display_name: display_owned,
                permissions: Default::default(),
                version: 1,
                allowed_operations: Vec::new(),
                ttl: None,
                default_sort: None,
                views,
                store: String::from_str("cms"),
                fields,
                created_at: now,
                updated_at: now,
                deleted_at: None,
            },
        )
    }

    /// Add a column. The id is trimmed; the checks run in the order of
    /// `add_column_check` and a refused column leaves the schema untouched.
    /// An accepted column is appended, active, non-system, sortable, and
    /// indexed by its creation position; the caller persists the schema.
    pub fn add_column(
        &mut self,
        id: &str,
        name: String,
        type_of: SchematicFieldType,
        referenced_schema: Option<String>,
    ) -> (r: Result<SchematicField, SchemaError>)
        requires
            schema_wf(*old(self)),
        ensures
            schema_wf(*final(self)),
            match r {
                Err(e) => *final(self) == *old(self) && add_column_check(
                    old(self).fields@,
                    trim_seq(id@),
                    type_of,
                    referenced_schema is Some,
                ) == Some(e),
                Ok(f) => {
                    &&& add_column_check(
                        old(self).fields@,
                        trim_seq(id@),
                        type_of,
                        referenced_schema is Some,
                    ) is None
                    &&& f.display_name@ == name@ && f.sortable && !f.is_deleted && !f.system_field
                    &&& f.field_type == type_of
                    &&& f.index == old(self).fields@.len()
                    &&& f@.referenced_schema == (match referenced_schema {
                        Some(s) => Some(s@),
                        None => None::<Seq<char>>,
                    })
                    &&& final(self).fields@.len() == old(self).fields@.len() + 1
                    &&& final(self).fields@.last().0@ == trim_seq(id@)
                    &&& final(self).fields@.last().1@ == f@
                    &&& final(self).fields@.drop_last() == old(self).fields@
                    &&& *final(self) == (SchemaModel { fields: final(self).fields, ..*old(self) })
                },
            },
    {
        let trimmed = trim(id);
        let active = self.active_columns();
        if active >= MAX_ACTIVE_COLUMNS {
            return Err(SchemaError::TooManyColumns);
        }
        let total = self.fields.len();
        if total >= MAX_TOTAL_COLUMNS {
            return Err(SchemaError::TooManyColumnsEverCreated);
        }
        match self.find_field(trimmed) {
            Some(i) => {
                proof {
                    assert(has_field(self.fields@, trimmed@));
                    assert(field_idx(self.fields@, trimmed@) == i);
                }
                if self.fields[i].1.is_deleted {
                    return Err(SchemaError::ColumnIdReused);
                } else {
                    return Err(SchemaError::ColumnIdExists);
                }
            },
            None => {},
        }
        let is_reference = match type_of {
            SchematicFieldType::Reference | SchematicFieldType::MultiReference => true,
            _ => false,
        };
        if is_reference && referenced_schema.is_none() {
            return Err(SchemaError::MissingReferencedSchema);
        }
        let referenced_copy = match &referenced_schema {
            Some(s) => Some(crate::values::clone_str(s)),
            None => None,
        };
        let field = SchematicField {
            display_name: crate::values::clone_str(&name),
            sortable: true,
            is_deleted: false,
            system_field: false,
            field_type: type_of,
            index: total as u16,
            referenced_schema,
        };
        let returned = SchematicField {
            display_name: name,
            sortable: true,
            is_deleted: false,
            system_field: false,
            field_type: type_of,
            index: total as u16,
            referenced_schema: referenced_copy,
        };
        self.fields.push((trimmed.to_owned(), field));
        Ok(returned)
    }

    /// Soft-delete a column: the entry stays, marked deleted, and keeps
    /// counting toward the lifetime cap. The built-in columns cannot be
    /// removed, and an unknown key is reported as not found.
    pub fn delete_column(&mut self, id: &str) -> (r: Result<(), SchemaError>)
        requires
            schema_wf(*old(self)),
        ensures
            schema_wf(*final(self)),
            match r {
                Err(e) => *final(self) == *old(self) && if !has_field(old(self).fields@, id@) {
                    e == SchemaError::FieldNotFound
                } else {
                    e == SchemaError::SystemColumn && field_at(old(self).fields@, id@).system_field
                },
                Ok(_) => {
                    &&& has_field(old(self).fields@, id@)
                    &&& !field_at(old(self).fields@, id@).system_field
                    &&& final(self).fields@.len() == old(self).fields@.len()
                    &&& {
                        let i = field_idx(old(self).fields@, id@);
                        &&& final(self).fields@[i].0 == old(self).fields@[i].0
                        &&& final(self).fields@[i].1 == (SchematicField {
                            is_deleted: true,
                            ..old(self).fields@[i].1
                        })
                        &&& forall|j: int|
                            0 <= j < final(self).fields@.len() && j != i
                                ==> final(self).fields@[j] == old(self).fields@[j]
                    }
                    &&& *final(self) == (SchemaModel { fields: final(self).fields, ..*old(self) })
                },
            },
    {
        let found = self.find_field(id);
        match found {
            None => Err(SchemaError::FieldNotFound),
            Some(i) => {
                proof {
                    assert(has_field(self.fields@, id@));
                    assert(field_idx(self.fields@, id@) == i);
                }
                if self.fields[i].1.system_field {
                    return Err(SchemaError::SystemColumn);
                }
                let (key, mut f) = self.fields.remove(i);
                f.is_deleted = true;
                self.fields.insert(i, (key, f));
                proof {
                    assert(forall|j: int|
                        0 <= j < self.fields@.len() && j != i ==> self.fields@[j] == old(
                            self,
                        ).fields@[j]);
                }
                Ok(())
            },
        }
    }

    /// Replace the schema's saved views.
    pub fn update_views(&mut self, views: Vec<SchemaView>)
        ensures
            final(self).views == views,
            *final(self) == (SchemaModel { views: final(self).views, ..*old(self) }),
    {
        self.views = views;
    }
}

/// The lifetime cap outlives every deletion: once a hundred columns have
/// ever been created, adding any column is refused with the lifetime-cap
/// error — even when few, or none, of them are still active.
pub proof fn lemma_lifetime_cap_is_forever(
    fields: Seq<(String, SchematicField)>,
    key: Seq<char>,
    type_of: SchematicFieldType,
    has_referenced: bool,
)
    requires
        fields.len() >= MAX_TOTAL_COLUMNS as int,
        active_count(fields) < MAX_ACTIVE_COLUMNS as int,
    ensures
        add_column_check(fields, key, type_of, has_referenced) == Some(
            SchemaError::TooManyColumnsEverCreated,
        ),
{
}

/// A column id, once soft-deleted, can never be added again: the add
/// checks always refuse the key, and, whenever neither column cap turns
/// the request away first, precisely with the reused-id error.
pub proof fn lemma_deleted_column_never_readded(
    fields: Seq<(String, SchematicField)>,
    key: Seq<char>,
    type_of: SchematicFieldType,
    has_referenced: bool,
)
    requires
        unique_keys(fields),
        has_field(fields, key),
        field_at(fields, key).is_deleted,
    ensures
        add_column_check(fields, key, type_of, has_referenced) is Some,
        active_count(fields) < MAX_ACTIVE_COLUMNS as int && fields.len() < MAX_TOTAL_COLUMNS as int
            ==> add_column_check(fields, key, type_of, has_referenced) == Some(
            SchemaError::ColumnIdReused,
        ),
{
}

} // verus!
