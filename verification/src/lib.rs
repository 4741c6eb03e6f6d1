//! A dynamic schema engine for user-definable, typed-column collections:
//! schemas gain and lose columns at runtime under an append-only
//! lifecycle, rows hold their values in per-type partitions rather than
//! one column per field, and a query engine answers filtered, sorted,
//! paginated reads over that shape. A tag registry backs the `Tags`
//! column type, deduplicating names case-insensitively per column.
//!
//! Every operation carries a contract, verified with Verus: what it
//! returns, exactly when each error comes, and what it leaves unchanged.
//! Calls into other crates stand behind the trusted boundary in
//! [`trusted`], and nothing else is taken on faith.
pub mod dates;
pub mod fields;
pub mod gen;
pub mod query;
pub mod records;
pub mod schema;
pub mod store;
pub mod text;
pub mod trusted;
pub mod values;

use vstd::prelude::*;

verus! {

/// Everything that can go wrong in the schema engine, told apart so a
/// caller can distinguish bad input, a missing target and a shape error.
#[derive(Clone, Copy, PartialEq, Eq, Structural, Debug)]
pub enum SchemaError {
    /// A schema slug or display name is too short or holds a forbidden character.
    InvalidName,
    /// A schema with this slug already exists for the addon.
    SchemaExists,
    /// No schema with the given identifier.
    SchemaNotFound,
    /// The schema already has its full number of active columns.
    TooManyColumns,
    /// The schema has reached the lifetime cap of columns ever created.
    TooManyColumnsEverCreated,
    /// The column id belonged to a column that was deleted; ids are never reused.
    ColumnIdReused,
    /// The column id names a currently active column.
    ColumnIdExists,
    /// A Reference or MultiReference column needs the referenced schema.
    MissingReferencedSchema,
    /// The four built-in columns cannot be removed.
    SystemColumn,
    /// No column with the given id.
    FieldNotFound,
    /// No record with the given identifier.
    RecordNotFound,
    /// A value's shape does not match the column's declared type.
    TypeMismatch,
    /// A textual value failed to parse as the column's declared type.
    ParseFailure,
    /// An update that neither stores nor clears anything.
    NoOpUpdate,
    /// An import with no columns at all.
    EmptyImport,
    /// An import whose columns disagree about the number of rows.
    ImportLengthMismatch,
    /// A filter that cannot be evaluated, such as `Between` without a range.
    UnsupportedFilter,
    /// The schema's rows live on the owning addon's server, not here.
    AddonStored,
    /// The store has run out of fresh identifiers.
    IdSpaceExhausted,
}

impl SchemaError {
    /// A short human-readable description of the error.
    pub fn message(&self) -> String {
        match self {
            SchemaError::InvalidName => String::from_str("Invalid Characters present"),
            SchemaError::SchemaExists => String::from_str("Schema ID already Exists"),
            SchemaError::SchemaNotFound => String::from_str("Schema not found"),
            SchemaError::TooManyColumns => String::from_str("Too many columns"),
            SchemaError::TooManyColumnsEverCreated => String::from_str(
                "Too many columns created and deleted",
            ),
            SchemaError::ColumnIdReused => String::from_str(
                "Cannot create a new column from a previously used ID",
            ),
            SchemaError::ColumnIdExists => String::from_str("Column ID Already Exists"),
            SchemaError::MissingReferencedSchema => String::from_str(
                "Reference is missing the schema",
            ),
            SchemaError::SystemColumn => String::from_str("Cannot remove a built-in column"),
            SchemaError::FieldNotFound => String::from_str("Schema field not found"),
            SchemaError::RecordNotFound => String::from_str("Schema Data not found"),
            SchemaError::TypeMismatch => String::from_str("Incorrect Field Value Received"),
            SchemaError::ParseFailure => String::from_str("Unable to parse the value"),
            SchemaError::NoOpUpdate => String::from_str("Nothing to update"),
            SchemaError::EmptyImport => String::from_str("Import holds no columns"),
            SchemaError::ImportLengthMismatch => String::from_str(
                "Import columns differ in length",
            ),
            SchemaError::UnsupportedFilter => String::from_str("Filter cannot be evaluated"),
            SchemaError::AddonStored => String::from_str("Schema data is stored by the addon"),
            SchemaError::IdSpaceExhausted => String::from_str("No identifiers left"),
        }
    }
}

/// Clamp a requested page size to the supported window: a missing limit
/// defaults to 50 rows, and any request below 20 rows is raised to 20.
pub fn clamp_page_limit(limit: Option<u32>) -> (r: u32)
    ensures
        r == clamp_page_limit_spec(limit),
{
    match limit {
        Some(l) => {
            if l < 20 {
                20
            } else {
                l
            }
        },
        None => 50,
    }
}

/// The clamped page size: 50 when absent, never below 20.
pub open spec fn clamp_page_limit_spec(limit: Option<u32>) -> u32 {
    match limit {
        Some(l) => if l < 20 {
            20u32
        } else {
            l
        },
        None => 50u32,
    }
}

} // verus!
