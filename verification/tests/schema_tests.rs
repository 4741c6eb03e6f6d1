//! The column lifecycle: creation, the two caps, soft deletion, and the
//! permanent retirement of deleted column ids.
use cms_schema::dates::{Date, DateTime, Time};
use cms_schema::fields::SchematicFieldType;
use cms_schema::schema::SchemaModel;
use cms_schema::SchemaError;

fn noon() -> DateTime {
    DateTime {
        date: Date { year: 2024, month: 6, day: 1 },
        time: Time { hour: 12, minute: 0, second: 0 },
    }
}

fn fresh_schema() -> SchemaModel {
    SchemaModel::create(
        1,
        7,
        "products".to_string(),
        "Products".to_string(),
        Vec::new(),
        noon(),
    )
    .expect("a valid schema")
}

#[test]
fn create_populates_the_built_in_columns() {
    let s = fresh_schema();
    assert_eq!(s.total_columns(), 4);
    assert_eq!(s.active_columns(), 4);
    assert_eq!(s.name, "products");
    assert_eq!(s.display_name, "Products");
    assert_eq!(s.primary_field, "_createdAt");
    assert_eq!(s.store, "cms");
    let keys: Vec<&str> = s.fields.iter().map(|(k, _)| k.as_str()).collect();
    assert_eq!(keys, vec!["_id", "_owner", "_createdAt", "_updatedAt"]);
    assert!(s.fields.iter().all(|(_, f)| f.system_field && !f.is_deleted));
}

#[test]
fn create_rejects_bad_names() {
    let e = SchemaModel::create(1, 7, "p".to_string(), "Products".to_string(), Vec::new(), noon());
    assert_eq!(e.unwrap_err(), SchemaError::InvalidName);
    let e = SchemaModel::create(1, 7, "a-b".to_string(), "Products".to_string(), Vec::new(), noon());
    assert_eq!(e.unwrap_err(), SchemaError::InvalidName);
    let e = SchemaModel::create(1, 7, "ab".to_string(), "P/r".to_string(), Vec::new(), noon());
    assert_eq!(e.unwrap_err(), SchemaError::InvalidName);
    let e = SchemaModel::create(1, 7, "a/b".to_string(), "Products".to_string(), Vec::new(), noon());
    assert_eq!(e.unwrap_err(), SchemaError::InvalidName);
}

#[test]
fn added_columns_are_indexed_in_creation_order() {
    let mut s = fresh_schema();
    let f = s
        .add_column(" name ", "Name".to_string(), SchematicFieldType::Text, None)
        .expect("column should be added");
    assert_eq!(f.index, 4);
    assert!(!f.system_field && !f.is_deleted && f.sortable);
    // The id was trimmed.
    assert!(s.find_field("name").is_some());
    assert_eq!(s.active_columns(), 5);
}

#[test]
fn duplicate_column_ids_are_refused() {
    let mut s = fresh_schema();
    s.add_column("name", "Name".to_string(), SchematicFieldType::Text, None)
        .unwrap();
    let e = s.add_column("name", "Other".to_string(), SchematicFieldType::Number, None);
    assert_eq!(e.unwrap_err(), SchemaError::ColumnIdExists);
}

#[test]
fn reference_columns_need_their_schema() {
    let mut s = fresh_schema();
    let e = s.add_column("rel", "Rel".to_string(), SchematicFieldType::Reference, None);
    assert_eq!(e.unwrap_err(), SchemaError::MissingReferencedSchema);
    let e = s.add_column("rels", "Rels".to_string(), SchematicFieldType::MultiReference, None);
    assert_eq!(e.unwrap_err(), SchemaError::MissingReferencedSchema);
    s.add_column(
        "rel",
        "Rel".to_string(),
        SchematicFieldType::Reference,
        Some("other".to_string()),
    )
    .expect("a reference with its schema is fine");
}

#[test]
fn twenty_first_active_column_is_refused() {
    let mut s = fresh_schema();
    // Four built-ins count as active; sixteen more reach the cap of 20.
    for i in 0..16 {
        s.add_column(
            &format!("col{i}"),
            format!("Column {i}"),
            SchematicFieldType::Text,
            None,
        )
        .expect("under the cap");
    }
    assert_eq!(s.active_columns(), 20);
    let e = s.add_column("one_more", "One more".to_string(), SchematicFieldType::Text, None);
    assert_eq!(e.unwrap_err(), SchemaError::TooManyColumns);
}

#[test]
fn the_lifetime_cap_counts_deleted_columns() {
    let mut s = fresh_schema();
    // Create and delete columns until 100 have ever existed.
    for i in 0..96 {
        let id = format!("col{i}");
        s.add_column(&id, format!("Column {i}"), SchematicFieldType::Text, None)
            .expect("under the lifetime cap");
        s.delete_column(&id).expect("column should delete");
    }
    assert_eq!(s.total_columns(), 100);
    assert_eq!(s.active_columns(), 4);
    // Even with only four active columns, nothing can ever be added again.
    let e = s.add_column("fresh", "Fresh".to_string(), SchematicFieldType::Text, None);
    assert_eq!(e.unwrap_err(), SchemaError::TooManyColumnsEverCreated);
}

#[test]
fn deleted_column_ids_are_never_reused() {
    let mut s = fresh_schema();
    s.add_column("name", "Name".to_string(), SchematicFieldType::Text, None)
        .unwrap();
    s.delete_column("name").expect("delete succeeds");
    let e = s.add_column("name", "Name".to_string(), SchematicFieldType::Text, None);
    assert_eq!(e.unwrap_err(), SchemaError::ColumnIdReused);
    // The entry is still there, marked deleted, still counting.
    assert_eq!(s.total_columns(), 5);
    assert_eq!(s.active_columns(), 4);
}

#[test]
fn built_in_columns_cannot_be_deleted() {
    let mut s = fresh_schema();
    let e = s.delete_column("_id");
    assert_eq!(e.unwrap_err(), SchemaError::SystemColumn);
    let e = s.delete_column("_createdAt");
    assert_eq!(e.unwrap_err(), SchemaError::SystemColumn);
    let e = s.delete_column("missing");
    assert_eq!(e.unwrap_err(), SchemaError::FieldNotFound);
}
