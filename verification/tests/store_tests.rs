//! Whole-store scenarios: rows, cells, queries, tags and imports.
use cms_schema::dates::{Date, DateTime, Time};
use cms_schema::fields::{DefaultSort, SchematicFieldType, SortOrder};
use cms_schema::query::{Filter, FilterConditionType, FilterValue};
use cms_schema::store::CmsStore;
use cms_schema::values::{Number, SimpleValue};
use cms_schema::SchemaError;

const ADDON: i32 = 7;

fn noon() -> DateTime {
    DateTime {
        date: Date { year: 2024, month: 6, day: 1 },
        time: Time { hour: 12, minute: 0, second: 0 },
    }
}

fn store_with_products() -> CmsStore {
    let mut store = CmsStore::new();
    store
        .create_schema(ADDON, "products".to_string(), "Products".to_string(), Vec::new(), noon())
        .expect("schema should be created");
    store
}

fn external_value(pairs: &[(String, SimpleValue)], key: &str) -> Option<SimpleValue> {
    for (k, v) in pairs {
        if k == key {
            return Some(clone_simple(v));
        }
    }
    None
}

fn clone_simple(v: &SimpleValue) -> SimpleValue {
    cms_schema::values::clone_simple_value(v)
}

#[test]
fn create_schema_rejects_duplicate_slugs() {
    let mut store = store_with_products();
    let e = store.create_schema(
        ADDON,
        "products".to_string(),
        "Also products".to_string(),
        Vec::new(),
        noon(),
    );
    assert_eq!(e.unwrap_err(), SchemaError::SchemaExists);
    // Another addon may reuse the slug.
    store
        .create_schema(9, "products".to_string(), "Products".to_string(), Vec::new(), noon())
        .expect("same slug under another addon is fine");
}

#[test]
fn create_add_column_insert_and_read_back() {
    let mut store = store_with_products();
    store
        .add_column(ADDON, "products", "name", "Name".to_string(), SchematicFieldType::Text, None, noon())
        .expect("column should be added");
    store.create_row(ADDON, "products", noon()).expect("row should be created");
    let public_id = store.records[0].public_id.clone();
    store
        .update_cell(
            ADDON,
            "products",
            &public_id,
            "name",
            Some(SimpleValue::Text("Widget".to_string())),
            noon(),
        )
        .expect("the cell should store");

    let si = store.find_schema(ADDON, "products").unwrap();
    let pairs = store.records[0].to_external_map(store.schema_at(si), None);

    let id_out = external_value(&pairs, "_id").expect("_id is always emitted");
    assert!(matches!(id_out, SimpleValue::Text(s) if s == public_id));
    let owner = external_value(&pairs, "_owner").expect("_owner is always emitted");
    assert!(
        matches!(owner, SimpleValue::Text(s) if s == "00000000-0000-0000-0000-000000000000")
    );
    let created = external_value(&pairs, "_createdAt").expect("_createdAt is always emitted");
    assert!(matches!(created, SimpleValue::DateTime(d) if d == noon()));
    let updated = external_value(&pairs, "_updatedAt").expect("_updatedAt is always emitted");
    assert!(matches!(updated, SimpleValue::DateTime(_)));
    let name = external_value(&pairs, "name").expect("the stored cell is emitted");
    assert!(matches!(name, SimpleValue::Text(s) if s == "Widget"));
}

#[test]
fn soft_column_delete_hides_the_value_but_keeps_the_count() {
    let mut store = store_with_products();
    store
        .add_column(ADDON, "products", "name", "Name".to_string(), SchematicFieldType::Text, None, noon())
        .expect("column should be added");
    store.create_row(ADDON, "products", noon()).expect("row should be created");
    let public_id = store.records[0].public_id.clone();
    store
        .update_cell(
            ADDON,
            "products",
            &public_id,
            "name",
            Some(SimpleValue::Text("Widget".to_string())),
            noon(),
        )
        .expect("the cell should store");

    store.delete_column(ADDON, "products", "name", noon()).expect("delete succeeds");

    let si = store.find_schema(ADDON, "products").unwrap();
    let pairs = store.records[0].to_external_map(store.schema_at(si), None);
    assert!(external_value(&pairs, "name").is_none(), "a deleted column is not read");

    // The column still counts toward the lifetime cap, as one deleted entry.
    assert_eq!(store.schema_at(si).total_columns(), 5);
    assert_eq!(store.schema_at(si).active_columns(), 4);
    // And the stored value itself was not removed from the record.
    assert!(store.records[0]
        .get_value(SchematicFieldType::Text, "name")
        .is_some());
}

#[test]
fn tag_creation_is_idempotent_up_to_case() {
    let mut store = store_with_products();
    let red = store.get_or_create_tag(1, "color".to_string(), "Red".to_string(), "#AFA".to_string());
    let red_again =
        store.get_or_create_tag(1, "color".to_string(), "red".to_string(), "#AFA".to_string());
    let red_shouting =
        store.get_or_create_tag(1, "color".to_string(), "RED".to_string(), "#AFA".to_string());
    assert_eq!(red, red_again);
    assert_eq!(red, red_shouting);
    assert_eq!(store.tags.len(), 1);
    assert_eq!(store.tags[0].name, "Red");

    // A different name, or the same name in another column, is a new tag.
    let blue =
        store.get_or_create_tag(1, "color".to_string(), "Blue".to_string(), "#AFA".to_string());
    assert_ne!(red, blue);
    let other =
        store.get_or_create_tag(1, "size".to_string(), "Red".to_string(), "#AFA".to_string());
    assert_ne!(red, other);
    assert_eq!(store.tags.len(), 3);
}

fn price_store() -> CmsStore {
    let mut store = store_with_products();
    store
        .add_column(ADDON, "products", "price", "Price".to_string(), SchematicFieldType::Number, None, noon())
        .expect("column should be added");
    for price in [10i64, 5, 20] {
        store.create_row(ADDON, "products", noon()).expect("row should be created");
        let public_id = store.records[store.records.len() - 1].public_id.clone();
        store
            .update_cell(
                ADDON,
                "products",
                &public_id,
                "price",
                Some(SimpleValue::Number(Number::Integer(price))),
                noon(),
            )
            .expect("the cell should store");
    }
    store
}

fn prices_of(rows: &[&cms_schema::records::SchemaDataModel]) -> Vec<i64> {
    rows.iter()
        .map(|r| match r.get_value(SchematicFieldType::Number, "price") {
            Some(cms_schema::values::SchematicFieldValue::Number(Number::Integer(p))) => *p,
            _ => panic!("every row holds an integer price"),
        })
        .collect()
}

#[test]
fn sorting_by_a_number_field_orders_rows() {
    let store = price_store();
    let sort = DefaultSort { field: "price".to_string(), order: SortOrder::Ascending };
    let rows = store
        .find_by(ADDON, "products", None, Some(&sort), 0, 100)
        .expect("the query should run");
    assert_eq!(prices_of(&rows), vec![5, 10, 20]);

    let sort = DefaultSort { field: "price".to_string(), order: SortOrder::Descending };
    let rows = store
        .find_by(ADDON, "products", None, Some(&sort), 0, 100)
        .expect("the query should run");
    assert_eq!(prices_of(&rows), vec![20, 10, 5]);
}

#[test]
fn between_filters_select_the_inclusive_range() {
    let store = price_store();
    let filters = vec![Filter {
        name: "price".to_string(),
        cond: FilterConditionType::Between,
        value: FilterValue::Range((Number::Integer(8), Number::Integer(20))),
    }];
    let rows = store
        .find_by(ADDON, "products", Some(&filters), None, 0, 100)
        .expect("the query should run");
    assert_eq!(prices_of(&rows), vec![10, 20]);
}

#[test]
fn textual_number_filters_are_coerced() {
    let store = price_store();
    let filters = vec![Filter {
        name: "price".to_string(),
        cond: FilterConditionType::Gte,
        value: FilterValue::Text("10".to_string()),
    }];
    let rows = store
        .find_by(ADDON, "products", Some(&filters), None, 0, 100)
        .expect("the query should run");
    assert_eq!(prices_of(&rows), vec![10, 20]);
}

#[test]
fn filters_on_unknown_fields_are_refused() {
    let store = price_store();
    let filters = vec![Filter {
        name: "ghost".to_string(),
        cond: FilterConditionType::Eq,
        value: FilterValue::Number(Number::Integer(1)),
    }];
    let e = store.find_by(ADDON, "products", Some(&filters), None, 0, 100);
    assert_eq!(e.unwrap_err(), SchemaError::FieldNotFound);
    let bad_between = vec![Filter {
        name: "price".to_string(),
        cond: FilterConditionType::Between,
        value: FilterValue::Number(Number::Integer(1)),
    }];
    let e = store.find_by(ADDON, "products", Some(&bad_between), None, 0, 100);
    assert_eq!(e.unwrap_err(), SchemaError::UnsupportedFilter);
}

#[test]
fn counts_match_unpaginated_queries() {
    let store = price_store();
    let filters = vec![Filter {
        name: "price".to_string(),
        cond: FilterConditionType::Between,
        value: FilterValue::Range((Number::Integer(8), Number::Integer(20))),
    }];
    let count = store.count_by(ADDON, "products", Some(&filters)).expect("count should run");
    let rows = store
        .find_by(ADDON, "products", Some(&filters), None, 0, usize::MAX)
        .expect("the query should run");
    assert_eq!(count, rows.len());

    let count_all = store.count_by(ADDON, "products", None).expect("count should run");
    let all = store
        .find_by(ADDON, "products", None, None, 0, usize::MAX)
        .expect("the query should run");
    assert_eq!(count_all, all.len());
    assert_eq!(count_all, 3);
}

#[test]
fn pagination_returns_the_second_record() {
    let store = price_store();
    let page = store
        .find_by(ADDON, "products", None, None, 1, 1)
        .expect("the query should run");
    assert_eq!(page.len(), 1);
    // In storage order the prices were 10, 5, 20: the second is 5.
    assert_eq!(prices_of(&page), vec![5]);
}

#[test]
fn soft_deleted_rows_leave_queries() {
    let mut store = price_store();
    let victim = store.records[0].public_id.clone();
    store.delete_row(&victim, noon()).expect("delete succeeds");
    let count = store.count_by(ADDON, "products", None).expect("count should run");
    assert_eq!(count, 2);
}

#[test]
fn duplicated_rows_share_values_under_a_fresh_identity() {
    let mut store = price_store();
    let src_pid = store.records[0].public_id.clone();
    store.duplicate_row(&src_pid, noon()).expect("duplicate succeeds");
    let copy = &store.records[store.records.len() - 1];
    assert_ne!(copy.public_id, src_pid);
    assert!(matches!(
        copy.get_value(SchematicFieldType::Number, "price"),
        Some(cms_schema::values::SchematicFieldValue::Number(Number::Integer(10)))
    ));
    let count = store.count_by(ADDON, "products", None).expect("count should run");
    assert_eq!(count, 4);
}

#[test]
fn clearing_a_never_written_partition_is_a_noop_error() {
    let mut store = store_with_products();
    store
        .add_column(ADDON, "products", "name", "Name".to_string(), SchematicFieldType::Text, None, noon())
        .expect("column should be added");
    store.create_row(ADDON, "products", noon()).expect("row should be created");
    let pid = store.records[0].public_id.clone();
    let e = store.update_cell(ADDON, "products", &pid, "name", None, noon());
    assert_eq!(e.unwrap_err(), SchemaError::NoOpUpdate);
    // Store a value, then clearing it works.
    store
        .update_cell(ADDON, "products", &pid, "name", Some(SimpleValue::Text("W".to_string())), noon())
        .expect("the cell should store");
    store
        .update_cell(ADDON, "products", &pid, "name", None, noon())
        .expect("clearing a written partition is fine");
    let si = store.find_schema(ADDON, "products").unwrap();
    let pairs = store.records[0].to_external_map(store.schema_at(si), None);
    assert!(external_value(&pairs, "name").is_none());
}

#[test]
fn requested_columns_limit_custom_fields_only() {
    let mut store = store_with_products();
    for col in ["name", "kind"] {
        store
            .add_column(ADDON, "products", col, col.to_string(), SchematicFieldType::Text, None, noon())
            .expect("column should be added");
    }
    store.create_row(ADDON, "products", noon()).expect("row should be created");
    let pid = store.records[0].public_id.clone();
    for col in ["name", "kind"] {
        store
            .update_cell(
                ADDON,
                "products",
                &pid,
                col,
                Some(SimpleValue::Text(col.to_uppercase())),
                noon(),
            )
            .expect("the cell should store");
    }
    let si = store.find_schema(ADDON, "products").unwrap();
    let wanted = vec!["kind".to_string()];
    let pairs = store.records[0].to_external_map(store.schema_at(si), Some(&wanted));
    assert!(external_value(&pairs, "kind").is_some());
    assert!(external_value(&pairs, "name").is_none());
    // The reserved keys bypass the allow-list.
    assert!(external_value(&pairs, "_id").is_some());
}

#[test]
fn import_commits_whole_batches() {
    let mut store = store_with_products();
    store
        .add_column(ADDON, "products", "name", "Name".to_string(), SchematicFieldType::Text, None, noon())
        .expect("column should be added");
    store
        .add_column(ADDON, "products", "price", "Price".to_string(), SchematicFieldType::Number, None, noon())
        .expect("column should be added");
    let data = vec![
        (
            "name".to_string(),
            vec![
                SimpleValue::Text("a".to_string()),
                SimpleValue::Text("b".to_string()),
            ],
        ),
        (
            "price".to_string(),
            vec![
                SimpleValue::Number(Number::Integer(1)),
                SimpleValue::Number(Number::Integer(2)),
            ],
        ),
    ];
    let ids = store.import_rows(ADDON, "products", data, noon()).expect("import succeeds");
    assert_eq!(ids.len(), 2);
    assert_eq!(store.records.len(), 2);
    let count = store.count_by(ADDON, "products", None).expect("count should run");
    assert_eq!(count, 2);
}

#[test]
fn a_failing_row_aborts_the_whole_import() {
    let mut store = store_with_products();
    store
        .add_column(ADDON, "products", "price", "Price".to_string(), SchematicFieldType::Number, None, noon())
        .expect("column should be added");
    // Row 3 of 5 carries a value of the wrong shape for a Number column.
    let data = vec![(
        "price".to_string(),
        vec![
            SimpleValue::Number(Number::Integer(1)),
            SimpleValue::Number(Number::Integer(2)),
            SimpleValue::Text("three".to_string()),
            SimpleValue::Number(Number::Integer(4)),
            SimpleValue::Number(Number::Integer(5)),
        ],
    )];
    let e = store.import_rows(ADDON, "products", data, noon());
    assert_eq!(e.unwrap_err(), SchemaError::TypeMismatch);
    // Nothing was persisted: not one of the five rows.
    assert_eq!(store.records.len(), 0);
    let count = store.count_by(ADDON, "products", None).expect("count should run");
    assert_eq!(count, 0);
}

#[test]
fn import_refuses_uneven_columns() {
    let mut store = store_with_products();
    store
        .add_column(ADDON, "products", "name", "Name".to_string(), SchematicFieldType::Text, None, noon())
        .expect("column should be added");
    store
        .add_column(ADDON, "products", "price", "Price".to_string(), SchematicFieldType::Number, None, noon())
        .expect("column should be added");
    let data = vec![
        ("name".to_string(), vec![SimpleValue::Text("a".to_string())]),
        (
            "price".to_string(),
            vec![
                SimpleValue::Number(Number::Integer(1)),
                SimpleValue::Number(Number::Integer(2)),
            ],
        ),
    ];
    let e = store.import_rows(ADDON, "products", data, noon());
    assert_eq!(e.unwrap_err(), SchemaError::ImportLengthMismatch);
    assert_eq!(store.records.len(), 0);
    let e = store.import_rows(ADDON, "products", Vec::new(), noon());
    assert_eq!(e.unwrap_err(), SchemaError::EmptyImport);
}

#[test]
fn imported_tag_names_resolve_to_shared_ids() {
    let mut store = store_with_products();
    store
        .add_column(ADDON, "products", "labels", "Labels".to_string(), SchematicFieldType::Tags, None, noon())
        .expect("column should be added");
    let data = vec![(
        "labels".to_string(),
        vec![
            SimpleValue::Text("Red, Blue".to_string()),
            SimpleValue::Text("red".to_string()),
            SimpleValue::Text("  ".to_string()),
        ],
    )];
    store.import_rows(ADDON, "products", data, noon()).expect("import succeeds");
    // Two distinct tags were created; the case variant was deduplicated.
    assert_eq!(store.tags.len(), 2);
    assert_eq!(store.tags[0].name, "Red");
    assert_eq!(store.tags[1].name, "Blue");
    let red_id = store.tags[0].id;
    let first = store.records[0].get_value(SchematicFieldType::Tags, "labels");
    match first {
        Some(cms_schema::values::SchematicFieldValue::Tags(ids)) => {
            assert_eq!(ids.len(), 2);
            assert_eq!(ids[0], red_id);
        }
        _ => panic!("the first row holds two tag ids"),
    }
    let second = store.records[1].get_value(SchematicFieldType::Tags, "labels");
    match second {
        Some(cms_schema::values::SchematicFieldValue::Tags(ids)) => {
            assert_eq!(ids, &vec![red_id]);
        }
        _ => panic!("the second row reuses the Red id"),
    }
    let third = store.records[2].get_value(SchematicFieldType::Tags, "labels");
    match third {
        Some(cms_schema::values::SchematicFieldValue::Tags(ids)) => assert!(ids.is_empty()),
        _ => panic!("a blank tags cell stores an empty id list"),
    }
}

#[test]
fn unknown_import_columns_are_dropped() {
    let mut store = store_with_products();
    store
        .add_column(ADDON, "products", "name", "Name".to_string(), SchematicFieldType::Text, None, noon())
        .expect("column should be added");
    let data = vec![
        ("name".to_string(), vec![SimpleValue::Text("a".to_string())]),
        ("ghost".to_string(), vec![SimpleValue::Boolean(true)]),
    ];
    store.import_rows(ADDON, "products", data, noon()).expect("import succeeds");
    assert_eq!(store.records.len(), 1);
    assert!(store.records[0].get_value(SchematicFieldType::Text, "name").is_some());
}

#[test]
fn queries_against_addon_hosted_schemas_are_bypassed() {
    let mut store = store_with_products();
    let si = store.find_schema(ADDON, "products").unwrap();
    store.schemas[si].store = "addon".to_string();
    let e = store.find_by(ADDON, "products", None, None, 0, 10);
    assert_eq!(e.unwrap_err(), SchemaError::AddonStored);
    let e = store.count_by(ADDON, "products", None);
    assert_eq!(e.unwrap_err(), SchemaError::AddonStored);
}

#[test]
fn substring_filters_match_text_fields() {
    let mut store = store_with_products();
    store
        .add_column(ADDON, "products", "name", "Name".to_string(), SchematicFieldType::Text, None, noon())
        .expect("column should be added");
    for name in ["Widget", "Gadget", "Gizmo"] {
        store.create_row(ADDON, "products", noon()).expect("row should be created");
        let pid = store.records[store.records.len() - 1].public_id.clone();
        store
            .update_cell(ADDON, "products", &pid, "name", Some(SimpleValue::Text(name.to_string())), noon())
            .expect("the cell should store");
    }
    let contains = vec![Filter {
        name: "name".to_string(),
        cond: FilterConditionType::Cont,
        value: FilterValue::Text("dget".to_string()),
    }];
    let rows = store
        .find_by(ADDON, "products", Some(&contains), None, 0, 100)
        .expect("the query should run");
    assert_eq!(rows.len(), 2);
    let not_contains = vec![Filter {
        name: "name".to_string(),
        cond: FilterConditionType::Dnc,
        value: FilterValue::Text("dget".to_string()),
    }];
    let rows = store
        .find_by(ADDON, "products", Some(&not_contains), None, 0, 100)
        .expect("the query should run");
    assert_eq!(rows.len(), 1);
}

#[test]
fn rows_without_the_sorted_value_come_last() {
    let mut store = price_store();
    // A fourth row that never gets a price.
    store.create_row(ADDON, "products", noon()).expect("row should be created");
    let sort = DefaultSort { field: "price".to_string(), order: SortOrder::Ascending };
    let rows = store
        .find_by(ADDON, "products", None, Some(&sort), 0, 100)
        .expect("the query should run");
    assert_eq!(rows.len(), 4);
    assert!(rows[3].get_value(SchematicFieldType::Number, "price").is_none());
    let sort = DefaultSort { field: "price".to_string(), order: SortOrder::Descending };
    let rows = store
        .find_by(ADDON, "products", None, Some(&sort), 0, 100)
        .expect("the query should run");
    assert!(rows[3].get_value(SchematicFieldType::Number, "price").is_none());
}

#[test]
fn reserved_keys_sort_by_record_metadata() {
    let store = price_store();
    let sort = DefaultSort { field: "_id".to_string(), order: SortOrder::Descending };
    let rows = store
        .find_by(ADDON, "products", None, Some(&sort), 0, 100)
        .expect("the query should run");
    assert_eq!(prices_of(&rows), vec![20, 5, 10]);
    // The owner key has no backing column and cannot order anything.
    let sort = DefaultSort { field: "_owner".to_string(), order: SortOrder::Ascending };
    let e = store.find_by(ADDON, "products", None, Some(&sort), 0, 100);
    assert_eq!(e.unwrap_err(), SchemaError::FieldNotFound);
}

#[test]
fn the_clock_yields_a_valid_calendar_moment() {
    let now = cms_schema::trusted::now_datetime();
    assert!((1..=12).contains(&now.date.month));
    assert!((1..=31).contains(&now.date.day));
    assert!(now.time.hour <= 23 && now.time.minute <= 59 && now.time.second <= 59);
}

#[test]
fn reserved_keys_filter_by_record_metadata() {
    let store = price_store();
    let pid = store.records[1].public_id.clone();
    let filters = vec![Filter {
        name: "_id".to_string(),
        cond: FilterConditionType::Eq,
        value: FilterValue::Text(pid),
    }];
    let rows = store
        .find_by(ADDON, "products", Some(&filters), None, 0, 100)
        .expect("the query should run");
    assert_eq!(prices_of(&rows), vec![5]);

    let filters = vec![Filter {
        name: "_createdAt".to_string(),
        cond: FilterConditionType::Eq,
        value: FilterValue::Text("2024-06-01T12:00:00".to_string()),
    }];
    let rows = store
        .find_by(ADDON, "products", Some(&filters), None, 0, 100)
        .expect("the query should run");
    assert_eq!(rows.len(), 3);
    let filters = vec![Filter {
        name: "_createdAt".to_string(),
        cond: FilterConditionType::Gt,
        value: FilterValue::Text("2024-06-01T12:00:00".to_string()),
    }];
    let rows = store
        .find_by(ADDON, "products", Some(&filters), None, 0, 100)
        .expect("the query should run");
    assert_eq!(rows.len(), 0);
}

#[test]
fn imported_url_cells_store_the_normalized_serialization() {
    let mut store = store_with_products();
    store
        .add_column(ADDON, "products", "site", "Site".to_string(), SchematicFieldType::URL, None, noon())
        .expect("column should be added");
    let data = vec![(
        "site".to_string(),
        vec![SimpleValue::Text("https://example.com".to_string())],
    )];
    store.import_rows(ADDON, "products", data, noon()).expect("import succeeds");
    match store.records[0].get_value(SchematicFieldType::URL, "site") {
        Some(cms_schema::values::SchematicFieldValue::Url(u)) => {
            assert_eq!(u, "https://example.com/");
        }
        _ => panic!("the URL cell stores the normalized serialization"),
    }
    // A refused URL aborts the batch whole.
    let bad = vec![(
        "site".to_string(),
        vec![SimpleValue::Text("no scheme".to_string())],
    )];
    let e = store.import_rows(ADDON, "products", bad, noon());
    assert_eq!(e.unwrap_err(), SchemaError::ParseFailure);
    assert_eq!(store.records.len(), 1);
}

#[test]
fn missing_targets_are_reported_as_not_found() {
    let mut store = store_with_products();
    let e = store.create_row(ADDON, "missing", noon());
    assert_eq!(e.unwrap_err(), SchemaError::SchemaNotFound);
    let e = store.update_cell(
        ADDON,
        "products",
        "no-such-row",
        "_id",
        Some(SimpleValue::Text("x".to_string())),
        noon(),
    );
    // The field lookup runs first: "_id" exists, the row does not.
    assert_eq!(e.unwrap_err(), SchemaError::RecordNotFound);
    let e = store.duplicate_row("no-such-row", noon());
    assert_eq!(e.unwrap_err(), SchemaError::RecordNotFound);
    let e = store.delete_row("no-such-row", noon());
    assert_eq!(e.unwrap_err(), SchemaError::RecordNotFound);
}

#[test]
fn error_messages_are_human_readable() {
    assert_eq!(SchemaError::TooManyColumns.message(), "Too many columns");
    assert_eq!(
        SchemaError::ColumnIdReused.message(),
        "Cannot create a new column from a previously used ID"
    );
}
