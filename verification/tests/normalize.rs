use otap_pipeline::normalize::{
    apply, delta_decode, delta_encode, normalize, sort_by_parent_id, sort_rows_by,
    NormalizationRules, NormalizeError, Transform,
};
use otap_pipeline::payload::PayloadType;
use otap_pipeline::table::{Cell, DataType, Field, Schema, Table};

fn ints(values: &[i128]) -> Vec<Cell> {
    values.iter().map(|v| Cell::Int(*v)).collect()
}

fn texts(values: &[&str]) -> Vec<Cell> {
    values.iter().map(|v| Cell::Text(v.to_string())).collect()
}

fn int_column(table: &Table, name: &str) -> Vec<i128> {
    table
        .column_by_name(name)
        .unwrap()
        .iter()
        .map(|c| match c {
            Cell::Int(v) => *v,
            other => panic!("not an integer: {:?}", other),
        })
        .collect()
}

fn text_column(table: &Table, name: &str) -> Vec<String> {
    table
        .column_by_name(name)
        .unwrap()
        .iter()
        .map(|c| match c {
            Cell::Text(v) => v.clone(),
            other => panic!("not a text: {:?}", other),
        })
        .collect()
}

fn logs(ids: &[i128]) -> Table {
    let schema = Schema::new(vec![
        Field::new("id", DataType::UInt16, true),
        Field::new("body", DataType::Utf8, false),
    ]);
    let bodies: Vec<Cell> = (0..ids.len()).map(|i| Cell::Text(format!("line {}", i))).collect();
    Table::try_new(schema, vec![ints(ids), bodies]).unwrap()
}

fn attrs(parents: &[i128], keys: &[&str]) -> Table {
    let schema = Schema::new(vec![
        Field::new("parent_id", DataType::UInt16, false),
        Field::new("key", DataType::Utf8, false),
    ]);
    Table::try_new(schema, vec![ints(parents), texts(keys)]).unwrap()
}

#[test]
fn delta_decode_restores_absolute_ids() {
    let out = delta_decode(logs(&[10, 1, 1]), "id").unwrap();
    assert_eq!(int_column(&out, "id"), vec![10, 11, 12]);
    assert_eq!(text_column(&out, "body"), vec!["line 0", "line 1", "line 2"]);
    assert_eq!(out.num_rows(), 3);
}

#[test]
fn delta_decode_of_empty_table_is_empty() {
    let out = delta_decode(logs(&[]), "id").unwrap();
    assert_eq!(out.num_rows(), 0);
    assert_eq!(int_column(&out, "id"), Vec::<i128>::new());
}

#[test]
fn delta_decode_twice_is_not_the_identity() {
    let once = delta_decode(logs(&[10, 1, 1]), "id").unwrap();
    let twice = delta_decode(once, "id").unwrap();
    assert_eq!(int_column(&twice, "id"), vec![10, 21, 33]);
}

#[test]
fn delta_decode_rejects_overflow_of_an_eight_bit_column() {
    let schema = Schema::new(vec![Field::new("id", DataType::UInt8, false)]);
    let table = Table::try_new(schema, vec![ints(&[200, 50, 10])]).unwrap();
    assert_eq!(delta_decode(table, "id").err(), Some(NormalizeError::Overflow));
}

#[test]
fn delta_decode_accepts_the_greatest_value() {
    let schema = Schema::new(vec![Field::new("id", DataType::UInt8, false)]);
    let table = Table::try_new(schema, vec![ints(&[200, 55])]).unwrap();
    let out = delta_decode(table, "id").unwrap();
    assert_eq!(int_column(&out, "id"), vec![200, 255]);
}

#[test]
fn delta_decode_rejects_underflow_of_a_signed_column() {
    let schema = Schema::new(vec![Field::new("id", DataType::Int8, false)]);
    let table = Table::try_new(schema, vec![ints(&[-100, -29])]).unwrap();
    assert_eq!(delta_decode(table, "id").err(), Some(NormalizeError::Overflow));
    let schema = Schema::new(vec![Field::new("id", DataType::Int8, false)]);
    let table = Table::try_new(schema, vec![ints(&[-100, -28, 127])]).unwrap();
    assert_eq!(int_column(&delta_decode(table, "id").unwrap(), "id"), vec![-100, -128, -1]);
}

#[test]
fn delta_decode_rejects_a_null() {
    let schema = Schema::new(vec![Field::new("id", DataType::UInt16, true)]);
    let table = Table::try_new(schema, vec![vec![Cell::Int(1), Cell::Null, Cell::Int(2)]]).unwrap();
    assert_eq!(delta_decode(table, "id").err(), Some(NormalizeError::NullIdentifier));
}

#[test]
fn delta_decode_reports_the_first_fault() {
    let schema = Schema::new(vec![Field::new("id", DataType::UInt8, true)]);
    let table = Table::try_new(schema, vec![vec![Cell::Int(255), Cell::Int(1), Cell::Null]]).unwrap();
    assert_eq!(delta_decode(table, "id").err(), Some(NormalizeError::Overflow));
    let schema = Schema::new(vec![Field::new("id", DataType::UInt8, true)]);
    let table = Table::try_new(schema, vec![vec![Cell::Null, Cell::Int(255), Cell::Int(1)]]).unwrap();
    assert_eq!(delta_decode(table, "id").err(), Some(NormalizeError::NullIdentifier));
}

#[test]
fn delta_decode_needs_the_column() {
    assert_eq!(delta_decode(attrs(&[1], &["a"]), "id").err(), Some(NormalizeError::MissingColumn));
}

#[test]
fn delta_decode_needs_an_integer_column() {
    assert_eq!(delta_decode(logs(&[1]), "body").err(), Some(NormalizeError::UnsupportedType));
}

#[test]
fn delta_encode_then_decode_is_the_identity() {
    let ids = [3, 3, 4, 9, 9, 200, 65535];
    let encoded = delta_encode(logs(&ids), "id").unwrap();
    assert_eq!(int_column(&encoded, "id"), vec![3, 0, 1, 5, 0, 191, 65335]);
    let decoded = delta_decode(encoded, "id").unwrap();
    assert_eq!(int_column(&decoded, "id"), ids.to_vec());
}

#[test]
fn delta_encode_rejects_a_difference_out_of_range() {
    let schema = Schema::new(vec![Field::new("id", DataType::Int8, false)]);
    let table = Table::try_new(schema, vec![ints(&[-100, 100])]).unwrap();
    assert_eq!(delta_encode(table, "id").err(), Some(NormalizeError::Overflow));
    assert_eq!(delta_encode(logs(&[5, 4]), "id").err(), Some(NormalizeError::Overflow));
}

#[test]
fn sort_by_parent_id_is_stable() {
    let out = sort_by_parent_id(attrs(&[12, 10, 10, 11], &["a", "b", "c", "d"])).unwrap();
    assert_eq!(int_column(&out, "parent_id"), vec![10, 10, 11, 12]);
    assert_eq!(text_column(&out, "key"), vec!["b", "c", "d", "a"]);
}

#[test]
fn sort_by_parent_id_keeps_every_row() {
    let parents = [5, 1, 4, 1, 5, 9, 2, 6, 5, 3, 5];
    let keys = ["a", "b", "c", "d", "e", "f", "g", "h", "i", "j", "k"];
    let out = sort_by_parent_id(attrs(&parents, &keys)).unwrap();
    assert_eq!(out.num_rows(), 11);
    assert_eq!(out.num_columns(), 2);
    assert_eq!(int_column(&out, "parent_id"), vec![1, 1, 2, 3, 4, 5, 5, 5, 5, 6, 9]);
    assert_eq!(text_column(&out, "key"), vec!["b", "d", "g", "j", "c", "a", "e", "i", "k", "h", "f"]);
}

#[test]
fn sort_of_a_sorted_table_changes_nothing() {
    let once = sort_by_parent_id(attrs(&[2, 1, 2, 1], &["a", "b", "c", "d"])).unwrap();
    let twice = sort_by_parent_id(once.clone()).unwrap();
    assert_eq!(int_column(&twice, "parent_id"), int_column(&once, "parent_id"));
    assert_eq!(text_column(&twice, "key"), text_column(&once, "key"));
}

#[test]
fn sort_by_parent_id_needs_the_column() {
    assert_eq!(sort_by_parent_id(logs(&[1, 2])).err(), Some(NormalizeError::MissingColumn));
}

#[test]
fn sort_rejects_nulls_and_other_types() {
    let schema = Schema::new(vec![Field::new("parent_id", DataType::UInt32, true)]);
    let table = Table::try_new(schema, vec![vec![Cell::Int(1), Cell::Null]]).unwrap();
    assert_eq!(sort_by_parent_id(table).err(), Some(NormalizeError::NullIdentifier));
    assert_eq!(sort_rows_by(logs(&[1, 2]), "body").err(), Some(NormalizeError::UnsupportedType));
}

#[test]
fn default_rules_decode_primary_tables_and_sort_side_tables() {
    let rules = NormalizationRules::new();
    for kind in [
        PayloadType::Logs,
        PayloadType::Spans,
        PayloadType::UnivariateMetrics,
        PayloadType::MultivariateMetrics,
    ] {
        let steps = rules.get(kind);
        assert_eq!(steps.len(), 1);
        assert!(matches!(&steps[0], Transform::DeltaDecode(name) if name == "id"));
    }
    for kind in [
        PayloadType::LogAttrs,
        PayloadType::ResourceAttrs,
        PayloadType::ScopeAttrs,
        PayloadType::SpanAttrs,
        PayloadType::SpanEvents,
        PayloadType::NumberDataPoints,
    ] {
        let steps = rules.get(kind);
        assert_eq!(steps.len(), 1);
        assert!(matches!(steps[0], Transform::SortByParentId));
    }
    assert_eq!(rules.get(PayloadType::Unknown).len(), 0);

    let out = normalize(logs(&[10, 1, 1]), PayloadType::Logs, &rules).unwrap();
    assert_eq!(int_column(&out, "id"), vec![10, 11, 12]);
    let out =
        normalize(attrs(&[12, 10, 10, 11], &["a", "b", "c", "d"]), PayloadType::LogAttrs, &rules)
            .unwrap();
    assert_eq!(int_column(&out, "parent_id"), vec![10, 10, 11, 12]);
    assert_eq!(text_column(&out, "key"), vec!["b", "c", "d", "a"]);
}

#[test]
fn a_kind_without_transforms_passes_through() {
    let mut rules = NormalizationRules::new();
    let out = normalize(logs(&[10, 1, 1]), PayloadType::Unknown, &rules).unwrap();
    assert_eq!(int_column(&out, "id"), vec![10, 1, 1]);
    rules.set(PayloadType::Logs, vec![]);
    let out = normalize(logs(&[10, 1, 1]), PayloadType::Logs, &rules).unwrap();
    assert_eq!(int_column(&out, "id"), vec![10, 1, 1]);
    // The other kinds keep their transforms.
    assert_eq!(rules.get(PayloadType::Spans).len(), 1);
    assert_eq!(rules.get(PayloadType::LogAttrs).len(), 1);
}

#[test]
fn rules_can_be_replaced_and_apply_in_order() {
    let mut rules = NormalizationRules::new();
    rules.set(
        PayloadType::LogAttrs,
        vec![Transform::DeltaDecode("parent_id".to_string()), Transform::SortByParentId],
    );
    let table = attrs(&[5, 1, 0, 3], &["a", "b", "c", "d"]);
    let out = normalize(table, PayloadType::LogAttrs, &rules).unwrap();
    // Decoded: 5, 6, 6, 9; then sorted, which keeps the order.
    assert_eq!(int_column(&out, "parent_id"), vec![5, 6, 6, 9]);
    // The later rule is the one that counts.
    rules.set(PayloadType::LogAttrs, vec![Transform::SortByParentId]);
    let out = normalize(attrs(&[5, 1, 0, 3], &["a", "b", "c", "d"]), PayloadType::LogAttrs, &rules)
        .unwrap();
    assert_eq!(int_column(&out, "parent_id"), vec![0, 1, 3, 5]);
    // The first failing step ends the work.
    rules.set(
        PayloadType::Logs,
        vec![Transform::SortByParentId, Transform::DeltaDecode("id".to_string())],
    );
    assert_eq!(
        normalize(logs(&[1, 2]), PayloadType::Logs, &rules).err(),
        Some(NormalizeError::MissingColumn)
    );
    let out = apply(logs(&[1, 2]), &Transform::DeltaDecode("id".to_string())).unwrap();
    assert_eq!(int_column(&out, "id"), vec![1, 3]);
}
