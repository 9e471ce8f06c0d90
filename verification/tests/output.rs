use dbtp::json::Json;
use dbtp::output::{
    column_shown, field_rows, is_scalar, table_headers, table_rows, table_shape, truncate, value_to_cell, Cell,
    OutputFormat, TableShape,
};

fn obj(pairs: Vec<(&str, Json)>) -> Json {
    Json::Object(pairs.into_iter().map(|(k, v)| (k.to_string(), v)).collect())
}

fn s(t: &str) -> Json {
    Json::String(t.to_string())
}

fn text(t: &str) -> Cell {
    Cell::Text(t.to_string())
}

#[test]
fn format_names_are_read_without_case() {
    assert_eq!(OutputFormat::parse("json"), OutputFormat::Json);
    assert_eq!(OutputFormat::parse("JSON"), OutputFormat::Json);
    assert_eq!(OutputFormat::parse("Yaml"), OutputFormat::Yaml);
    assert_eq!(OutputFormat::parse("yml"), OutputFormat::Yaml);
    assert_eq!(OutputFormat::parse("compact"), OutputFormat::Compact);
    assert_eq!(OutputFormat::parse("table"), OutputFormat::Table);
    assert_eq!(OutputFormat::parse("anything"), OutputFormat::Table);
}

#[test]
fn values_become_cells() {
    assert_eq!(value_to_cell(&Json::Null), text("—"));
    assert_eq!(value_to_cell(&s("x")), text("x"));
    assert_eq!(value_to_cell(&Json::Bool(true)), text("true"));
    assert_eq!(value_to_cell(&Json::from_u64(42)), text("42"));
    assert_eq!(value_to_cell(&Json::from_i64(-7)), text("-7"));
    assert_eq!(value_to_cell(&obj(vec![])), text("{...}"));
    let short = Json::Array(vec![Json::from_u64(1), Json::from_u64(2)]);
    assert_eq!(value_to_cell(&short), Cell::Items(vec![Json::from_u64(1), Json::from_u64(2)]));
    let long = Json::Array(vec![Json::Null, Json::Null, Json::Null, Json::Null]);
    assert_eq!(value_to_cell(&long), text("[4 items]"));
}

#[test]
fn long_cells_are_cut() {
    let fifty = "a".repeat(50);
    assert_eq!(truncate(&fifty), fifty);
    let long = "b".repeat(51);
    let cut = truncate(&long);
    assert_eq!(cut.chars().count(), 50);
    assert_eq!(cut, format!("{}…", "b".repeat(49)));
}

#[test]
fn scalars_are_recognised() {
    assert!(is_scalar(&Json::Null));
    assert!(is_scalar(&s("x")));
    assert!(!is_scalar(&Json::Array(vec![])));
    assert!(!is_scalar(&obj(vec![])));
}

#[test]
fn columns_come_from_the_first_item_and_need_a_scalar_early() {
    let items = vec![
        obj(vec![("id", Json::from_u64(1)), ("name", s("a")), ("nested", obj(vec![])), ("tags", Json::Null)]),
        obj(vec![("id", Json::from_u64(2)), ("name", s("b")), ("nested", obj(vec![]))]),
    ];
    assert!(column_shown(&items, "id"));
    assert!(!column_shown(&items, "nested"));
    assert_eq!(table_headers(&items), vec!["id", "name", "tags"]);
    match table_shape(&Json::Array(items)) {
        TableShape::Rows(h) => assert_eq!(h, vec!["id", "name", "tags"]),
        other => panic!("unexpected {other:?}"),
    }
}

#[test]
fn at_most_twelve_columns() {
    let keys: Vec<String> = (0..15).map(|i| format!("k{i:02}")).collect();
    let item = Json::Object(keys.iter().map(|k| (k.clone(), Json::from_u64(1))).collect());
    let h = table_headers(&vec![item]);
    assert_eq!(h.len(), 12);
    assert_eq!(h[0], "k00");
    assert_eq!(h[11], "k11");
}

#[test]
fn other_values_are_not_row_tables() {
    assert_eq!(table_shape(&Json::Array(vec![])), TableShape::Plain);
    assert_eq!(table_shape(&Json::Array(vec![Json::from_u64(1)])), TableShape::Plain);
    assert_eq!(table_shape(&Json::Array(vec![obj(vec![("x", obj(vec![]))])])), TableShape::Plain);
    assert_eq!(table_shape(&obj(vec![("a", Json::Null)])), TableShape::Fields);
    assert_eq!(table_shape(&s("x")), TableShape::Plain);
}

#[test]
fn rows_hold_the_cells_of_each_column() {
    let items = vec![obj(vec![("id", Json::from_u64(1))]), obj(vec![("name", s("b"))])];
    let headers = vec!["id".to_string(), "name".to_string()];
    let rows = table_rows(&items, &headers);
    assert_eq!(rows, vec![vec![text("1"), text("—")], vec![text("—"), text("b")]]);
}

#[test]
fn object_tables_list_fields() {
    let v = obj(vec![("a", Json::from_u64(1)), ("b", Json::Bool(false))]);
    assert_eq!(field_rows(&v), vec![("a".to_string(), text("1")), ("b".to_string(), text("false"))]);
}

#[test]
fn lower_cased_format_names_select_formats() {
    assert_eq!(OutputFormat::from_lowercase("yml"), OutputFormat::Yaml);
    assert_eq!(OutputFormat::from_lowercase("compact"), OutputFormat::Compact);
    assert_eq!(OutputFormat::from_lowercase("JSON"), OutputFormat::Table);
    assert_eq!(OutputFormat::from_lowercase("json"), OutputFormat::Json);
}
