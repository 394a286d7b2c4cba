use abe_bench::matrix::Table;

fn records_of(t: &Table) -> Vec<Vec<String>> {
    t.as_records().clone()
}

fn row(cells: &[&str]) -> Vec<String> {
    cells.iter().map(|s| s.to_string()).collect()
}

#[test]
fn fresh_round_trip_and_overwrite() {
    let mut t = Table::new();
    t.update("5", "single 1", "128");
    assert_eq!(t.get("5", "single 1"), Some("128".to_string()));
    let rows = t.row_count();
    let cols = t.header_count();
    t.update("5", "single 1", "256");
    assert_eq!(t.get("5", "single 1"), Some("256".to_string()));
    assert_eq!(t.row_count(), rows);
    assert_eq!(t.header_count(), cols);
}

#[test]
fn two_columns_one_row_scenario() {
    let mut t = Table::new();
    t.update("5", "single 1", "128");
    t.update("5", "single 2", "256");
    assert_eq!(
        records_of(&t),
        vec![row(&["attributes", "single 1", "single 2"]), row(&["5", "128", "256"])]
    );
}

#[test]
fn column_append_pads_existing_rows() {
    let mut t = Table::new();
    t.update("r1", "c1", "a");
    t.update("r2", "c1", "b");
    t.update("r1", "c2", "x");
    assert_eq!(
        records_of(&t),
        vec![
            row(&["attributes", "c1", "c2"]),
            row(&["r1", "a", "x"]),
            row(&["r2", "b", ""]),
        ]
    );
}

#[test]
fn row_append_sizes_to_header() {
    let mut t = Table::new();
    t.update("r1", "c1", "a");
    t.update("r1", "c2", "b");
    t.update("r2", "c1", "z");
    assert_eq!(
        records_of(&t),
        vec![
            row(&["attributes", "c1", "c2"]),
            row(&["r1", "a", "b"]),
            row(&["r2", "z", ""]),
        ]
    );
}

#[test]
fn update_is_idempotent() {
    let mut once = Table::new();
    once.update("r1", "c1", "a");
    once.update("r2", "c2", "b");
    once.update("r2", "c2", "b");
    let mut twice = Table::new();
    twice.update("r1", "c1", "a");
    twice.update("r2", "c2", "b");
    assert_eq!(records_of(&once), records_of(&twice));
}

#[test]
fn get_absent_column_or_row() {
    let mut t = Table::new();
    t.update("r1", "c1", "a");
    assert_eq!(t.get("r1", "missing"), None);
    assert_eq!(t.get("missing", "c1"), None);
    assert_eq!(t.get("r1", "attributes"), Some("r1".to_string()));
}

#[test]
fn sparse_rows_read_as_empty() {
    // a short row read back pads with empty cells instead of failing
    let records = vec![row(&["attributes", "c1", "c2"]), row(&["r1", "a"])];
    let t = Table::from_records(records);
    assert_eq!(t.get("r1", "c2"), Some(String::new()));
    assert_eq!(t.get("r1", "c1"), Some("a".to_string()));
}

#[test]
fn sparse_row_padded_on_write() {
    let records = vec![row(&["attributes", "c1", "c2"]), row(&["r1"])];
    let mut t = Table::from_records(records);
    t.update("r1", "c2", "v");
    assert_eq!(records_of(&t), vec![row(&["attributes", "c1", "c2"]), row(&["r1", "", "v"])]);
}

#[test]
fn empty_table_reads_nothing() {
    let t = Table::new();
    assert_eq!(t.get("r", "c"), None);
    assert_eq!(t.row_count(), 0);
    assert_eq!(t.header_count(), 0);
}
