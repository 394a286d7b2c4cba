use abe_bench::store::apply_update;
use abe_bench::store::load_table;
use abe_bench::store::StoreError;

#[test]
fn fresh_image_round_trip() {
    let bytes = apply_update(&None, "5", "single 1", "128").unwrap();
    let table = load_table(&bytes).unwrap();
    assert_eq!(table.get("5", "single 1"), Some("128".to_string()));
    assert_eq!(table.row_count(), 2);
    assert_eq!(table.header_count(), 2);
}

#[test]
fn fresh_image_exact_text() {
    let bytes = apply_update(&None, "5", "single 1", "128").unwrap();
    let text = String::from_utf8(bytes).unwrap();
    assert_eq!(text, "attributes,single 1\n5,128\n");
}

#[test]
fn updates_accumulate_across_images() {
    let first = apply_update(&None, "5", "single 1", "128").unwrap();
    let second = apply_update(&Some(first), "5", "single 2", "256").unwrap();
    let third = apply_update(&Some(second), "25", "single 1", "999").unwrap();
    let table = load_table(&third).unwrap();
    assert_eq!(table.get("5", "single 1"), Some("128".to_string()));
    assert_eq!(table.get("5", "single 2"), Some("256".to_string()));
    assert_eq!(table.get("25", "single 1"), Some("999".to_string()));
    assert_eq!(table.get("25", "single 2"), Some(String::new()));
    assert_eq!(table.row_count(), 3);
    assert_eq!(table.header_count(), 3);
}

#[test]
fn overwrite_keeps_shape() {
    let first = apply_update(&None, "5", "single 1", "128").unwrap();
    let second = apply_update(&Some(first.clone()), "5", "single 1", "256").unwrap();
    let t1 = load_table(&first).unwrap();
    let t2 = load_table(&second).unwrap();
    assert_eq!(t1.row_count(), t2.row_count());
    assert_eq!(t1.header_count(), t2.header_count());
    assert_eq!(t2.get("5", "single 1"), Some("256".to_string()));
}

#[test]
fn same_update_twice_same_image() {
    let first = apply_update(&None, "r", "c", "v").unwrap();
    let second = apply_update(&Some(first.clone()), "r", "c", "v").unwrap();
    assert_eq!(first, second);
}

#[test]
fn unparsable_image_reports_parse_error() {
    // bytes that are not text at all fail to parse, and only that way
    let image = vec![0xffu8, 0xfe, 0x00, 0x2c, 0xff];
    assert!(matches!(load_table(&image), Err(StoreError::Parse(_))));
    assert!(matches!(
        apply_update(&Some(image), "r", "c", "v"),
        Err(StoreError::Parse(_))
    ));
}

#[test]
fn tolerates_ragged_rows() {
    // rows shorter than the header parse and update without error
    let image = b"attributes,c1,c2\nr1\nr2,a\n".to_vec();
    let updated = apply_update(&Some(image), "r1", "c2", "v").unwrap();
    let table = load_table(&updated).unwrap();
    assert_eq!(table.get("r1", "c2"), Some("v".to_string()));
    assert_eq!(table.get("r2", "c1"), Some("a".to_string()));
}
