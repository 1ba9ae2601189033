use fits_ingest::table::{merge, CellValue, Column, Table};

fn col(name: &str, cells: Vec<CellValue>) -> Column {
    Column { name: name.to_string(), cells }
}

fn names_of(t: &Table) -> Vec<String> {
    t.cols.iter().map(|c| c.name.clone()).collect()
}

#[test]
fn merge_identical_schemas_concatenates() {
    let a = Table { cols: vec![col("x", vec![CellValue::Int(1)])] };
    let b = Table { cols: vec![col("x", vec![CellValue::Int(2)])] };
    let m = merge(&a, &b);
    assert_eq!(names_of(&m), vec!["x"]);
    assert_eq!(m.cols[0].cells, vec![CellValue::Int(1), CellValue::Int(2)]);
}

#[test]
fn merge_pads_missing_columns_with_nulls() {
    // the union invariant on concrete tables: the result's column set is
    // the union, and a row lacking a column carries an explicit null
    let a = Table { cols: vec![col("x", vec![CellValue::Int(1)])] };
    let b = Table { cols: vec![col("y", vec![CellValue::Int(2)])] };
    let m = merge(&a, &b);
    assert_eq!(names_of(&m), vec!["x", "y"]);
    assert_eq!(m.height(), 2);
    assert_eq!(m.cols[0].cells, vec![CellValue::Int(1), CellValue::Null]);
    assert_eq!(m.cols[1].cells, vec![CellValue::Null, CellValue::Int(2)]);
    assert!(m.cols[0].cells[1].is_null());
    assert!(!m.cols[0].cells[0].is_null());
}

#[test]
fn merge_aligns_by_name_not_position() {
    let a = Table {
        cols: vec![
            col("x", vec![CellValue::Int(1)]),
            col("y", vec![CellValue::Int(2)]),
        ],
    };
    let b = Table {
        cols: vec![
            col("y", vec![CellValue::Int(20)]),
            col("x", vec![CellValue::Int(10)]),
        ],
    };
    let m = merge(&a, &b);
    assert_eq!(names_of(&m), vec!["x", "y"]);
    assert_eq!(m.cols[0].cells, vec![CellValue::Int(1), CellValue::Int(10)]);
    assert_eq!(m.cols[1].cells, vec![CellValue::Int(2), CellValue::Int(20)]);
}

#[test]
fn merge_union_keeps_first_seen_column_order() {
    let a = Table {
        cols: vec![
            col("x", vec![CellValue::Int(1)]),
            col("y", vec![CellValue::Int(2)]),
        ],
    };
    let b = Table {
        cols: vec![
            col("z", vec![CellValue::Int(30)]),
            col("y", vec![CellValue::Int(20)]),
        ],
    };
    let m = merge(&a, &b);
    assert_eq!(names_of(&m), vec!["x", "y", "z"]);
    assert_eq!(m.cols[0].cells, vec![CellValue::Int(1), CellValue::Null]);
    assert_eq!(m.cols[1].cells, vec![CellValue::Int(2), CellValue::Int(20)]);
    assert_eq!(m.cols[2].cells, vec![CellValue::Null, CellValue::Int(30)]);
}

#[test]
fn merge_is_associative_on_differing_schemas() {
    // either association of three single-row tables with differing
    // column sets yields the same table, order and content included
    let a = Table { cols: vec![col("x", vec![CellValue::Int(1)])] };
    let b = Table {
        cols: vec![
            col("y", vec![CellValue::Float(2.5f64.to_bits())]),
            col("s", vec![CellValue::Str("b".to_string())]),
        ],
    };
    let c = Table {
        cols: vec![
            col("x", vec![CellValue::Int(3)]),
            col("z", vec![CellValue::IntList(vec![7, 8])]),
        ],
    };
    let left = merge(&merge(&a, &b), &c);
    let right = merge(&a, &merge(&b, &c));
    assert_eq!(left, right);
    assert_eq!(names_of(&left), vec!["x", "y", "s", "z"]);
    assert_eq!(left.height(), 3);
}

#[test]
fn merge_with_empty_table_is_identity_on_content() {
    let a = Table { cols: vec![col("x", vec![CellValue::Int(1)])] };
    let e = Table::empty();
    let m = merge(&a, &e);
    assert_eq!(names_of(&m), vec!["x"]);
    assert_eq!(m.cols[0].cells, vec![CellValue::Int(1)]);
    let m2 = merge(&e, &a);
    assert_eq!(names_of(&m2), vec!["x"]);
    assert_eq!(m2.cols[0].cells, vec![CellValue::Int(1)]);
}

#[test]
fn find_col_and_height() {
    let t = Table {
        cols: vec![
            col("x", vec![CellValue::Int(1), CellValue::Int(2)]),
            col("y", vec![CellValue::Null, CellValue::Int(4)]),
        ],
    };
    assert_eq!(t.height(), 2);
    assert_eq!(t.width(), 2);
    assert_eq!(t.find_col(&"y".to_string()), Some(1));
    assert_eq!(t.find_col(&"nope".to_string()), None);
}
