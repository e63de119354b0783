use bustubx::plan::{LogicalValuesOperator, PhysicalSeqScan};
use bustubx::{BustubxError, Column, DataType, ScalarValue, Schema, TableReference};

fn sample() -> Schema {
    let mut a = Column::new("id".to_string(), DataType::Int32, false);
    a.relation = Some(TableReference::bare("t1".to_string()));
    let b = Column::new("flag".to_string(), DataType::Boolean, true);
    let mut c = Column::new("id".to_string(), DataType::Int64, false);
    c.relation = Some(TableReference::bare("t2".to_string()));
    Schema::new(vec![a, b, c])
}

#[test]
fn schema_to_string() {
    assert_eq!(sample().to_string(), "(id:Int32, flag:Boolean, id:Int64)");
    assert_eq!(Schema::empty().to_string(), "()");
}

#[test]
fn schema_fixed_len_and_count() {
    let s = sample();
    assert_eq!(s.fixed_len(), 4 + 1 + 8);
    assert_eq!(s.column_count(), 3);
    assert_eq!(Schema::empty().fixed_len(), 0);
}

#[test]
fn schema_index_of() {
    let s = sample();
    assert_eq!(s.index_of(None, "id"), Ok(0));
    assert_eq!(s.index_of(Some(&TableReference::bare("t2".to_string())), "id"), Ok(2));
    assert_eq!(s.index_of(Some(&TableReference::bare("t2".to_string())), "flag"), Err(BustubxError::ColumnNotFound("flag".to_string())));
    assert_eq!(s.index_of(None, "nope"), Err(BustubxError::ColumnNotFound("nope".to_string())));
    assert_eq!(s.column_with_name(None, "flag").unwrap().data_type, DataType::Boolean);
}

#[test]
fn schema_project_and_merge() {
    let s = sample();
    let p = s.project(&[2, 0]).unwrap();
    assert_eq!(p.columns[0].data_type, DataType::Int64);
    assert_eq!(p.columns[1].data_type, DataType::Int32);
    assert_eq!(s.project(&[0, 3]), Err(BustubxError::ColumnIndexOutOfRange(3)));
    assert_eq!(s.column_with_index(5), Err(BustubxError::ColumnIndexOutOfRange(5)));
    let m = Schema::try_merge(vec![s.clone(), Schema::empty(), p]).unwrap();
    assert_eq!(m.column_count(), 5);
    assert_eq!(m.columns[3].data_type, DataType::Int64);
}

#[test]
fn qualified_names_compare_resolved() {
    let full = TableReference { catalog: Some("c".to_string()), schema: Some("s".to_string()), table: "t".to_string() };
    let bare = TableReference::bare("t".to_string());
    let other = TableReference { catalog: None, schema: Some("x".to_string()), table: "t".to_string() };
    assert!(full.resolved_eq(&bare));
    assert!(!full.resolved_eq(&other));
}

#[test]
fn plan_nodes_keep_their_parts() {
    let cols = vec![Column::new("0".to_string(), DataType::Int32, false)];
    let rows = vec![vec![ScalarValue::Int32(Some(1))], vec![ScalarValue::Int32(Some(2))]];
    let values = LogicalValuesOperator::new(cols.clone(), rows.clone());
    assert_eq!(values.columns, cols);
    assert_eq!(values.tuples, rows);
    let scan = PhysicalSeqScan::new(TableReference::bare("t1".to_string()), sample());
    assert_eq!(scan.table.table, "t1");
    assert_eq!(scan.table_schema.column_count(), 3);
}
