use vstd::prelude::*;

use crate::catalog::{Column, Schema, TableReference};
use crate::tuple::ScalarValue;

verus! {

/// Rows given literally, as in `VALUES (...), (...)`.
#[derive(Debug, Clone, PartialEq, Eq)]
pub struct LogicalValuesOperator {
    pub columns: Vec<Column>,
    pub tuples: Vec<Vec<ScalarValue>>,
}

impl LogicalValuesOperator {
    pub fn new(columns: Vec<Column>, tuples: Vec<Vec<ScalarValue>>) -> (r: Self)
        ensures
            r.columns@ == columns@,
            r.tuples@ == tuples@,
    {
        LogicalValuesOperator { columns, tuples }
    }
}

/// A full scan of one table, producing rows of its schema.
#[derive(Debug)]
pub struct PhysicalSeqScan {
    pub table: TableReference,
    pub table_schema: Schema,
}

impl PhysicalSeqScan {
    pub fn new(table: TableReference, table_schema: Schema) -> (r: Self)
        ensures
            r.table == table,
            r.table_schema == table_schema,
    {
        PhysicalSeqScan { table, table_schema }
    }
}

} // verus!
