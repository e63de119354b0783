use vstd::prelude::*;
use vstd::string::StringExecFns;

use crate::error::{BustubxError, BustubxResult};

verus! {

/// The scalar types a column can hold.
#[derive(Debug, Clone, Copy, PartialEq, Eq, Structural)]
pub enum DataType {
    Boolean,
    Int8,
    Int16,
    Int32,
    Int64,
}

impl DataType {
    /// Width in bytes of a value of this type.
    pub open spec fn size_spec(self) -> nat {
        match self {
            DataType::Boolean => 1,
            DataType::Int8 => 1,
            DataType::Int16 => 2,
            DataType::Int32 => 4,
            DataType::Int64 => 8,
        }
    }

    pub fn type_size(&self) -> (r: usize)
        ensures
            r == self.size_spec(),
    {
        match self {
            DataType::Boolean => 1,
            DataType::Int8 => 1,
            DataType::Int16 => 2,
            DataType::Int32 => 4,
            DataType::Int64 => 8,
        }
    }
}

} // verus!

verus! {

/// A possibly qualified table name: `catalog.schema.table`, `schema.table` or `table`.
#[derive(Debug, PartialEq, Eq)]
pub struct TableReference {
    pub catalog: Option<String>,
    pub schema: Option<String>,
    pub table: String,
}

/// One column of a schema.
#[derive(Debug, PartialEq, Eq)]
pub struct Column {
    pub relation: Option<TableReference>,
    pub name: String,
    pub data_type: DataType,
    pub nullable: bool,
}

impl Clone for TableReference {
    fn clone(&self) -> (r: Self)
        ensures
            r == *self,
    {
        let catalog = match &self.catalog {
            Some(c) => Some(c.clone()),
            None => None,
        };
        let schema = match &self.schema {
            Some(s) => Some(s.clone()),
            None => None,
        };
        TableReference { catalog, schema, table: self.table.clone() }
    }
}

impl Clone for Column {
    fn clone(&self) -> (r: Self)
        ensures
            r == *self,
    {
        let relation = match &self.relation {
            Some(t) => Some(t.clone()),
            None => None,
        };
        Column {
            relation,
            name: self.name.clone(),
            data_type: self.data_type,
            nullable: self.nullable,
        }
    }
}

/// An ordered list of columns.
#[derive(Debug, PartialEq, Eq)]
pub struct Schema {
    pub columns: Vec<Column>,
}

impl View for Schema {
    type V = Seq<Column>;

    open spec fn view(&self) -> Seq<Column> {
        self.columns@
    }
}

impl Clone for Schema {
    /// A schema with the same columns.
    fn clone(&self) -> (r: Self)
        ensures
            r@ == self@,
    {
        let mut columns: Vec<Column> = Vec::new();
        let n = self.columns.len();
        for i in 0..n
            invariant
                n == self.columns@.len(),
                columns@ == self.columns@.take(i as int),
        {
            columns.push(self.columns[i].clone());
            assert(columns@ =~= self.columns@.take(i + 1));
        }
        assert(columns@ =~= self.columns@);
        Schema { columns }
    }
}

impl Schema {
    /// The column types, in order.
    pub open spec fn types(&self) -> Seq<DataType> {
        self.columns@.map_values(|c: Column| c.data_type)
    }
}

} // verus!

verus! {

impl TableReference {
    /// Both name the same table: the table names agree, and so do the schema and catalog
    /// names wherever both references give one.
    pub open spec fn resolved_eq_spec(&self, other: &TableReference) -> bool {
        &&& self.table@ == other.table@
        &&& (self.schema is Some && other.schema is Some) ==> self.schema->Some_0@ == other.schema->Some_0@
        &&& (self.catalog is Some && other.catalog is Some) ==> self.catalog->Some_0@
            == other.catalog->Some_0@
    }

    pub fn bare(table: String) -> (r: TableReference)
        ensures
            r.table == table,
            r.schema is None,
            r.catalog is None,
    {
        TableReference { catalog: None, schema: None, table }
    }

    pub fn resolved_eq(&self, other: &TableReference) -> (r: bool)
        ensures
            r == self.resolved_eq_spec(other),
    {
        if self.table != other.table {
            return false;
        }
        let schema_ok = match (&self.schema, &other.schema) {
            (Some(a), Some(b)) => *a == *b,
            _ => true,
        };
        let catalog_ok = match (&self.catalog, &other.catalog) {
            (Some(a), Some(b)) => *a == *b,
            _ => true,
        };
        schema_ok && catalog_ok
    }
}

impl DataType {
    pub open spec fn name_spec(self) -> Seq<char> {
        match self {
            DataType::Boolean => "Boolean"@,
            DataType::Int8 => "Int8"@,
            DataType::Int16 => "Int16"@,
            DataType::Int32 => "Int32"@,
            DataType::Int64 => "Int64"@,
        }
    }

    pub fn to_string(&self) -> (r: String)
        ensures
            r@ == self.name_spec(),
    {
        match self {
            DataType::Boolean => "Boolean".to_owned(),
            DataType::Int8 => "Int8".to_owned(),
            DataType::Int16 => "Int16".to_owned(),
            DataType::Int32 => "Int32".to_owned(),
            DataType::Int64 => "Int64".to_owned(),
        }
    }
}

impl Column {
    pub fn new(name: String, data_type: DataType, nullable: bool) -> (r: Column)
        ensures
            r.name == name,
            r.data_type == data_type,
            r.nullable == nullable,
            r.relation is None,
    {
        Column { relation: None, name, data_type, nullable }
    }
}

/// The columns of the schemas, one schema after another.
pub open spec fn merged_columns(ss: Seq<Schema>) -> Seq<Column>
    decreases ss.len(),
{
    if ss.len() == 0 {
        Seq::empty()
    } else {
        ss[0].columns@ + merged_columns(ss.drop_first())
    }
}

/// Whether a column answers to a name, qualified by a table or not. A qualified name never
/// matches an unqualified column; an unqualified name matches by the name alone.
pub open spec fn column_matches(c: Column, relation: Option<TableReference>, name: Seq<char>) -> bool {
    match (relation, c.relation) {
        (Some(rel), Some(col_rel)) => rel.resolved_eq_spec(&col_rel) && name == c.name@,
        (Some(_), None) => false,
        (None, _) => name == c.name@,
    }
}

/// The summed width of values of these types.
pub open spec fn types_size(ts: Seq<DataType>) -> nat
    decreases ts.len(),
{
    if ts.len() == 0 {
        0
    } else {
        types_size(ts.drop_last()) + ts.last().size_spec()
    }
}

/// Text of a list of columns: `name:Type` joined by ", ".
pub open spec fn columns_text(cs: Seq<Column>) -> Seq<char>
    decreases cs.len(),
{
    if cs.len() == 0 {
        Seq::empty()
    } else if cs.len() == 1 {
        cs[0].name@ + ":"@ + cs[0].data_type.name_spec()
    } else {
        columns_text(cs.drop_last()) + ", "@ + cs.last().name@ + ":"@ + cs.last().data_type.name_spec()
    }
}

impl Schema {
    pub fn new(columns: Vec<Column>) -> (r: Schema)
        ensures
            r.columns@ == columns@,
    {
        Schema { columns }
    }

    pub fn empty() -> (r: Schema)
        ensures
            r.columns@.len() == 0,
    {
        Schema { columns: Vec::new() }
    }

    /// One schema holding the columns of all, in order.
    pub fn try_merge(schemas: Vec<Schema>) -> (r: BustubxResult<Schema>)
        ensures
            r is Ok,
            r->Ok_0.columns@ == merged_columns(schemas@),
    {
        let ghost all = schemas@;
        let mut rest = schemas;
        let mut columns: Vec<Column> = Vec::new();
        assert(all.subrange(all.len() as int, all.len() as int) =~= Seq::<Schema>::empty());
        while rest.len() > 0
            invariant
                rest@.len() <= all.len(),
                rest@ == all.subrange(0, rest@.len() as int),
                columns@ == merged_columns(all.subrange(rest@.len() as int, all.len() as int)),
            decreases rest@.len(),
        {
            let ghost k = rest@.len() as int;
            let s = rest.pop().unwrap();
            let mut front = s.columns;
            front.append(&mut columns);
            columns = front;
            assert(all.subrange(k - 1, all.len() as int).drop_first() =~= all.subrange(k, all.len() as int));
            assert(rest@ =~= all.subrange(0, k - 1));
        }
        assert(all.subrange(0, all.len() as int) =~= all);
        Ok(Schema { columns })
    }

    /// The columns at the given positions, in the order given.
    pub fn project(&self, indices: &[usize]) -> (r: BustubxResult<Schema>)
        ensures
            (forall|i: int| 0 <= i < indices@.len() ==> #[trigger] indices@[i] < self.columns@.len()) <==> r is Ok,
            r is Ok ==> r->Ok_0.columns@ == indices@.map_values(|i: usize| self.columns@[i as int]),
            r is Err ==> exists|i: int|
                0 <= i < indices@.len() && #[trigger] indices@[i] >= self.columns@.len()
                    && r->Err_0 == BustubxError::ColumnIndexOutOfRange(indices@[i]),
    {
        let mut columns: Vec<Column> = Vec::new();
        let n = indices.len();
        for k in 0..n
            invariant
                n == indices@.len(),
                forall|i: int| 0 <= i < k ==> #[trigger] indices@[i] < self.columns@.len(),
                columns@ == indices@.take(k as int).map_values(|i: usize| self.columns@[i as int]),
        {
            let c = self.column_with_index(indices[k])?;
            columns.push(c);
            assert(columns@ =~= indices@.take(k + 1).map_values(|i: usize| self.columns@[i as int]));
        }
        assert(indices@.take(n as int) =~= indices@);
        Ok(Schema { columns })
    }

    /// The column that answers to `name`; see `index_of`.
    pub fn column_with_name(&self, relation: Option<&TableReference>, name: &str) -> (r: BustubxResult<Column>)
        ensures
            self.has_match(relation, name@) <==> r is Ok,
            r is Ok ==> exists|i: int| self.first_match(relation, name@, i) && r->Ok_0 == self.columns@[i],
            r is Err ==> r->Err_0 is ColumnNotFound && r->Err_0->ColumnNotFound_0@ == name@,
    {
        match self.index_of(relation, name) {
            Ok(index) => Ok(self.columns[index].clone()),
            Err(e) => Err(e),
        }
    }

    pub fn column_with_index(&self, index: usize) -> (r: BustubxResult<Column>)
        ensures
            index < self.columns@.len() ==> r == Ok::<Column, BustubxError>(self.columns@[index as int]),
            index >= self.columns@.len() ==> r == Err::<Column, BustubxError>(
                BustubxError::ColumnIndexOutOfRange(index),
            ),
    {
        if index < self.columns.len() {
            Ok(self.columns[index].clone())
        } else {
            Err(BustubxError::ColumnIndexOutOfRange(index))
        }
    }

    /// The column at `i` is the first that answers to the name.
    pub open spec fn first_match(&self, relation: Option<&TableReference>, name: Seq<char>, i: int) -> bool {
        let rel = match relation {
            Some(t) => Some(*t),
            None => None,
        };
        &&& 0 <= i < self.columns@.len()
        &&& column_matches(self.columns@[i], rel, name)
        &&& forall|j: int| 0 <= j < i ==> !column_matches(#[trigger] self.columns@[j], rel, name)
    }

    pub open spec fn has_match(&self, relation: Option<&TableReference>, name: Seq<char>) -> bool {
        let rel = match relation {
            Some(t) => Some(*t),
            None => None,
        };
        exists|i: int| 0 <= i < self.columns@.len() && column_matches(#[trigger] self.columns@[i], rel, name)
    }

    /// Finds the index of the column with the given name.
    pub fn index_of(&self, relation: Option<&TableReference>, name: &str) -> (r: BustubxResult<usize>)
        ensures
            self.has_match(relation, name@) <==> r is Ok,
            r is Ok ==> self.first_match(relation, name@, r->Ok_0 as int),
            r is Err ==> r->Err_0 is ColumnNotFound && r->Err_0->ColumnNotFound_0@ == name@,
    {
        let ghost rel = match relation {
            Some(t) => Some(*t),
            None => None::<TableReference>,
        };
        let target = name.to_owned();
        let n = self.columns.len();
        for i in 0..n
            invariant
                n == self.columns@.len(),
                target@ == name@,
                rel == match relation {
                    Some(t) => Some(*t),
                    None => None::<TableReference>,
                },
                forall|j: int| 0 <= j < i ==> !column_matches(#[trigger] self.columns@[j], rel, name@),
        {
            let col = &self.columns[i];
            let found = match (relation, &col.relation) {
                (Some(rel), Some(col_rel)) => rel.resolved_eq(col_rel) && target == col.name,
                (Some(_), None) => false,
                (None, _) => target == col.name,
            };
            if found {
                return Ok(i);
            }
        }
        Err(BustubxError::ColumnNotFound(target))
    }

    /// Width in bytes of a row of fixed-width values of these columns.
    pub fn fixed_len(&self) -> (r: usize)
        requires
            types_size(self.types()) <= usize::MAX,
        ensures
            r == types_size(self.types()),
    {
        let ghost ts = self.types();
        let mut total: usize = 0;
        let n = self.columns.len();
        for i in 0..n
            invariant
                n == ts.len(),
                ts == self.types(),
                types_size(ts) <= usize::MAX,
                total == types_size(ts.take(i as int)),
        {
            assert(ts.take(i + 1).drop_last() =~= ts.take(i as int));
            proof { lemma_types_size_prefix(ts, i + 1); }
            total = total + self.columns[i].data_type.type_size();
        }
        assert(ts.take(n as int) =~= ts);
        total
    }

    pub fn column_count(&self) -> (r: usize)
        ensures
            r == self.columns@.len(),
    {
        self.columns.len()
    }

    /// `(name:Type, ...)`.
    pub fn to_string(&self) -> (r: String)
        ensures
            r@ == "("@ + columns_text(self.columns@) + ")"@,
    {
        let mut s = "(".to_owned();
        let n = self.columns.len();
        for i in 0..n
            invariant
                n == self.columns@.len(),
                s@ == "("@ + columns_text(self.columns@.take(i as int)),
        {
            let c = &self.columns[i];
            if i > 0 {
                s.append(", ");
            }
            s.append(c.name.as_str());
            s.append(":");
            let t = c.data_type.to_string();
            s.append(t.as_str());
            proof {
                let cs = self.columns@.take(i + 1);
                assert(cs.drop_last() =~= self.columns@.take(i as int));
                if i == 0 {
                    assert(cs[0] == self.columns@[0]);
                }
                assert(s@ =~= "("@ + columns_text(cs));
            }
        }
        s.append(")");
        assert(self.columns@.take(n as int) =~= self.columns@);
        s
    }
}

proof fn lemma_types_size_prefix(ts: Seq<DataType>, k: int)
    requires
        0 <= k <= ts.len(),
    ensures
        types_size(ts.take(k)) <= types_size(ts),
    decreases ts.len() - k,
{
    if k < ts.len() {
        lemma_types_size_prefix(ts, k + 1);
        assert(ts.take(k + 1).drop_last() =~= ts.take(k));
    } else {
        assert(ts.take(k) =~= ts);
    }
}

} // verus!
