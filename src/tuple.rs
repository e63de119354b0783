use vstd::prelude::*;

use crate::catalog::{DataType, Schema};
use crate::page::PageId;

verus! {

/// A single typed value; `None` stands for SQL NULL.
#[derive(Debug, Clone, Copy, PartialEq, Eq)]
pub enum ScalarValue {
    Boolean(Option<bool>),
    Int8(Option<i8>),
    Int16(Option<i16>),
    Int32(Option<i32>),
    Int64(Option<i64>),
}

impl ScalarValue {
    pub open spec fn data_type_spec(self) -> DataType {
        match self {
            ScalarValue::Boolean(_) => DataType::Boolean,
            ScalarValue::Int8(_) => DataType::Int8,
            ScalarValue::Int16(_) => DataType::Int16,
            ScalarValue::Int32(_) => DataType::Int32,
            ScalarValue::Int64(_) => DataType::Int64,
        }
    }

    pub open spec fn is_null_spec(self) -> bool {
        match self {
            ScalarValue::Boolean(v) => v is None,
            ScalarValue::Int8(v) => v is None,
            ScalarValue::Int16(v) => v is None,
            ScalarValue::Int32(v) => v is None,
            ScalarValue::Int64(v) => v is None,
        }
    }

    /// The NULL of a type.
    pub open spec fn null_of(t: DataType) -> ScalarValue {
        match t {
            DataType::Boolean => ScalarValue::Boolean(None),
            DataType::Int8 => ScalarValue::Int8(None),
            DataType::Int16 => ScalarValue::Int16(None),
            DataType::Int32 => ScalarValue::Int32(None),
            DataType::Int64 => ScalarValue::Int64(None),
        }
    }

    pub fn new_empty(data_type: DataType) -> (r: ScalarValue)
        ensures
            r == Self::null_of(data_type),
    {
        match data_type {
            DataType::Boolean => ScalarValue::Boolean(None),
            DataType::Int8 => ScalarValue::Int8(None),
            DataType::Int16 => ScalarValue::Int16(None),
            DataType::Int32 => ScalarValue::Int32(None),
            DataType::Int64 => ScalarValue::Int64(None),
        }
    }

    pub fn data_type(&self) -> (r: DataType)
        ensures
            r == self.data_type_spec(),
    {
        match self {
            ScalarValue::Boolean(_) => DataType::Boolean,
            ScalarValue::Int8(_) => DataType::Int8,
            ScalarValue::Int16(_) => DataType::Int16,
            ScalarValue::Int32(_) => DataType::Int32,
            ScalarValue::Int64(_) => DataType::Int64,
        }
    }
}

/// Locates one tuple: the page that stores it and its slot there.
#[derive(Debug, Clone, Copy, PartialEq, Eq, Structural)]
pub struct Rid {
    pub page_id: PageId,
    pub slot_num: u32,
}

impl Rid {
    pub fn new(page_id: PageId, slot_num: u32) -> (r: Rid)
        ensures
            r.page_id == page_id,
            r.slot_num == slot_num,
    {
        Rid { page_id, slot_num }
    }
}

} // verus!

verus! {

/// A row: one value per column of its schema.
#[derive(Debug, Clone, PartialEq, Eq)]
pub struct Tuple {
    pub schema: Schema,
    pub data: Vec<ScalarValue>,
}

impl View for Tuple {
    type V = Seq<ScalarValue>;

    open spec fn view(&self) -> Seq<ScalarValue> {
        self.data@
    }
}

} // verus!

verus! {

/// Where a value sorts: first by type, NULL before any other value of its type, then by the
/// number it holds (`false` before `true`).
pub open spec fn value_rank(v: ScalarValue) -> (int, int) {
    match v {
        ScalarValue::Boolean(None) => (0, 0),
        ScalarValue::Boolean(Some(b)) => (1, if b { 1 } else { 0 }),
        ScalarValue::Int8(None) => (2, 0),
        ScalarValue::Int8(Some(x)) => (3, x as int),
        ScalarValue::Int16(None) => (4, 0),
        ScalarValue::Int16(Some(x)) => (5, x as int),
        ScalarValue::Int32(None) => (6, 0),
        ScalarValue::Int32(Some(x)) => (7, x as int),
        ScalarValue::Int64(None) => (8, 0),
        ScalarValue::Int64(Some(x)) => (9, x as int),
    }
}

/// -1, 0 or 1 as `a` sorts before, with, or after `b`.
pub open spec fn value_cmp(a: ScalarValue, b: ScalarValue) -> int {
    let (x1, y1) = value_rank(a);
    let (x2, y2) = value_rank(b);
    if x1 < x2 {
        -1
    } else if x1 > x2 {
        1
    } else if y1 < y2 {
        -1
    } else if y1 > y2 {
        1
    } else {
        0
    }
}

/// Lexicographic order of keys: the first differing value decides, a proper prefix sorts first.
pub open spec fn key_cmp(a: Seq<ScalarValue>, b: Seq<ScalarValue>) -> int
    decreases a.len(),
{
    if a.len() == 0 && b.len() == 0 {
        0
    } else if a.len() == 0 {
        -1
    } else if b.len() == 0 {
        1
    } else if value_cmp(a[0], b[0]) != 0 {
        value_cmp(a[0], b[0])
    } else {
        key_cmp(a.drop_first(), b.drop_first())
    }
}

fn value_rank_exec(v: &ScalarValue) -> (r: (u8, i64))
    ensures
        value_rank(*v) == (r.0 as int, r.1 as int),
{
    match v {
        ScalarValue::Boolean(None) => (0, 0),
        ScalarValue::Boolean(Some(b)) => (1, if *b { 1 } else { 0 }),
        ScalarValue::Int8(None) => (2, 0),
        ScalarValue::Int8(Some(x)) => (3, *x as i64),
        ScalarValue::Int16(None) => (4, 0),
        ScalarValue::Int16(Some(x)) => (5, *x as i64),
        ScalarValue::Int32(None) => (6, 0),
        ScalarValue::Int32(Some(x)) => (7, *x as i64),
        ScalarValue::Int64(None) => (8, 0),
        ScalarValue::Int64(Some(x)) => (9, *x),
    }
}

impl ScalarValue {
    /// Compares two values in the order of `value_cmp`.
    pub fn compare(&self, other: &ScalarValue) -> (r: i8)
        ensures
            r as int == value_cmp(*self, *other),
    {
        let (x1, y1) = value_rank_exec(self);
        let (x2, y2) = value_rank_exec(other);
        if x1 < x2 {
            -1
        } else if x1 > x2 {
            1
        } else if y1 < y2 {
            -1
        } else if y1 > y2 {
            1
        } else {
            0
        }
    }
}

impl Tuple {
    pub fn new(schema: Schema, data: Vec<ScalarValue>) -> (r: Tuple)
        ensures
            r.schema == schema,
            r@ == data@,
    {
        Tuple { schema, data }
    }

    /// A tuple of NULLs, one for each column of the schema.
    pub fn empty(schema: Schema) -> (r: Tuple)
        ensures
            r.schema == schema,
            r@ == schema.types().map_values(|t: DataType| ScalarValue::null_of(t)),
    {
        let mut data: Vec<ScalarValue> = Vec::new();
        let n = schema.columns.len();
        for i in 0..n
            invariant
                n == schema.columns@.len(),
                data@ == schema.types().take(i as int).map_values(|t: DataType| ScalarValue::null_of(t)),
        {
            let v = ScalarValue::new_empty(schema.columns[i].data_type);
            data.push(v);
            assert(data@ =~= schema.types().take(i + 1).map_values(|t: DataType| ScalarValue::null_of(t)));
        }
        assert(schema.types().take(n as int) =~= schema.types());
        Tuple { schema, data }
    }

    /// Compares the values of two tuples in the order of `key_cmp`.
    pub fn compare(&self, other: &Tuple) -> (r: i8)
        ensures
            r as int == key_cmp(self@, other@),
    {
        let n = self.data.len();
        let m = other.data.len();
        let mut i: usize = 0;
        assert(self@.skip(0) =~= self@);
        assert(other@.skip(0) =~= other@);
        while i < n && i < m
            invariant
                i <= n,
                i <= m,
                n == self@.len(),
                m == other@.len(),
                key_cmp(self@, other@) == key_cmp(self@.skip(i as int), other@.skip(i as int)),
            decreases n - i,
        {
            let c = self.data[i].compare(&other.data[i]);
            assert(self@.skip(i as int).drop_first() =~= self@.skip(i + 1));
            assert(other@.skip(i as int).drop_first() =~= other@.skip(i + 1));
            if c != 0 {
                return c;
            }
            i = i + 1;
        }
        if i == n && i == m {
            0
        } else if i == n {
            -1
        } else {
            1
        }
    }
}

} // verus!

verus! {

impl From<bool> for ScalarValue {
    fn from(v: bool) -> (r: ScalarValue) {
        ScalarValue::Boolean(Some(v))
    }
}

impl vstd::std_specs::convert::FromSpecImpl<bool> for ScalarValue {
    open spec fn obeys_from_spec() -> bool {
        true
    }

    open spec fn from_spec(v: bool) -> ScalarValue {
        ScalarValue::Boolean(Some(v))
    }
}

impl From<i8> for ScalarValue {
    fn from(v: i8) -> (r: ScalarValue) {
        ScalarValue::Int8(Some(v))
    }
}

impl vstd::std_specs::convert::FromSpecImpl<i8> for ScalarValue {
    open spec fn obeys_from_spec() -> bool {
        true
    }

    open spec fn from_spec(v: i8) -> ScalarValue {
        ScalarValue::Int8(Some(v))
    }
}

impl From<i16> for ScalarValue {
    fn from(v: i16) -> (r: ScalarValue) {
        ScalarValue::Int16(Some(v))
    }
}

impl vstd::std_specs::convert::FromSpecImpl<i16> for ScalarValue {
    open spec fn obeys_from_spec() -> bool {
        true
    }

    open spec fn from_spec(v: i16) -> ScalarValue {
        ScalarValue::Int16(Some(v))
    }
}

impl From<i32> for ScalarValue {
    fn from(v: i32) -> (r: ScalarValue) {
        ScalarValue::Int32(Some(v))
    }
}

impl vstd::std_specs::convert::FromSpecImpl<i32> for ScalarValue {
    open spec fn obeys_from_spec() -> bool {
        true
    }

    open spec fn from_spec(v: i32) -> ScalarValue {
        ScalarValue::Int32(Some(v))
    }
}

impl From<i64> for ScalarValue {
    fn from(v: i64) -> (r: ScalarValue) {
        ScalarValue::Int64(Some(v))
    }
}

impl vstd::std_specs::convert::FromSpecImpl<i64> for ScalarValue {
    open spec fn obeys_from_spec() -> bool {
        true
    }

    open spec fn from_spec(v: i64) -> ScalarValue {
        ScalarValue::Int64(Some(v))
    }
}

} // verus!

verus! {

/// Swapping the arguments of `key_cmp` flips its sign.
pub proof fn lemma_key_cmp_antisymmetric(a: Seq<ScalarValue>, b: Seq<ScalarValue>)
    ensures
        key_cmp(a, b) == -key_cmp(b, a),
        -1 <= key_cmp(a, b) <= 1,
    decreases a.len(),
{
    if a.len() > 0 && b.len() > 0 && value_cmp(a[0], b[0]) == 0 {
        lemma_key_cmp_antisymmetric(a.drop_first(), b.drop_first());
    }
}

/// `key_cmp` orders keys transitively.
pub proof fn lemma_key_cmp_transitive(a: Seq<ScalarValue>, b: Seq<ScalarValue>, c: Seq<ScalarValue>)
    requires
        key_cmp(a, b) < 0,
        key_cmp(b, c) < 0,
    ensures
        key_cmp(a, c) < 0,
    decreases a.len(),
{
    if a.len() > 0 && b.len() > 0 && c.len() > 0 {
        if value_cmp(a[0], b[0]) == 0 && value_cmp(b[0], c[0]) == 0 {
            lemma_key_cmp_transitive(a.drop_first(), b.drop_first(), c.drop_first());
        }
    }
}

} // verus!
