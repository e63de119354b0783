use vstd::prelude::*;

use crate::catalog::DataType;
use crate::error::{BustubxError, BustubxResult};
use crate::tuple::{Rid, ScalarValue, Tuple};
use crate::catalog::Schema;
use crate::index_page::{
    internal_entries_view, leaf_entries_view, BPlusTreeInternalPage, BPlusTreeInternalPageHeader,
    BPlusTreeLeafPage, BPlusTreeLeafPageHeader, BPlusTreePage, BPlusTreePageType, PageView,
};
use crate::page::{PageId, BUSTUBX_PAGE_SIZE};

verus! {

/// Big-endian bytes of a 16-bit integer.
pub open spec fn u16_be(x: u16) -> Seq<u8> {
    seq![(x >> 8u16) as u8, x as u8]
}

/// Big-endian bytes of a 32-bit integer.
pub open spec fn u32_be(x: u32) -> Seq<u8> {
    seq![(x >> 24u32) as u8, (x >> 16u32) as u8, (x >> 8u32) as u8, x as u8]
}

/// Big-endian bytes of a 64-bit integer.
pub open spec fn u64_be(x: u64) -> Seq<u8> {
    seq![
        (x >> 56u64) as u8,
        (x >> 48u64) as u8,
        (x >> 40u64) as u8,
        (x >> 32u64) as u8,
        (x >> 24u64) as u8,
        (x >> 16u64) as u8,
        (x >> 8u64) as u8,
        x as u8,
    ]
}

pub open spec fn u16_at(b: Seq<u8>, pos: int) -> u16 {
    ((b[pos] as u16) << 8u16) | (b[pos + 1] as u16)
}

/// The 32-bit integer whose big-endian bytes start at `pos`.
pub open spec fn u32_at(b: Seq<u8>, pos: int) -> u32 {
    ((b[pos] as u32) << 24u32) | ((b[pos + 1] as u32) << 16u32) | ((b[pos + 2] as u32) << 8u32) | (
    b[pos + 3] as u32)
}

pub open spec fn u64_at(b: Seq<u8>, pos: int) -> u64 {
    ((b[pos] as u64) << 56u64) | ((b[pos + 1] as u64) << 48u64) | ((b[pos + 2] as u64) << 40u64) | ((
    b[pos + 3] as u64) << 32u64) | ((b[pos + 4] as u64) << 24u64) | ((b[pos + 5] as u64) << 16u64)
        | ((b[pos + 6] as u64) << 8u64) | (b[pos + 7] as u64)
}

pub proof fn lemma_u16_round_trip(b: Seq<u8>, pos: int, x: u16)
    requires
        0 <= pos,
        pos + 2 <= b.len(),
        b.subrange(pos, pos + 2) == u16_be(x),
    ensures
        u16_at(b, pos) == x,
{
    let s = b.subrange(pos, pos + 2);
    assert(s[0] == b[pos] && s[1] == b[pos + 1]);
    let (b0, b1) = (b[pos], b[pos + 1]);
    assert(((b0 as u16) << 8u16) | (b1 as u16) == x) by (bit_vector)
        requires
            b0 == (x >> 8u16) as u8,
            b1 == x as u8,
    ;
}

pub proof fn lemma_u32_round_trip(b: Seq<u8>, pos: int, x: u32)
    requires
        0 <= pos,
        pos + 4 <= b.len(),
        b.subrange(pos, pos + 4) == u32_be(x),
    ensures
        u32_at(b, pos) == x,
{
    let s = b.subrange(pos, pos + 4);
    assert(s[0] == b[pos] && s[1] == b[pos + 1] && s[2] == b[pos + 2] && s[3] == b[pos + 3]);
    let (b0, b1, b2, b3) = (b[pos], b[pos + 1], b[pos + 2], b[pos + 3]);
    assert(((b0 as u32) << 24u32) | ((b1 as u32) << 16u32) | ((b2 as u32) << 8u32) | (b3 as u32)
        == x) by (bit_vector)
        requires
            b0 == (x >> 24u32) as u8,
            b1 == (x >> 16u32) as u8,
            b2 == (x >> 8u32) as u8,
            b3 == x as u8,
    ;
}

pub proof fn lemma_u64_round_trip(b: Seq<u8>, pos: int, x: u64)
    requires
        0 <= pos,
        pos + 8 <= b.len(),
        b.subrange(pos, pos + 8) == u64_be(x),
    ensures
        u64_at(b, pos) == x,
{
    let s = b.subrange(pos, pos + 8);
    assert(s[0] == b[pos] && s[1] == b[pos + 1] && s[2] == b[pos + 2] && s[3] == b[pos + 3]);
    assert(s[4] == b[pos + 4] && s[5] == b[pos + 5] && s[6] == b[pos + 6] && s[7] == b[pos + 7]);
    let (b0, b1, b2, b3) = (b[pos], b[pos + 1], b[pos + 2], b[pos + 3]);
    let (b4, b5, b6, b7) = (b[pos + 4], b[pos + 5], b[pos + 6], b[pos + 7]);
    assert(((b0 as u64) << 56u64) | ((b1 as u64) << 48u64) | ((b2 as u64) << 40u64) | ((
    b3 as u64) << 32u64) | ((b4 as u64) << 24u64) | ((b5 as u64) << 16u64) | ((b6 as u64) << 8u64)
        | (b7 as u64) == x) by (bit_vector)
        requires
            b0 == (x >> 56u64) as u8,
            b1 == (x >> 48u64) as u8,
            b2 == (x >> 40u64) as u8,
            b3 == (x >> 32u64) as u8,
            b4 == (x >> 24u64) as u8,
            b5 == (x >> 16u64) as u8,
            b6 == (x >> 8u64) as u8,
            b7 == x as u8,
    ;
}

/// Fixed-width integer encodings shared by every page layout.
pub struct CommonCodec;

impl CommonCodec {
    pub fn encode_u16(x: u16) -> (r: Vec<u8>)
        ensures
            r@ == u16_be(x),
    {
        let r = vec![(x >> 8u16) as u8, x as u8];
        assert(r@ =~= u16_be(x));
        r
    }

    pub fn encode_u32(x: u32) -> (r: Vec<u8>)
        ensures
            r@ == u32_be(x),
    {
        let r = vec![(x >> 24u32) as u8, (x >> 16u32) as u8, (x >> 8u32) as u8, x as u8];
        assert(r@ =~= u32_be(x));
        r
    }

    pub fn encode_u64(x: u64) -> (r: Vec<u8>)
        ensures
            r@ == u64_be(x),
    {
        let r = vec![
            (x >> 56u64) as u8,
            (x >> 48u64) as u8,
            (x >> 40u64) as u8,
            (x >> 32u64) as u8,
            (x >> 24u64) as u8,
            (x >> 16u64) as u8,
            (x >> 8u64) as u8,
            x as u8,
        ];
        assert(r@ =~= u64_be(x));
        r
    }

    /// Reads a big-endian 32-bit integer at `pos`; fails when fewer than four bytes remain.
    pub fn decode_u32_at(bytes: &[u8], pos: usize) -> (r: BustubxResult<u32>)
        ensures
            pos + 4 <= bytes@.len() <==> r is Ok,
            r is Ok ==> r->Ok_0 == u32_at(bytes@, pos as int),
            r is Err ==> r->Err_0 == BustubxError::TruncatedData,
    {
        if bytes.len() < 4 || pos > bytes.len() - 4 {
            return Err(BustubxError::TruncatedData);
        }
        Ok(((bytes[pos] as u32) << 24u32) | ((bytes[pos + 1] as u32) << 16u32) | ((
        bytes[pos + 2] as u32) << 8u32) | (bytes[pos + 3] as u32))
    }

    /// Reads a big-endian 32-bit integer at the start of `bytes`, with the number of bytes read.
    pub fn decode_u32(bytes: &[u8]) -> (r: BustubxResult<(u32, usize)>)
        ensures
            4 <= bytes@.len() <==> r is Ok,
            r is Ok ==> r->Ok_0 == (u32_at(bytes@, 0), 4usize),
            r is Err ==> r->Err_0 == BustubxError::TruncatedData,
    {
        let v = CommonCodec::decode_u32_at(bytes, 0)?;
        Ok((v, 4))
    }
}

} // verus!

verus! {

/// Bytes of one value: a null flag (1 for NULL), then the value's fixed-width big-endian bytes
/// (zeros for NULL).
pub open spec fn value_bytes(v: ScalarValue) -> Seq<u8> {
    match v {
        ScalarValue::Boolean(None) => seq![1u8, 0u8],
        ScalarValue::Boolean(Some(b)) => seq![0u8, if b { 1u8 } else { 0u8 }],
        ScalarValue::Int8(None) => seq![1u8, 0u8],
        ScalarValue::Int8(Some(x)) => seq![0u8, x as u8],
        ScalarValue::Int16(None) => seq![1u8] + u16_be(0),
        ScalarValue::Int16(Some(x)) => seq![0u8] + u16_be(x as u16),
        ScalarValue::Int32(None) => seq![1u8] + u32_be(0),
        ScalarValue::Int32(Some(x)) => seq![0u8] + u32_be(x as u32),
        ScalarValue::Int64(None) => seq![1u8] + u64_be(0),
        ScalarValue::Int64(Some(x)) => seq![0u8] + u64_be(x as u64),
    }
}

/// Reads a value of type `t` at `pos`: the value and the position after it, or `None` where the
/// bytes end too early. Any non-zero flag reads as NULL.
pub open spec fn parse_value(b: Seq<u8>, pos: int, t: DataType) -> Option<(ScalarValue, int)> {
    let end = pos + 1 + t.size_spec();
    if pos < 0 || end > b.len() {
        None
    } else if b[pos] != 0 {
        Some((ScalarValue::null_of(t), end))
    } else {
        let v = match t {
            DataType::Boolean => ScalarValue::Boolean(Some(b[pos + 1] != 0)),
            DataType::Int8 => ScalarValue::Int8(Some(b[pos + 1] as i8)),
            DataType::Int16 => ScalarValue::Int16(Some(u16_at(b, pos + 1) as i16)),
            DataType::Int32 => ScalarValue::Int32(Some(u32_at(b, pos + 1) as i32)),
            DataType::Int64 => ScalarValue::Int64(Some(u64_at(b, pos + 1) as i64)),
        };
        Some((v, end))
    }
}

/// Bytes of a sequence of values, one after the other.
pub open spec fn values_bytes(vs: Seq<ScalarValue>) -> Seq<u8>
    decreases vs.len(),
{
    if vs.len() == 0 {
        Seq::empty()
    } else {
        values_bytes(vs.drop_last()) + value_bytes(vs.last())
    }
}

/// Reads one value of each type in `ts`, in order, starting at `pos`.
pub open spec fn parse_values(b: Seq<u8>, pos: int, ts: Seq<DataType>) -> Option<(Seq<ScalarValue>, int)>
    decreases ts.len(),
{
    if ts.len() == 0 {
        if 0 <= pos <= b.len() {
            Some((Seq::empty(), pos))
        } else {
            None
        }
    } else {
        match parse_values(b, pos, ts.drop_last()) {
            Some((vs, p)) => match parse_value(b, p, ts.last()) {
                Some((v, q)) => Some((vs.push(v), q)),
                None => None,
            },
            None => None,
        }
    }
}

/// Values that match the types one for one.
pub open spec fn values_typed(vs: Seq<ScalarValue>, ts: Seq<DataType>) -> bool {
    vs.len() == ts.len() && forall|i: int| 0 <= i < vs.len() ==> #[trigger] vs[i].data_type_spec() == ts[i]
}

pub proof fn lemma_value_bytes_len(v: ScalarValue)
    ensures
        value_bytes(v).len() == 1 + v.data_type_spec().size_spec(),
{
}

pub proof fn lemma_value_round_trip(b: Seq<u8>, pos: int, v: ScalarValue)
    requires
        0 <= pos,
        pos + value_bytes(v).len() <= b.len(),
        b.subrange(pos, pos + value_bytes(v).len()) == value_bytes(v),
    ensures
        parse_value(b, pos, v.data_type_spec()) == Some((v, pos + value_bytes(v).len())),
{
    let e = value_bytes(v);
    let s = b.subrange(pos, pos + e.len());
    assert(b[pos] == s[0]);
    assert(b[pos + 1] == s[1]);
    match v {
        ScalarValue::Boolean(_) => {},
        ScalarValue::Int8(Some(x)) => {
            assert((x as u8) as i8 == x) by (bit_vector);
        },
        ScalarValue::Int16(o) => {
            let x: u16 = match o { Some(y) => y as u16, None => 0 };
            assert(b.subrange(pos + 1, pos + 3) =~= u16_be(x)) by {
                assert(e.subrange(1, 3) =~= u16_be(x));
            }
            lemma_u16_round_trip(b, pos + 1, x);
            if let Some(y) = o {
                assert((y as u16) as i16 == y) by (bit_vector);
            }
        },
        ScalarValue::Int32(o) => {
            let x: u32 = match o { Some(y) => y as u32, None => 0 };
            assert(b.subrange(pos + 1, pos + 5) =~= u32_be(x)) by {
                assert(e.subrange(1, 5) =~= u32_be(x));
            }
            lemma_u32_round_trip(b, pos + 1, x);
            if let Some(y) = o {
                assert((y as u32) as i32 == y) by (bit_vector);
            }
        },
        ScalarValue::Int64(o) => {
            let x: u64 = match o { Some(y) => y as u64, None => 0 };
            assert(b.subrange(pos + 1, pos + 9) =~= u64_be(x)) by {
                assert(e.subrange(1, 9) =~= u64_be(x));
            }
            lemma_u64_round_trip(b, pos + 1, x);
            if let Some(y) = o {
                assert((y as u64) as i64 == y) by (bit_vector);
            }
        },
        _ => {},
    }
}

pub proof fn lemma_values_round_trip(b: Seq<u8>, pos: int, vs: Seq<ScalarValue>, ts: Seq<DataType>)
    requires
        0 <= pos,
        values_typed(vs, ts),
        pos + values_bytes(vs).len() <= b.len(),
        b.subrange(pos, pos + values_bytes(vs).len()) == values_bytes(vs),
    ensures
        parse_values(b, pos, ts) == Some((vs, pos + values_bytes(vs).len())),
    decreases vs.len(),
{
    if vs.len() > 0 {
        let init = vs.drop_last();
        let n = values_bytes(init).len() as int;
        let e = values_bytes(vs);
        assert(values_typed(init, ts.drop_last()));
        let whole = b.subrange(pos, pos + e.len());
        assert(e == values_bytes(init) + value_bytes(vs.last()));
        assert(b.subrange(pos, pos + n) =~= whole.subrange(0, n));
        assert(e.subrange(0, n) =~= values_bytes(init));
        lemma_values_round_trip(b, pos, init, ts.drop_last());
        assert(b.subrange(pos + n, pos + e.len()) =~= whole.subrange(n, e.len() as int));
        assert(e.subrange(n, e.len() as int) =~= value_bytes(vs.last()));
        lemma_value_round_trip(b, pos + n, vs.last());
        assert(init.push(vs.last()) =~= vs);
    } else {
        assert(ts.len() == 0);
    }
}

/// Encoding and decoding of single values.
pub struct ScalarValueCodec;

impl ScalarValueCodec {
    pub fn encode(v: &ScalarValue) -> (r: Vec<u8>)
        ensures
            r@ == value_bytes(*v),
    {
        let mut r: Vec<u8> = Vec::new();
        match v {
            ScalarValue::Boolean(o) => {
                match o {
                    None => { r.push(1); r.push(0); },
                    Some(b) => { r.push(0); r.push(if *b { 1u8 } else { 0u8 }); },
                }
            },
            ScalarValue::Int8(o) => {
                match o {
                    None => { r.push(1); r.push(0); },
                    Some(x) => { r.push(0); r.push(*x as u8); },
                }
            },
            ScalarValue::Int16(o) => {
                let (flag, x): (u8, u16) = match o { None => (1, 0), Some(y) => (0, *y as u16) };
                r.push(flag);
                let mut rest = CommonCodec::encode_u16(x);
                r.append(&mut rest);
            },
            ScalarValue::Int32(o) => {
                let (flag, x): (u8, u32) = match o { None => (1, 0), Some(y) => (0, *y as u32) };
                r.push(flag);
                let mut rest = CommonCodec::encode_u32(x);
                r.append(&mut rest);
            },
            ScalarValue::Int64(o) => {
                let (flag, x): (u8, u64) = match o { None => (1, 0), Some(y) => (0, *y as u64) };
                r.push(flag);
                let mut rest = CommonCodec::encode_u64(x);
                r.append(&mut rest);
            },
        }
        assert(r@ =~= value_bytes(*v));
        r
    }

    /// Reads a value of type `t` at `pos`, with the position after it.
    pub fn decode_at(bytes: &[u8], pos: usize, t: DataType) -> (r: BustubxResult<(ScalarValue, usize)>)
        ensures
            match parse_value(bytes@, pos as int, t) {
                Some((v, q)) => r is Ok && r->Ok_0.0 == v && r->Ok_0.1 == q,
                None => r == Err::<(ScalarValue, usize), BustubxError>(BustubxError::TruncatedData),
            },
    {
        let size = t.type_size();
        if pos >= bytes.len() || bytes.len() - pos - 1 < size {
            return Err(BustubxError::TruncatedData);
        }
        let end = pos + 1 + size;
        if bytes[pos] != 0 {
            return Ok((ScalarValue::new_empty(t), end));
        }
        let v = match t {
            DataType::Boolean => ScalarValue::Boolean(Some(bytes[pos + 1] != 0)),
            DataType::Int8 => ScalarValue::Int8(Some(bytes[pos + 1] as i8)),
            DataType::Int16 => {
                let x = ((bytes[pos + 1] as u16) << 8u16) | (bytes[pos + 2] as u16);
                ScalarValue::Int16(Some(x as i16))
            },
            DataType::Int32 => {
                let x = CommonCodec::decode_u32_at(bytes, pos + 1)?;
                ScalarValue::Int32(Some(x as i32))
            },
            DataType::Int64 => {
                let hi = CommonCodec::decode_u32_at(bytes, pos + 1)?;
                let lo = CommonCodec::decode_u32_at(bytes, pos + 5)?;
                let x = ((hi as u64) << 32u64) | (lo as u64);
                proof {
                    let b = bytes@;
                    let p = pos as int + 1;
                    let (b0, b1, b2, b3) = (b[p], b[p + 1], b[p + 2], b[p + 3]);
                    let (b4, b5, b6, b7) = (b[p + 4], b[p + 5], b[p + 6], b[p + 7]);
                    assert(x == ((b0 as u64) << 56u64) | ((b1 as u64) << 48u64) | ((b2 as u64) << 40u64)
                        | ((b3 as u64) << 32u64) | ((b4 as u64) << 24u64) | ((b5 as u64) << 16u64)
                        | ((b6 as u64) << 8u64) | (b7 as u64)) by (bit_vector)
                        requires
                            hi == ((b0 as u32) << 24u32) | ((b1 as u32) << 16u32) | ((b2 as u32) << 8u32)
                                | (b3 as u32),
                            lo == ((b4 as u32) << 24u32) | ((b5 as u32) << 16u32) | ((b6 as u32) << 8u32)
                                | (b7 as u32),
                            x == ((hi as u64) << 32u64) | (lo as u64),
                    ;
                }
                ScalarValue::Int64(Some(x as i64))
            },
        };
        Ok((v, end))
    }
}

} // verus!

verus! {

pub open spec fn rid_bytes(r: Rid) -> Seq<u8> {
    u32_be(r.page_id) + u32_be(r.slot_num)
}

pub open spec fn rid_at(b: Seq<u8>, pos: int) -> Rid {
    Rid { page_id: u32_at(b, pos), slot_num: u32_at(b, pos + 4) }
}

/// Encoding of whole tuples: their values one after the other.
pub struct TupleCodec;

impl TupleCodec {
    pub fn encode(tuple: &Tuple) -> (r: Vec<u8>)
        ensures
            r@ == values_bytes(tuple@),
    {
        let mut r: Vec<u8> = Vec::new();
        let n = tuple.data.len();
        for i in 0..n
            invariant
                n == tuple@.len(),
                r@ == values_bytes(tuple@.take(i as int)),
        {
            let mut e = ScalarValueCodec::encode(&tuple.data[i]);
            r.append(&mut e);
            assert(tuple@.take(i + 1).drop_last() =~= tuple@.take(i as int));
        }
        assert(tuple@.take(n as int) =~= tuple@);
        r
    }

    /// Reads one value per column of `schema` at `pos`, with the position after them.
    pub fn decode_at(bytes: &[u8], pos: usize, schema: &Schema) -> (r: BustubxResult<(Tuple, usize)>)
        ensures
            match parse_values(bytes@, pos as int, schema.types()) {
                Some((vs, q)) => r is Ok && r->Ok_0.0@ == vs && r->Ok_0.0.schema@ == schema@ && r->Ok_0.1 == q,
                None => r == Err::<(Tuple, usize), BustubxError>(BustubxError::TruncatedData),
            },
    {
        if pos > bytes.len() {
            proof { lemma_parse_values_pos(bytes@, pos as int, schema.types()); }
            return Err(BustubxError::TruncatedData);
        }
        let ghost ts = schema.types();
        let mut data: Vec<ScalarValue> = Vec::new();
        let mut p = pos;
        let n = schema.columns.len();
        for i in 0..n
            invariant
                n == ts.len(),
                ts == schema.types(),
                parse_values(bytes@, pos as int, ts.take(i as int)) == Some((data@, p as int)),
        {
            assert(ts.take(i + 1).drop_last() =~= ts.take(i as int));
            let t = schema.columns[i].data_type;
            assert(t == ts[i as int]);
            assert(ts.take(i + 1).last() == ts[i as int]);
            match ScalarValueCodec::decode_at(bytes, p, t) {
                Ok((v, q)) => {
                    data.push(v);
                    p = q;
                },
                Err(e) => {
                    proof { lemma_parse_values_prefix_none(bytes@, pos as int, ts, i + 1); }
                    return Err(e);
                },
            }
        }
        assert(ts.take(n as int) =~= ts);
        let t = Tuple { schema: schema.clone(), data };
        Ok((t, p))
    }
}

pub proof fn lemma_parse_values_prefix_none(b: Seq<u8>, pos: int, ts: Seq<DataType>, k: int)
    requires
        0 <= k <= ts.len(),
        parse_values(b, pos, ts.take(k)) is None,
    ensures
        parse_values(b, pos, ts) is None,
    decreases ts.len() - k,
{
    if k < ts.len() {
        assert(ts.take(k + 1).drop_last() =~= ts.take(k));
        lemma_parse_values_prefix_none(b, pos, ts, k + 1);
    } else {
        assert(ts.take(k) =~= ts);
    }
}

/// Where any prefix fails to parse, the whole fails: in particular a start past the end.
pub proof fn lemma_parse_values_pos(b: Seq<u8>, pos: int, ts: Seq<DataType>)
    requires
        pos > b.len(),
    ensures
        parse_values(b, pos, ts) is None,
    decreases ts.len(),
{
    if ts.len() > 0 {
        lemma_parse_values_pos(b, pos, ts.drop_last());
    }
}

/// Encoding of record ids: page id, then slot, each as four big-endian bytes.
pub struct RidCodec;

impl RidCodec {
    pub fn encode(rid: &Rid) -> (r: Vec<u8>)
        ensures
            r@ == rid_bytes(*rid),
    {
        let mut r = CommonCodec::encode_u32(rid.page_id);
        let mut s = CommonCodec::encode_u32(rid.slot_num);
        r.append(&mut s);
        r
    }

    pub fn decode_at(bytes: &[u8], pos: usize) -> (r: BustubxResult<Rid>)
        ensures
            pos + 8 <= bytes@.len() <==> r is Ok,
            r is Ok ==> r->Ok_0 == rid_at(bytes@, pos as int),
            r is Err ==> r->Err_0 == BustubxError::TruncatedData,
    {
        if bytes.len() < 8 || pos > bytes.len() - 8 {
            return Err(BustubxError::TruncatedData);
        }
        let page_id = CommonCodec::decode_u32_at(bytes, pos)?;
        let slot_num = CommonCodec::decode_u32_at(bytes, pos + 4)?;
        Ok(Rid { page_id, slot_num })
    }
}

} // verus!

verus! {

pub open spec fn page_type_tag(t: BPlusTreePageType) -> u32 {
    match t {
        BPlusTreePageType::LeafPage => 1,
        BPlusTreePageType::InternalPage => 2,
    }
}

pub open spec fn leaf_header_bytes(h: BPlusTreeLeafPageHeader) -> Seq<u8> {
    u32_be(page_type_tag(h.page_type)) + u32_be(h.current_size) + u32_be(h.max_size) + u32_be(
        h.next_page_id,
    )
}

pub open spec fn internal_header_bytes(h: BPlusTreeInternalPageHeader) -> Seq<u8> {
    u32_be(page_type_tag(h.page_type)) + u32_be(h.current_size) + u32_be(h.max_size)
}

/// The page type named by the tag at the start of `b`, with the bytes it took.
pub open spec fn decode_page_type_spec(b: Seq<u8>) -> BustubxResult<(BPlusTreePageType, usize)> {
    if b.len() < 4 {
        Err(BustubxError::TruncatedData)
    } else if u32_at(b, 0) == 1 {
        Ok((BPlusTreePageType::LeafPage, 4usize))
    } else if u32_at(b, 0) == 2 {
        Ok((BPlusTreePageType::InternalPage, 4usize))
    } else {
        Err(BustubxError::InvalidPageType(u32_at(b, 0)))
    }
}

pub open spec fn decode_leaf_header_spec(b: Seq<u8>) -> BustubxResult<(BPlusTreeLeafPageHeader, usize)> {
    match decode_page_type_spec(b) {
        Err(e) => Err(e),
        Ok((t, _)) => if b.len() < 16 {
            Err(BustubxError::TruncatedData)
        } else {
            Ok(
                (
                    BPlusTreeLeafPageHeader {
                        page_type: t,
                        current_size: u32_at(b, 4),
                        max_size: u32_at(b, 8),
                        next_page_id: u32_at(b, 12),
                    },
                    16usize,
                ),
            )
        },
    }
}

pub open spec fn decode_internal_header_spec(b: Seq<u8>) -> BustubxResult<(BPlusTreeInternalPageHeader, usize)> {
    match decode_page_type_spec(b) {
        Err(e) => Err(e),
        Ok((t, _)) => if b.len() < 12 {
            Err(BustubxError::TruncatedData)
        } else {
            Ok(
                (
                    BPlusTreeInternalPageHeader {
                        page_type: t,
                        current_size: u32_at(b, 4),
                        max_size: u32_at(b, 8),
                    },
                    12usize,
                ),
            )
        },
    }
}

/// Encoding of the page-type tag: 1 for a leaf, 2 for an internal node.
pub struct BPlusTreePageTypeCodec;

impl BPlusTreePageTypeCodec {
    pub fn encode(page_type: &BPlusTreePageType) -> (r: Vec<u8>)
        ensures
            r@ == u32_be(page_type_tag(*page_type)),
    {
        match page_type {
            BPlusTreePageType::LeafPage => CommonCodec::encode_u32(1),
            BPlusTreePageType::InternalPage => CommonCodec::encode_u32(2),
        }
    }

    pub fn decode(bytes: &[u8]) -> (r: BustubxResult<(BPlusTreePageType, usize)>)
        ensures
            r == decode_page_type_spec(bytes@),
    {
        let (flag, offset) = CommonCodec::decode_u32(bytes)?;
        if flag == 1 {
            Ok((BPlusTreePageType::LeafPage, offset))
        } else if flag == 2 {
            Ok((BPlusTreePageType::InternalPage, offset))
        } else {
            Err(BustubxError::InvalidPageType(flag))
        }
    }
}

/// Encoding of a leaf header: tag, current size, max size, next leaf, four bytes each.
pub struct BPlusTreeLeafPageHeaderCodec;

impl BPlusTreeLeafPageHeaderCodec {
    pub fn encode(header: &BPlusTreeLeafPageHeader) -> (r: Vec<u8>)
        ensures
            r@ == leaf_header_bytes(*header),
    {
        let mut bytes = BPlusTreePageTypeCodec::encode(&header.page_type);
        let mut a = CommonCodec::encode_u32(header.current_size);
        let mut b = CommonCodec::encode_u32(header.max_size);
        let mut c = CommonCodec::encode_u32(header.next_page_id);
        bytes.append(&mut a);
        bytes.append(&mut b);
        bytes.append(&mut c);
        bytes
    }

    pub fn decode(bytes: &[u8]) -> (r: BustubxResult<(BPlusTreeLeafPageHeader, usize)>)
        ensures
            r == decode_leaf_header_spec(bytes@),
    {
        let (page_type, _) = BPlusTreePageTypeCodec::decode(bytes)?;
        if bytes.len() < 16 {
            return Err(BustubxError::TruncatedData);
        }
        let current_size = CommonCodec::decode_u32_at(bytes, 4)?;
        let max_size = CommonCodec::decode_u32_at(bytes, 8)?;
        let next_page_id = CommonCodec::decode_u32_at(bytes, 12)?;
        Ok((BPlusTreeLeafPageHeader { page_type, current_size, max_size, next_page_id }, 16))
    }
}

/// Encoding of an internal header: tag, current size, max size, four bytes each.
pub struct BPlusTreeInternalPageHeaderCodec;

impl BPlusTreeInternalPageHeaderCodec {
    pub fn encode(header: &BPlusTreeInternalPageHeader) -> (r: Vec<u8>)
        ensures
            r@ == internal_header_bytes(*header),
    {
        let mut bytes = BPlusTreePageTypeCodec::encode(&header.page_type);
        let mut a = CommonCodec::encode_u32(header.current_size);
        let mut b = CommonCodec::encode_u32(header.max_size);
        bytes.append(&mut a);
        bytes.append(&mut b);
        bytes
    }

    pub fn decode(bytes: &[u8]) -> (r: BustubxResult<(BPlusTreeInternalPageHeader, usize)>)
        ensures
            r == decode_internal_header_spec(bytes@),
    {
        let (page_type, _) = BPlusTreePageTypeCodec::decode(bytes)?;
        if bytes.len() < 12 {
            return Err(BustubxError::TruncatedData);
        }
        let current_size = CommonCodec::decode_u32_at(bytes, 4)?;
        let max_size = CommonCodec::decode_u32_at(bytes, 8)?;
        Ok((BPlusTreeInternalPageHeader { page_type, current_size, max_size }, 12))
    }
}

} // verus!

verus! {

pub open spec fn leaf_entries_bytes(es: Seq<(Seq<ScalarValue>, Rid)>) -> Seq<u8>
    decreases es.len(),
{
    if es.len() == 0 {
        Seq::empty()
    } else {
        leaf_entries_bytes(es.drop_last()) + values_bytes(es.last().0) + rid_bytes(es.last().1)
    }
}

pub open spec fn internal_entries_bytes(es: Seq<(Seq<ScalarValue>, PageId)>) -> Seq<u8>
    decreases es.len(),
{
    if es.len() == 0 {
        Seq::empty()
    } else {
        internal_entries_bytes(es.drop_last()) + values_bytes(es.last().0) + u32_be(es.last().1)
    }
}

/// Reads `n` leaf entries (a key, then a record id) starting at `pos`.
pub open spec fn parse_leaf_entries(b: Seq<u8>, pos: int, ts: Seq<DataType>, n: nat) -> Option<
    (Seq<(Seq<ScalarValue>, Rid)>, int),
>
    decreases n,
{
    if n == 0 {
        Some((Seq::empty(), pos))
    } else {
        match parse_leaf_entries(b, pos, ts, (n - 1) as nat) {
            Some((es, p)) => match parse_values(b, p, ts) {
                Some((vs, q)) => if q + 8 <= b.len() {
                    Some((es.push((vs, rid_at(b, q))), q + 8))
                } else {
                    None
                },
                None => None,
            },
            None => None,
        }
    }
}

/// Reads `n` internal entries (a key, then a child page id) starting at `pos`.
pub open spec fn parse_internal_entries(b: Seq<u8>, pos: int, ts: Seq<DataType>, n: nat) -> Option<
    (Seq<(Seq<ScalarValue>, PageId)>, int),
>
    decreases n,
{
    if n == 0 {
        Some((Seq::empty(), pos))
    } else {
        match parse_internal_entries(b, pos, ts, (n - 1) as nat) {
            Some((es, p)) => match parse_values(b, p, ts) {
                Some((vs, q)) => if q + 4 <= b.len() {
                    Some((es.push((vs, u32_at(b, q))), q + 4))
                } else {
                    None
                },
                None => None,
            },
            None => None,
        }
    }
}

/// Header and entries of a page, before the padding.
pub open spec fn page_body(p: PageView) -> Seq<u8> {
    match p {
        PageView::Leaf { leaf_header, leaf_entries } => leaf_header_bytes(leaf_header)
            + leaf_entries_bytes(leaf_entries),
        PageView::Internal { internal_header, internal_entries } => internal_header_bytes(
            internal_header,
        ) + internal_entries_bytes(internal_entries),
    }
}

/// The full page image: the body, then zeros up to the page size.
pub open spec fn page_image(p: PageView) -> Seq<u8> {
    page_body(p) + Seq::new((BUSTUBX_PAGE_SIZE - page_body(p).len()) as nat, |i: int| 0u8)
}

/// What a page image decodes to under the key types `ts`.
pub open spec fn decode_page_spec(b: Seq<u8>, ts: Seq<DataType>) -> BustubxResult<PageView> {
    if b.len() != BUSTUBX_PAGE_SIZE {
        Err(BustubxError::PageSizeMismatch(b.len() as usize))
    } else if u32_at(b, 0) == 1 {
        let h = BPlusTreeLeafPageHeader {
            page_type: BPlusTreePageType::LeafPage,
            current_size: u32_at(b, 4),
            max_size: u32_at(b, 8),
            next_page_id: u32_at(b, 12),
        };
        if h.current_size > h.max_size {
            Err(BustubxError::InvalidPageSize(h.current_size, h.max_size))
        } else {
            match parse_leaf_entries(b, 16, ts, h.current_size as nat) {
                Some((es, _)) => Ok(PageView::Leaf { leaf_header: h, leaf_entries: es }),
                None => Err(BustubxError::TruncatedData),
            }
        }
    } else if u32_at(b, 0) == 2 {
        let h = BPlusTreeInternalPageHeader {
            page_type: BPlusTreePageType::InternalPage,
            current_size: u32_at(b, 4),
            max_size: u32_at(b, 8),
        };
        if h.current_size > h.max_size {
            Err(BustubxError::InvalidPageSize(h.current_size, h.max_size))
        } else {
            match parse_internal_entries(b, 12, ts, h.current_size as nat) {
                Some((es, _)) => Ok(PageView::Internal { internal_header: h, internal_entries: es }),
                None => Err(BustubxError::TruncatedData),
            }
        }
    } else {
        Err(BustubxError::InvalidPageType(u32_at(b, 0)))
    }
}

/// A page that its image describes exactly: the header's type and size agree with the entries,
/// the size is within the maximum, every key has the key types, and header and entries fit in
/// one page.
pub open spec fn page_well_formed(p: PageView, ts: Seq<DataType>) -> bool {
    &&& page_body(p).len() <= BUSTUBX_PAGE_SIZE
    &&& match p {
        PageView::Leaf { leaf_header, leaf_entries } => {
            &&& leaf_header.page_type == BPlusTreePageType::LeafPage
            &&& leaf_header.current_size == leaf_entries.len()
            &&& leaf_header.current_size <= leaf_header.max_size
            &&& forall|i: int| 0 <= i < leaf_entries.len() ==> values_typed(#[trigger] leaf_entries[i].0, ts)
        },
        PageView::Internal { internal_header, internal_entries } => {
            &&& internal_header.page_type == BPlusTreePageType::InternalPage
            &&& internal_header.current_size == internal_entries.len()
            &&& internal_header.current_size <= internal_header.max_size
            &&& forall|i: int|
                0 <= i < internal_entries.len() ==> values_typed(#[trigger] internal_entries[i].0, ts)
        },
    }
}

} // verus!

verus! {

pub proof fn lemma_leaf_entries_prefix_none(b: Seq<u8>, pos: int, ts: Seq<DataType>, k: nat, n: nat)
    requires
        k <= n,
        parse_leaf_entries(b, pos, ts, k) is None,
    ensures
        parse_leaf_entries(b, pos, ts, n) is None,
    decreases n - k,
{
    if k < n {
        lemma_leaf_entries_prefix_none(b, pos, ts, k, (n - 1) as nat);
    }
}

pub proof fn lemma_internal_entries_prefix_none(b: Seq<u8>, pos: int, ts: Seq<DataType>, k: nat, n: nat)
    requires
        k <= n,
        parse_internal_entries(b, pos, ts, k) is None,
    ensures
        parse_internal_entries(b, pos, ts, n) is None,
    decreases n - k,
{
    if k < n {
        lemma_internal_entries_prefix_none(b, pos, ts, k, (n - 1) as nat);
    }
}

/// Encoding and decoding of whole B+tree pages.
pub struct BPlusTreePageCodec;

impl BPlusTreePageCodec {
    /// The page image: header, entries, then zeros up to the page size.
    pub fn encode(page: &BPlusTreePage) -> (r: Vec<u8>)
        requires
            page_body(page@).len() <= BUSTUBX_PAGE_SIZE,
        ensures
            r@ == page_image(page@),
            r@.len() == BUSTUBX_PAGE_SIZE,
    {
        let mut bytes: Vec<u8>;
        match page {
            BPlusTreePage::Leaf(p) => {
                let ghost es = leaf_entries_view(p.array@);
                bytes = BPlusTreeLeafPageHeaderCodec::encode(&p.header);
                let n = p.array.len();
                for i in 0..n
                    invariant
                        n == p.array@.len(),
                        es == leaf_entries_view(p.array@),
                        bytes@ == leaf_header_bytes(p.header) + leaf_entries_bytes(es.take(i as int)),
                {
                    let mut t = TupleCodec::encode(&p.array[i].0);
                    let mut r = RidCodec::encode(&p.array[i].1);
                    proof {
                        let es1 = es.take(i + 1);
                        assert(es1.drop_last() =~= es.take(i as int));
                        assert(es1.last() == es[i as int]);
                    }
                    let ghost before = bytes@;
                    bytes.append(&mut t);
                    bytes.append(&mut r);
                    proof {
                        let es1 = es.take(i + 1);
                        assert(bytes@ =~= leaf_header_bytes(p.header) + leaf_entries_bytes(es1));
                    }
                }
                assert(es.take(n as int) =~= es);
            },
            BPlusTreePage::Internal(p) => {
                let ghost es = internal_entries_view(p.array@);
                bytes = BPlusTreeInternalPageHeaderCodec::encode(&p.header);
                let n = p.array.len();
                for i in 0..n
                    invariant
                        n == p.array@.len(),
                        es == internal_entries_view(p.array@),
                        bytes@ == internal_header_bytes(p.header) + internal_entries_bytes(
                            es.take(i as int),
                        ),
                {
                    let mut t = TupleCodec::encode(&p.array[i].0);
                    let mut r = CommonCodec::encode_u32(p.array[i].1);
                    proof {
                        let es1 = es.take(i + 1);
                        assert(es1.drop_last() =~= es.take(i as int));
                        assert(es1.last() == es[i as int]);
                    }
                    bytes.append(&mut t);
                    bytes.append(&mut r);
                    proof {
                        let es1 = es.take(i + 1);
                        assert(bytes@ =~= internal_header_bytes(p.header) + internal_entries_bytes(es1));
                    }
                }
                assert(es.take(n as int) =~= es);
            },
        }
        let ghost body = bytes@;
        assert(body == page_body(page@));
        while bytes.len() < BUSTUBX_PAGE_SIZE
            invariant
                body.len() <= bytes@.len() <= BUSTUBX_PAGE_SIZE,
                bytes@ == body + Seq::new((bytes@.len() - body.len()) as nat, |i: int| 0u8),
            decreases BUSTUBX_PAGE_SIZE - bytes@.len(),
        {
            bytes.push(0);
            assert(bytes@ =~= body + Seq::new((bytes@.len() - body.len()) as nat, |i: int| 0u8));
        }
        bytes
    }

    /// Reads a page image under the key schema; the page carries `schema`.
    pub fn decode(bytes: &[u8], schema: Schema) -> (r: BustubxResult<(BPlusTreePage, usize)>)
        ensures
            match decode_page_spec(bytes@, schema.types()) {
                Ok(pv) => r is Ok && r->Ok_0.0@ == pv && r->Ok_0.0.schema_spec() == schema
                    && r->Ok_0.0.keys_carry_schema(schema) && r->Ok_0.1 == BUSTUBX_PAGE_SIZE,
                Err(e) => r == Err::<(BPlusTreePage, usize), BustubxError>(e),
            },
    {
        if bytes.len() != BUSTUBX_PAGE_SIZE {
            return Err(BustubxError::PageSizeMismatch(bytes.len()));
        }
        let ghost b = bytes@;
        let ghost ts = schema.types();
        let (page_type, _) = BPlusTreePageTypeCodec::decode(bytes)?;
        match page_type {
            BPlusTreePageType::LeafPage => {
                let (header, offset) = BPlusTreeLeafPageHeaderCodec::decode(bytes)?;
                if header.current_size > header.max_size {
                    return Err(BustubxError::InvalidPageSize(header.current_size, header.max_size));
                }
                assert(page_type == BPlusTreePageType::LeafPage);
                let mut array: Vec<(Tuple, Rid)> = Vec::new();
                let mut pos = offset;
                let n = header.current_size;
                for i in 0..n
                    invariant
                        b == bytes@,
                        b.len() == BUSTUBX_PAGE_SIZE,
                        ts == schema.types(),
                        n == header.current_size,
                        n <= header.max_size,
                        forall|j: int| 0 <= j < array@.len() ==> (#[trigger] array@[j]).0.schema@ == schema@,
                        decode_page_type_spec(b) == Ok::<(BPlusTreePageType, usize), BustubxError>(
                            (page_type, 4usize),
                        ),
                        page_type == BPlusTreePageType::LeafPage,
                        decode_leaf_header_spec(b) == Ok::<(BPlusTreeLeafPageHeader, usize), BustubxError>(
                            (header, offset),
                        ),
                        parse_leaf_entries(b, offset as int, ts, i as nat) == Some(
                            (leaf_entries_view(array@), pos as int),
                        ),
                {
                    let ghost old_array = array@;
                    match TupleCodec::decode_at(bytes, pos, &schema) {
                        Ok((tuple, q)) => {
                            match RidCodec::decode_at(bytes, q) {
                                Ok(rid) => {
                                    array.push((tuple, rid));
                                    pos = q + 8;
                                    assert(leaf_entries_view(array@) =~= leaf_entries_view(old_array).push(
                                        (tuple@, rid),
                                    ));
                                },
                                Err(e) => {
                                    proof {
                                        assert(parse_leaf_entries(b, offset as int, ts, (i + 1) as nat) is None);
                                        lemma_leaf_entries_prefix_none(b, offset as int, ts, (i + 1) as nat, n as nat);
                                    }
                                    return Err(e);
                                },
                            }
                        },
                        Err(e) => {
                            proof {
                                assert(parse_leaf_entries(b, offset as int, ts, (i + 1) as nat) is None);
                                lemma_leaf_entries_prefix_none(b, offset as int, ts, (i + 1) as nat, n as nat);
                            }
                            return Err(e);
                        },
                    }
                }
                Ok((BPlusTreePage::Leaf(BPlusTreeLeafPage { schema, header, array }), BUSTUBX_PAGE_SIZE))
            },
            BPlusTreePageType::InternalPage => {
                let (header, offset) = BPlusTreeInternalPageHeaderCodec::decode(bytes)?;
                if header.current_size > header.max_size {
                    return Err(BustubxError::InvalidPageSize(header.current_size, header.max_size));
                }
                assert(page_type == BPlusTreePageType::InternalPage);
                let mut array: Vec<(Tuple, PageId)> = Vec::new();
                let mut pos = offset;
                let n = header.current_size;
                for i in 0..n
                    invariant
                        b == bytes@,
                        b.len() == BUSTUBX_PAGE_SIZE,
                        ts == schema.types(),
                        n == header.current_size,
                        n <= header.max_size,
                        forall|j: int| 0 <= j < array@.len() ==> (#[trigger] array@[j]).0.schema@ == schema@,
                        decode_page_type_spec(b) == Ok::<(BPlusTreePageType, usize), BustubxError>(
                            (page_type, 4usize),
                        ),
                        page_type == BPlusTreePageType::InternalPage,
                        decode_internal_header_spec(b) == Ok::<(BPlusTreeInternalPageHeader, usize), BustubxError>(
                            (header, offset),
                        ),
                        parse_internal_entries(b, offset as int, ts, i as nat) == Some(
                            (internal_entries_view(array@), pos as int),
                        ),
                {
                    let ghost old_array = array@;
                    match TupleCodec::decode_at(bytes, pos, &schema) {
                        Ok((tuple, q)) => {
                            match CommonCodec::decode_u32_at(bytes, q) {
                                Ok(child) => {
                                    array.push((tuple, child));
                                    pos = q + 4;
                                    assert(internal_entries_view(array@) =~= internal_entries_view(
                                        old_array,
                                    ).push((tuple@, child)));
                                },
                                Err(e) => {
                                    proof {
                                        assert(parse_internal_entries(b, offset as int, ts, (i + 1) as nat) is None);
                                        lemma_internal_entries_prefix_none(b, offset as int, ts, (i + 1) as nat, n as nat);
                                    }
                                    return Err(e);
                                },
                            }
                        },
                        Err(e) => {
                            proof {
                                assert(parse_internal_entries(b, offset as int, ts, (i + 1) as nat) is None);
                                lemma_internal_entries_prefix_none(b, offset as int, ts, (i + 1) as nat, n as nat);
                            }
                            return Err(e);
                        },
                    }
                }
                Ok(
                    (
                        BPlusTreePage::Internal(BPlusTreeInternalPage { schema, header, array }),
                        BUSTUBX_PAGE_SIZE,
                    ),
                )
            },
        }
    }
}


} // verus!

verus! {

proof fn lemma_subrange_of_subrange(b: Seq<u8>, pos: int, e: Seq<u8>, lo: int, hi: int)
    requires
        0 <= pos,
        pos + e.len() <= b.len(),
        b.subrange(pos, pos + e.len()) == e,
        0 <= lo <= hi <= e.len(),
    ensures
        b.subrange(pos + lo, pos + hi) == e.subrange(lo, hi),
{
    assert(b.subrange(pos + lo, pos + hi) =~= b.subrange(pos, pos + e.len()).subrange(lo, hi));
}

proof fn lemma_leaf_entries_round_trip(b: Seq<u8>, pos: int, es: Seq<(Seq<ScalarValue>, Rid)>, ts: Seq<DataType>)
    requires
        0 <= pos,
        pos + leaf_entries_bytes(es).len() <= b.len(),
        b.subrange(pos, pos + leaf_entries_bytes(es).len()) == leaf_entries_bytes(es),
        forall|i: int| 0 <= i < es.len() ==> values_typed(#[trigger] es[i].0, ts),
    ensures
        parse_leaf_entries(b, pos, ts, es.len()) == Some((es, pos + leaf_entries_bytes(es).len())),
    decreases es.len(),
{
    if es.len() > 0 {
        let init = es.drop_last();
        let last = es.last();
        let e = leaf_entries_bytes(es);
        let n = leaf_entries_bytes(init).len() as int;
        let m = values_bytes(last.0).len() as int;
        assert(e == leaf_entries_bytes(init) + values_bytes(last.0) + rid_bytes(last.1));
        assert(values_typed(last.0, ts)) by {
            assert(last == es[es.len() - 1]);
        }
        assert forall|i: int| 0 <= i < init.len() implies values_typed(#[trigger] init[i].0, ts) by {
            assert(init[i] == es[i]);
        }
        lemma_subrange_of_subrange(b, pos, e, 0, n);
        assert(e.subrange(0, n) =~= leaf_entries_bytes(init));
        lemma_leaf_entries_round_trip(b, pos, init, ts);
        lemma_subrange_of_subrange(b, pos, e, n, n + m);
        assert(e.subrange(n, n + m) =~= values_bytes(last.0));
        lemma_values_round_trip(b, pos + n, last.0, ts);
        lemma_subrange_of_subrange(b, pos, e, n + m, n + m + 4);
        assert(e.subrange(n + m, n + m + 4) =~= u32_be(last.1.page_id));
        lemma_u32_round_trip(b, pos + n + m, last.1.page_id);
        lemma_subrange_of_subrange(b, pos, e, n + m + 4, n + m + 8);
        assert(e.subrange(n + m + 4, n + m + 8) =~= u32_be(last.1.slot_num));
        lemma_u32_round_trip(b, pos + n + m + 4, last.1.slot_num);
        assert(init.push(last) =~= es);
    }
}

proof fn lemma_internal_entries_round_trip(
    b: Seq<u8>,
    pos: int,
    es: Seq<(Seq<ScalarValue>, PageId)>,
    ts: Seq<DataType>,
)
    requires
        0 <= pos,
        pos + internal_entries_bytes(es).len() <= b.len(),
        b.subrange(pos, pos + internal_entries_bytes(es).len()) == internal_entries_bytes(es),
        forall|i: int| 0 <= i < es.len() ==> values_typed(#[trigger] es[i].0, ts),
    ensures
        parse_internal_entries(b, pos, ts, es.len()) == Some(
            (es, pos + internal_entries_bytes(es).len()),
        ),
    decreases es.len(),
{
    if es.len() > 0 {
        let init = es.drop_last();
        let last = es.last();
        let e = internal_entries_bytes(es);
        let n = internal_entries_bytes(init).len() as int;
        let m = values_bytes(last.0).len() as int;
        assert(e == internal_entries_bytes(init) + values_bytes(last.0) + u32_be(last.1));
        assert(values_typed(last.0, ts)) by {
            assert(last == es[es.len() - 1]);
        }
        assert forall|i: int| 0 <= i < init.len() implies values_typed(#[trigger] init[i].0, ts) by {
            assert(init[i] == es[i]);
        }
        lemma_subrange_of_subrange(b, pos, e, 0, n);
        assert(e.subrange(0, n) =~= internal_entries_bytes(init));
        lemma_internal_entries_round_trip(b, pos, init, ts);
        lemma_subrange_of_subrange(b, pos, e, n, n + m);
        assert(e.subrange(n, n + m) =~= values_bytes(last.0));
        lemma_values_round_trip(b, pos + n, last.0, ts);
        lemma_subrange_of_subrange(b, pos, e, n + m, n + m + 4);
        assert(e.subrange(n + m, n + m + 4) =~= u32_be(last.1));
        lemma_u32_round_trip(b, pos + n + m, last.1);
        assert(init.push(last) =~= es);
    }
}

/// Decoding the image of a well-formed page under its key types gives the page back.
pub proof fn lemma_page_round_trip(p: PageView, ts: Seq<DataType>)
    requires
        page_well_formed(p, ts),
    ensures
        decode_page_spec(page_image(p), ts) == Ok::<PageView, BustubxError>(p),
{
    let b = page_image(p);
    let body = page_body(p);
    assert(b.subrange(0, body.len() as int) =~= body);
    match p {
        PageView::Leaf { leaf_header: h, leaf_entries: es } => {
            let hb = leaf_header_bytes(h);
            let eb = leaf_entries_bytes(es);
            assert(body =~= hb + eb);
            lemma_subrange_of_subrange(b, 0, body, 0, 4);
            assert(body.subrange(0, 4) =~= u32_be(1));
            lemma_u32_round_trip(b, 0, 1);
            lemma_subrange_of_subrange(b, 0, body, 4, 8);
            assert(body.subrange(4, 8) =~= u32_be(h.current_size));
            lemma_u32_round_trip(b, 4, h.current_size);
            lemma_subrange_of_subrange(b, 0, body, 8, 12);
            assert(body.subrange(8, 12) =~= u32_be(h.max_size));
            lemma_u32_round_trip(b, 8, h.max_size);
            lemma_subrange_of_subrange(b, 0, body, 12, 16);
            assert(body.subrange(12, 16) =~= u32_be(h.next_page_id));
            lemma_u32_round_trip(b, 12, h.next_page_id);
            lemma_subrange_of_subrange(b, 0, body, 16, body.len() as int);
            assert(body.subrange(16, body.len() as int) =~= eb);
            lemma_leaf_entries_round_trip(b, 16, es, ts);
        },
        PageView::Internal { internal_header: h, internal_entries: es } => {
            let hb = internal_header_bytes(h);
            let eb = internal_entries_bytes(es);
            assert(body =~= hb + eb);
            lemma_subrange_of_subrange(b, 0, body, 0, 4);
            assert(body.subrange(0, 4) =~= u32_be(2));
            lemma_u32_round_trip(b, 0, 2);
            lemma_subrange_of_subrange(b, 0, body, 4, 8);
            assert(body.subrange(4, 8) =~= u32_be(h.current_size));
            lemma_u32_round_trip(b, 4, h.current_size);
            lemma_subrange_of_subrange(b, 0, body, 8, 12);
            assert(body.subrange(8, 12) =~= u32_be(h.max_size));
            lemma_u32_round_trip(b, 8, h.max_size);
            lemma_subrange_of_subrange(b, 0, body, 12, body.len() as int);
            assert(body.subrange(12, body.len() as int) =~= eb);
            lemma_internal_entries_round_trip(b, 12, es, ts);
        },
    }
}

} // verus!
