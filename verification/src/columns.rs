//! The columnar form of an encoded split: a schema of typed fields and a
//! sequence of fixed-size batches, each one column vector per field. This
//! is exactly what one write into the output container takes; the sink
//! itself (an opaque durable container) lives outside the library.
use vstd::prelude::*;
use crate::text::spec_dec;

verus! {

/// Records per batch. Fixed, not configurable.
pub const CHUNK_SIZE: usize = 100;

/// One schema field: a column name and its width (`wide` columns hold
/// unsigned 32-bit token ids, narrow ones unsigned 8-bit label/tag ids).
#[derive(Debug)]
pub struct FieldDef {
    pub name: String,
    pub wide: bool,
}

/// One materialized column of a batch.
#[derive(Debug)]
pub enum ColumnData {
    U32(Vec<u32>),
    U8(Vec<u8>),
}

/// One batch: a column vector per schema field, all of one length.
#[derive(Debug)]
pub struct BatchData {
    pub columns: Vec<ColumnData>,
}

/// A whole serialized split: the schema and its batches, in row order.
#[derive(Debug)]
pub struct SplitData {
    pub fields: Vec<FieldDef>,
    pub batches: Vec<BatchData>,
}

/// Number of batches for `n` records: chunks of `CHUNK_SIZE`, last partial.
pub open spec fn spec_num_chunks(n: int) -> int {
    (n + CHUNK_SIZE as int - 1) / (CHUNK_SIZE as int)
}

/// First row of batch `b`.
pub open spec fn spec_chunk_lo(b: int) -> int {
    b * (CHUNK_SIZE as int)
}

/// One-past-last row of batch `b` out of `n` records.
pub open spec fn spec_chunk_hi(b: int, n: int) -> int {
    if spec_chunk_lo(b) + (CHUNK_SIZE as int) <= n {
        spec_chunk_lo(b) + (CHUNK_SIZE as int)
    } else {
        n
    }
}

/// A numbered column name: the prefix followed by the decimal position.
pub open spec fn spec_field_name(prefix: Seq<char>, k: int) -> Seq<char> {
    prefix + spec_dec(k)
}

/// Build the numbered column name `prefix` + decimal `k`.
pub fn field_name(prefix: &str, k: usize) -> (r: String)
    ensures
        r@ == spec_field_name(prefix@, k as int),
{
    let mut s = prefix.to_owned();
    let num = crate::text::fmt_usize(k);
    s.append(num.as_str());
    s
}

/// The column is a 32-bit column holding exactly `vals`.
pub open spec fn spec_is_u32_col(c: ColumnData, vals: Seq<u32>) -> bool {
    match c {
        ColumnData::U32(v) => v@ == vals,
        ColumnData::U8(_) => false,
    }
}

/// The column is an 8-bit column holding exactly `vals`.
pub open spec fn spec_is_u8_col(c: ColumnData, vals: Seq<u8>) -> bool {
    match c {
        ColumnData::U32(_) => false,
        ColumnData::U8(v) => v@ == vals,
    }
}

} // verus!
