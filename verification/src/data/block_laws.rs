//! What holds of every TsBlock that decodes.

use vstd::prelude::*;

use super::bitmap::packed_len;
use super::tsblock::{
    block_of, lemma_plain_column_len, take, take_bits, take_cell, take_cells, take_column,
    take_columns, take_encodings, take_i32, take_nulls, take_plain_column, take_types, take_u8,
    ENCODING_BYTE_ARRAY, ENCODING_RLE,
};
use super::value::{value_type, ValueView};
use super::TSDataType;

verus! {

/// Whether a decoded cell may stand in a column of type `ty`: a null, a value of
/// the type, the description of a stored object, or a boolean (a bit array
/// holds booleans whatever the column's type).
pub open spec fn fits_column(ty: TSDataType, cell: ValueView) -> bool {
    ||| cell is Null
    ||| cell is Boolean
    ||| value_type(cell) == Some(ty)
    ||| ty is Object && cell is String
}

proof fn lemma_cells_fit(
    b: Seq<u8>,
    pos: int,
    encoding: u8,
    ty: TSDataType,
    nulls: Seq<bool>,
    k: nat,
)
    ensures
        take_cells(b, pos, encoding, ty, nulls, k) matches Ok((cells, _)) ==> forall|i: int|
            0 <= i < cells.len() ==> fits_column(ty, #[trigger] cells[i]),
    decreases k,
{
    if k > 0 {
        lemma_cells_fit(b, pos, encoding, ty, nulls, (k - 1) as nat);
    }
}

proof fn lemma_plain_column_fits(b: Seq<u8>, pos: int, encoding: u8, ty: TSDataType, count: nat)
    ensures
        take_plain_column(b, pos, encoding, ty, count) matches Ok((cells, _)) ==> forall|i: int|
            0 <= i < cells.len() ==> fits_column(ty, #[trigger] cells[i]),
{
    if let Ok((nulls, p)) = take_nulls(b, pos, count) {
        lemma_cells_fit(b, p, encoding, ty, nulls, count);
    }
}

proof fn lemma_column_fits(b: Seq<u8>, pos: int, encoding: u8, ty: TSDataType, count: nat)
    ensures
        take_column(b, pos, encoding, ty, count) matches Ok((cells, _)) ==> {
            &&& cells.len() == count
            &&& forall|i: int| 0 <= i < cells.len() ==> fits_column(ty, #[trigger] cells[i])
        },
{
    lemma_plain_column_fits(b, pos, encoding, ty, count);
    lemma_plain_column_len(b, pos, encoding, ty, count);
    if encoding == ENCODING_RLE {
        if let Ok((inner, p)) = take_u8(b, pos) {
            lemma_plain_column_fits(b, p, inner, ty, 1);
            lemma_plain_column_len(b, p, inner, ty, 1);
            if let Ok((single, _)) = take_plain_column(b, p, inner, ty, 1) {
                assert(fits_column(ty, single[0]));
            }
        }
    }
}

/// A run-length encoded column is one value, repeated: behind the byte that
/// names the inner encoding stands a column of one row, null or not. The column
/// decodes exactly where that row does, holds its value in every row (none, if
/// the block has no rows), and takes up the same bytes however many rows there
/// are. Run-length encoding does not nest.
pub proof fn law_run_length_column_is_one_value(
    b: Seq<u8>,
    pos: int,
    ty: TSDataType,
    count: nat,
)
    ensures
        match take_u8(b, pos) {
            Ok((inner, p)) => if inner == ENCODING_RLE {
                take_column(b, pos, ENCODING_RLE, ty, count) == Err::<
                    (Seq<ValueView>, int),
                    Seq<char>,
                >("nested RLE column encoding"@)
            } else {
                match take_column(b, p, inner, ty, 1) {
                    Ok((single, q)) => {
                        &&& single.len() == 1
                        &&& take_column(b, pos, ENCODING_RLE, ty, count) == Ok::<
                            (Seq<ValueView>, int),
                            Seq<char>,
                        >((Seq::new(count, |i: int| single[0]), q))
                    },
                    Err(m) => take_column(b, pos, ENCODING_RLE, ty, count) == Err::<
                        (Seq<ValueView>, int),
                        Seq<char>,
                    >(m),
                }
            },
            Err(m) => take_column(b, pos, ENCODING_RLE, ty, count) == Err::<
                (Seq<ValueView>, int),
                Seq<char>,
            >(m),
        },
{
    if let Ok((inner, p)) = take_u8(b, pos) {
        lemma_plain_column_len(b, p, inner, ty, 1);
    }
}

proof fn lemma_columns_fit(
    b: Seq<u8>,
    pos: int,
    encodings: Seq<u8>,
    types: Seq<TSDataType>,
    count: nat,
    k: nat,
)
    ensures
        take_columns(b, pos, encodings, types, count, k) matches Ok((columns, _)) ==> {
            &&& columns.len() == k
            &&& forall|c: int| 0 <= c < k ==> (#[trigger] columns[c]).len() == count
            &&& forall|c: int, r: int|
                0 <= c < k && 0 <= r < count ==> fits_column(types[c], #[trigger] columns[c][r])
        },
    decreases k,
{
    if k > 0 {
        lemma_columns_fit(b, pos, encodings, types, count, (k - 1) as nat);
        if let Ok((_, p)) = take_columns(b, pos, encodings, types, count, (k - 1) as nat) {
            lemma_column_fits(b, p, encodings[k - 1], types[k - 1], count);
        }
    }
}

/// Every cell of a decoded block fits its column's type, and there is one for
/// each row of each column.
pub proof fn law_decoded_cells_fit_their_columns(b: Seq<u8>, c: int, r: int)
    ensures
        block_of(b) matches Ok(block) ==> {
            &&& block.columns.len() == block.column_types.len()
            &&& 0 <= c < block.columns.len() ==> block.columns[c].len() == block.position_count
            &&& 0 <= c < block.columns.len() && 0 <= r < block.position_count ==> fits_column(
                block.column_types[c],
                block.columns[c][r],
            )
        },
{
    if let Ok((columns, p)) = take_i32(b, 0) {
        if columns >= 0 {
            if let Ok((types, q)) = take_types(b, p, columns as nat) {
                if let Ok((count, s)) = take_i32(b, q) {
                    if let Ok((time_encoding, t)) = take_u8(b, s) {
                        if let Ok((encodings, u)) = take_encodings(b, t, types.len()) {
                            if let Ok((_, v)) = take_column(
                                b,
                                u,
                                time_encoding,
                                TSDataType::Int64,
                                count as nat,
                            ) {
                                lemma_columns_fit(
                                    b,
                                    v,
                                    encodings,
                                    types,
                                    count as nat,
                                    types.len(),
                                );
                            }
                        }
                    }
                }
            }
        }
    }
}

proof fn lemma_take_extends(b: Seq<u8>, rest: Seq<u8>, pos: int, n: int)
    requires
        0 <= pos,
        0 <= n,
        take(b, pos, n) is Ok,
    ensures
        take(b + rest, pos, n) == take(b, pos, n),
        take(b, pos, n)->Ok_0.1 >= 0,
{
    assert((b + rest).subrange(pos, pos + n) =~= b.subrange(pos, pos + n));
}

proof fn lemma_take_u8_extends(b: Seq<u8>, rest: Seq<u8>, pos: int)
    requires
        0 <= pos,
        take_u8(b, pos) is Ok,
    ensures
        take_u8(b + rest, pos) == take_u8(b, pos),
        take_u8(b, pos)->Ok_0.1 >= 0,
{
    lemma_take_extends(b, rest, pos, 1);
}

proof fn lemma_take_i32_extends(b: Seq<u8>, rest: Seq<u8>, pos: int)
    requires
        0 <= pos,
        take_i32(b, pos) is Ok,
    ensures
        take_i32(b + rest, pos) == take_i32(b, pos),
        take_i32(b, pos)->Ok_0.1 >= 0,
{
    lemma_take_extends(b, rest, pos, 4);
}

proof fn lemma_take_bits_extends(b: Seq<u8>, rest: Seq<u8>, pos: int, count: nat)
    requires
        0 <= pos,
        take_bits(b, pos, count) is Ok,
    ensures
        take_bits(b + rest, pos, count) == take_bits(b, pos, count),
        take_bits(b, pos, count)->Ok_0.1 >= 0,
{
    lemma_take_extends(b, rest, pos, packed_len(count as int));
}

proof fn lemma_take_nulls_extends(b: Seq<u8>, rest: Seq<u8>, pos: int, count: nat)
    requires
        0 <= pos,
        take_nulls(b, pos, count) is Ok,
    ensures
        take_nulls(b + rest, pos, count) == take_nulls(b, pos, count),
        take_nulls(b, pos, count)->Ok_0.1 >= 0,
{
    lemma_take_u8_extends(b, rest, pos);
    let (flag, p) = take_u8(b, pos)->Ok_0;
    if flag != 0 {
        lemma_take_bits_extends(b, rest, p, count);
    }
}

proof fn lemma_take_cell_extends(b: Seq<u8>, rest: Seq<u8>, pos: int, encoding: u8, ty: TSDataType)
    requires
        0 <= pos,
        take_cell(b, pos, encoding, ty) is Ok,
    ensures
        take_cell(b + rest, pos, encoding, ty) == take_cell(b, pos, encoding, ty),
        take_cell(b, pos, encoding, ty)->Ok_0.1 >= 0,
{
    if encoding == 1 {
        lemma_take_extends(b, rest, pos, 4);
    } else if encoding == 2 {
        lemma_take_extends(b, rest, pos, 8);
    } else {
        lemma_take_i32_extends(b, rest, pos);
        let (len, p) = take_i32(b, pos)->Ok_0;
        lemma_take_extends(b, rest, p, len);
    }
}

proof fn lemma_take_cells_extends(
    b: Seq<u8>,
    rest: Seq<u8>,
    pos: int,
    encoding: u8,
    ty: TSDataType,
    nulls: Seq<bool>,
    k: nat,
)
    requires
        0 <= pos,
        take_cells(b, pos, encoding, ty, nulls, k) is Ok,
    ensures
        take_cells(b + rest, pos, encoding, ty, nulls, k) == take_cells(
            b,
            pos,
            encoding,
            ty,
            nulls,
            k,
        ),
        take_cells(b, pos, encoding, ty, nulls, k)->Ok_0.1 >= 0,
    decreases k,
{
    if k > 0 {
        lemma_take_cells_extends(b, rest, pos, encoding, ty, nulls, (k - 1) as nat);
        let (_, p) = take_cells(b, pos, encoding, ty, nulls, (k - 1) as nat)->Ok_0;
        if !nulls[k - 1] {
            lemma_take_cell_extends(b, rest, p, encoding, ty);
        }
    }
}

proof fn lemma_take_plain_column_extends(
    b: Seq<u8>,
    rest: Seq<u8>,
    pos: int,
    encoding: u8,
    ty: TSDataType,
    count: nat,
)
    requires
        0 <= pos,
        take_plain_column(b, pos, encoding, ty, count) is Ok,
    ensures
        take_plain_column(b + rest, pos, encoding, ty, count) == take_plain_column(
            b,
            pos,
            encoding,
            ty,
            count,
        ),
        take_plain_column(b, pos, encoding, ty, count)->Ok_0.1 >= 0,
{
    lemma_take_nulls_extends(b, rest, pos, count);
    let (nulls, p) = take_nulls(b, pos, count)->Ok_0;
    if encoding == ENCODING_BYTE_ARRAY {
        lemma_take_bits_extends(b, rest, p, count);
    } else {
        lemma_take_cells_extends(b, rest, p, encoding, ty, nulls, count);
    }
}

proof fn lemma_take_column_extends(
    b: Seq<u8>,
    rest: Seq<u8>,
    pos: int,
    encoding: u8,
    ty: TSDataType,
    count: nat,
)
    requires
        0 <= pos,
        take_column(b, pos, encoding, ty, count) is Ok,
    ensures
        take_column(b + rest, pos, encoding, ty, count) == take_column(
            b,
            pos,
            encoding,
            ty,
            count,
        ),
        take_column(b, pos, encoding, ty, count)->Ok_0.1 >= 0,
{
    if encoding == ENCODING_RLE {
        lemma_take_u8_extends(b, rest, pos);
        let (inner, p) = take_u8(b, pos)->Ok_0;
        lemma_take_plain_column_extends(b, rest, p, inner, ty, 1);
    } else {
        lemma_take_plain_column_extends(b, rest, pos, encoding, ty, count);
    }
}

proof fn lemma_take_types_extends(b: Seq<u8>, rest: Seq<u8>, pos: int, k: nat)
    requires
        0 <= pos,
        take_types(b, pos, k) is Ok,
    ensures
        take_types(b + rest, pos, k) == take_types(b, pos, k),
        take_types(b, pos, k)->Ok_0.1 >= 0,
    decreases k,
{
    if k > 0 {
        lemma_take_types_extends(b, rest, pos, (k - 1) as nat);
        let (_, p) = take_types(b, pos, (k - 1) as nat)->Ok_0;
        lemma_take_u8_extends(b, rest, p);
    }
}

proof fn lemma_take_encodings_extends(b: Seq<u8>, rest: Seq<u8>, pos: int, k: nat)
    requires
        0 <= pos,
        take_encodings(b, pos, k) is Ok,
    ensures
        take_encodings(b + rest, pos, k) == take_encodings(b, pos, k),
        take_encodings(b, pos, k)->Ok_0.1 >= 0,
    decreases k,
{
    if k > 0 {
        lemma_take_encodings_extends(b, rest, pos, (k - 1) as nat);
        let (_, p) = take_encodings(b, pos, (k - 1) as nat)->Ok_0;
        lemma_take_u8_extends(b, rest, p);
    }
}

proof fn lemma_take_columns_extends(
    b: Seq<u8>,
    rest: Seq<u8>,
    pos: int,
    encodings: Seq<u8>,
    types: Seq<TSDataType>,
    count: nat,
    k: nat,
)
    requires
        0 <= pos,
        take_columns(b, pos, encodings, types, count, k) is Ok,
    ensures
        take_columns(b + rest, pos, encodings, types, count, k) == take_columns(
            b,
            pos,
            encodings,
            types,
            count,
            k,
        ),
        take_columns(b, pos, encodings, types, count, k)->Ok_0.1 >= 0,
    decreases k,
{
    if k > 0 {
        lemma_take_columns_extends(b, rest, pos, encodings, types, count, (k - 1) as nat);
        let (_, p) = take_columns(b, pos, encodings, types, count, (k - 1) as nat)->Ok_0;
        lemma_take_column_extends(b, rest, p, encodings[k - 1], types[k - 1], count);
    }
}

/// Bytes behind a block that decodes change nothing.
pub proof fn law_bytes_behind_a_block_are_ignored(b: Seq<u8>, rest: Seq<u8>)
    requires
        block_of(b) is Ok,
    ensures
        block_of(b + rest) == block_of(b),
{
    lemma_take_i32_extends(b, rest, 0);
    let (columns, p) = take_i32(b, 0)->Ok_0;
    lemma_take_types_extends(b, rest, p, columns as nat);
    let (types, q) = take_types(b, p, columns as nat)->Ok_0;
    lemma_take_i32_extends(b, rest, q);
    let (count, s) = take_i32(b, q)->Ok_0;
    lemma_take_u8_extends(b, rest, s);
    let (time_encoding, t) = take_u8(b, s)->Ok_0;
    lemma_take_encodings_extends(b, rest, t, types.len());
    let (encodings, u) = take_encodings(b, t, types.len())->Ok_0;
    lemma_take_column_extends(b, rest, u, time_encoding, TSDataType::Int64, count as nat);
    let (_, v) = take_column(b, u, time_encoding, TSDataType::Int64, count as nat)->Ok_0;
    lemma_take_columns_extends(b, rest, v, encodings, types, count as nat, types.len());
}

} // verus!
