//! The TsBlock format written out: the bytes of a block, and the law that
//! decoding them gives the block back.

use vstd::prelude::*;
use vstd::utf8::{encode_utf8, encode_utf8_decode_utf8, encode_utf8_valid_utf8};

use super::bitmap::{bit_value, msb_bit, packed_len};
use super::placed::{lemma_split, lemma_stands_first, lemma_take, stands_at};
use super::tsblock::{
    block_of, take_binary, take_bits, take_cell, take_cells, take_column, take_columns,
    take_encodings, take_i32, take_nulls, take_types, take_u8, time_values, TsBlockView,
    ENCODING_BINARY_ARRAY, ENCODING_BYTE_ARRAY, ENCODING_INT32_ARRAY, ENCODING_INT64_ARRAY,
    ENCODING_RLE,
};
use super::value::{value_type, ValueView};
use super::{law_type_of_code_inverts_code, type_code_of, TSDataType};
use crate::wire::{
    be_bytes, i32_bytes, i64_bytes, law_be_round_trip, law_i32_round_trip, law_i64_round_trip,
    lemma_be_bytes_len, lemma_pow256_values,
};

verus! {

/// Byte `j` of `bits` packed most significant bit first.
#[verifier::opaque]
pub open spec fn msb_byte(bits: Seq<bool>, j: int) -> u8 {
    (128 * bit_value(bits, 8 * j) + 64 * bit_value(bits, 8 * j + 1) + 32 * bit_value(
        bits,
        8 * j + 2,
    ) + 16 * bit_value(bits, 8 * j + 3) + 8 * bit_value(bits, 8 * j + 4) + 4 * bit_value(
        bits,
        8 * j + 5,
    ) + 2 * bit_value(bits, 8 * j + 6) + bit_value(bits, 8 * j + 7)) as u8
}

/// `bits` packed most significant bit first.
pub open spec fn msb_packed(bits: Seq<bool>) -> Seq<u8> {
    Seq::new(packed_len(bits.len() as int) as nat, |j: int| msb_byte(bits, j))
}

/// Bits packed most significant bit first can be read back.
pub proof fn law_msb_bits_read_back(bits: Seq<bool>, i: int)
    requires
        0 <= i < bits.len(),
    ensures
        msb_bit(msb_packed(bits), i) == bits[i],
{
    reveal(msb_byte);
    let j = i / 8;
    let byte = msb_byte(bits, j);
    let b0 = bit_value(bits, 8 * j) as u8;
    let b1 = bit_value(bits, 8 * j + 1) as u8;
    let b2 = bit_value(bits, 8 * j + 2) as u8;
    let b3 = bit_value(bits, 8 * j + 3) as u8;
    let b4 = bit_value(bits, 8 * j + 4) as u8;
    let b5 = bit_value(bits, 8 * j + 5) as u8;
    let b6 = bit_value(bits, 8 * j + 6) as u8;
    let b7 = bit_value(bits, 8 * j + 7) as u8;
    assert(byte == 128 * b0 + 64 * b1 + 32 * b2 + 16 * b3 + 8 * b4 + 4 * b5 + 2 * b6 + b7);
    assert(((byte >> 7u8) & 1u8 == b0) && ((byte >> 6u8) & 1u8 == b1) && ((byte >> 5u8) & 1u8
        == b2) && ((byte >> 4u8) & 1u8 == b3) && ((byte >> 3u8) & 1u8 == b4) && ((byte >> 2u8)
        & 1u8 == b5) && ((byte >> 1u8) & 1u8 == b6) && ((byte >> 0u8) & 1u8 == b7))
        by (bit_vector)
        requires
            b0 <= 1 && b1 <= 1 && b2 <= 1 && b3 <= 1 && b4 <= 1 && b5 <= 1 && b6 <= 1 && b7 <= 1,
            byte == 128 * b0 + 64 * b1 + 32 * b2 + 16 * b3 + 8 * b4 + 4 * b5 + 2 * b6 + b7,
    ;
    assert(8 * j + i % 8 == i);
}

/// The encoding of a column of type `ty`.
pub open spec fn encoding_of(ty: TSDataType) -> u8 {
    match ty {
        TSDataType::Boolean => ENCODING_BYTE_ARRAY,
        TSDataType::Int32 => ENCODING_INT32_ARRAY,
        TSDataType::Date => ENCODING_INT32_ARRAY,
        TSDataType::Float => ENCODING_INT32_ARRAY,
        TSDataType::Int64 => ENCODING_INT64_ARRAY,
        TSDataType::Timestamp => ENCODING_INT64_ARRAY,
        TSDataType::Double => ENCODING_INT64_ARRAY,
        _ => ENCODING_BINARY_ARRAY,
    }
}

/// Whether a column can have the type and hold the cell: the type carries its
/// values over as they are, and the cell is null or of the type; byte strings
/// are short enough for their length to be written.
pub open spec fn cell_encodable(ty: TSDataType, cell: ValueView) -> bool {
    &&& !(ty is Vector) && !(ty is Unknown) && !(ty is Object)
    &&& cell is Null || value_type(cell) == Some(ty)
    &&& match cell {
        ValueView::Text(s) => encode_utf8(s).len() <= i32::MAX,
        ValueView::String(s) => encode_utf8(s).len() <= i32::MAX,
        ValueView::Blob(b) => b.len() <= i32::MAX,
        _ => true,
    }
}

/// A length and that many bytes.
pub open spec fn counted(bytes: Seq<u8>) -> Seq<u8> {
    i32_bytes(bytes.len() as int) + bytes
}

/// The bytes of a non-null cell in a column that is not boolean; a null cell
/// takes none.
pub open spec fn dense_cell(cell: ValueView) -> Seq<u8> {
    match cell {
        ValueView::Int32(x) => i32_bytes(x as int),
        ValueView::Date(x) => i32_bytes(x as int),
        ValueView::Float(bits) => be_bytes(bits as nat, 4),
        ValueView::Int64(x) => i64_bytes(x as int),
        ValueView::Timestamp(x) => i64_bytes(x as int),
        ValueView::Double(bits) => be_bytes(bits as nat, 8),
        ValueView::Text(s) => counted(encode_utf8(s)),
        ValueView::String(s) => counted(encode_utf8(s)),
        ValueView::Blob(b) => counted(b),
        _ => Seq::empty(),
    }
}

/// The first `k` cells of a column that is not boolean.
pub open spec fn dense_cells(cells: Seq<ValueView>, k: nat) -> Seq<u8>
    decreases k,
{
    if k == 0 {
        Seq::empty()
    } else {
        dense_cells(cells, (k - 1) as nat) + dense_cell(cells[k - 1])
    }
}

/// Which cells are null.
pub open spec fn nulls_of(cells: Seq<ValueView>) -> Seq<bool> {
    cells.map_values(|c: ValueView| c is Null)
}

/// Which cells are true.
pub open spec fn trues_of(cells: Seq<ValueView>) -> Seq<bool> {
    cells.map_values(|c: ValueView| c == ValueView::Boolean(true))
}

/// A column's null section: a zero byte where no cell is null.
pub open spec fn null_bytes(cells: Seq<ValueView>) -> Seq<u8> {
    if nulls_of(cells).contains(true) {
        seq![1u8] + msb_packed(nulls_of(cells))
    } else {
        seq![0u8]
    }
}

/// The body of a column of type `ty`.
pub open spec fn body_bytes(ty: TSDataType, cells: Seq<ValueView>) -> Seq<u8> {
    null_bytes(cells) + if ty is Boolean {
        msb_packed(trues_of(cells))
    } else {
        dense_cells(cells, cells.len())
    }
}

/// The first `k` column bodies.
pub open spec fn bodies_bytes(
    types: Seq<TSDataType>,
    columns: Seq<Seq<ValueView>>,
    k: nat,
) -> Seq<u8>
    decreases k,
{
    if k == 0 {
        Seq::empty()
    } else {
        bodies_bytes(types, columns, (k - 1) as nat) + body_bytes(types[k - 1], columns[k - 1])
    }
}

/// A time column's cells.
pub open spec fn time_cells(timestamps: Seq<i64>) -> Seq<ValueView> {
    timestamps.map_values(|t: i64| ValueView::Int64(t))
}

/// The wire codes of the first `k` types.
pub open spec fn codes_bytes(types: Seq<TSDataType>, k: nat) -> Seq<u8> {
    Seq::new(k, |i: int| type_code_of(types[i]) as u8)
}

/// The encodings of the first `k` columns.
pub open spec fn encodings_bytes(types: Seq<TSDataType>, k: nat) -> Seq<u8> {
    Seq::new(k, |i: int| encoding_of(types[i]))
}

/// The bytes of a block.
pub open spec fn block_bytes(block: TsBlockView) -> Seq<u8> {
    let n = block.column_types.len();
    i32_bytes(n as int) + (codes_bytes(block.column_types, n) + (i32_bytes(
        block.position_count as int,
    ) + (seq![ENCODING_INT64_ARRAY] + (encodings_bytes(block.column_types, n) + (body_bytes(
        TSDataType::Int64,
        time_cells(block.timestamps),
    ) + bodies_bytes(block.column_types, block.columns, n))))))
}

/// Whether a block can be written in this format.
pub open spec fn encodable(block: TsBlockView) -> bool {
    &&& block.wf()
    &&& block.position_count <= i32::MAX
    &&& block.column_types.len() <= i32::MAX
    &&& forall|c: int, r: int|
        0 <= c < block.columns.len() && 0 <= r < block.position_count ==> cell_encodable(
            block.column_types[c],
            #[trigger] block.columns[c][r],
        )
}

proof fn lemma_read_u8(b: Seq<u8>, pos: int, x: u8)
    requires
        stands_at(b, pos, seq![x]),
    ensures
        take_u8(b, pos) == Ok::<(u8, int), Seq<char>>((x, pos + 1)),
{
    lemma_take(b, pos, seq![x]);
}

proof fn lemma_read_i32(b: Seq<u8>, pos: int, x: int)
    requires
        i32::MIN <= x <= i32::MAX,
        stands_at(b, pos, i32_bytes(x)),
    ensures
        i32_bytes(x).len() == 4,
        take_i32(b, pos) == Ok::<(int, int), Seq<char>>((x, pos + 4)),
{
    lemma_be_bytes_len(crate::wire::pattern32(x), 4);
    lemma_take(b, pos, i32_bytes(x));
    law_i32_round_trip(x);
}

proof fn lemma_read_bits(b: Seq<u8>, pos: int, bits: Seq<bool>)
    requires
        stands_at(b, pos, msb_packed(bits)),
    ensures
        take_bits(b, pos, bits.len()) == Ok::<(Seq<bool>, int), Seq<char>>(
            (bits, pos + msb_packed(bits).len()),
        ),
{
    lemma_take(b, pos, msb_packed(bits));
    let read = Seq::new(bits.len(), |i: int| msb_bit(msb_packed(bits), i));
    assert(read =~= bits) by {
        assert forall|i: int| 0 <= i < bits.len() implies read[i] == bits[i] by {
            law_msb_bits_read_back(bits, i);
        }
    }
}

proof fn lemma_read_nulls(b: Seq<u8>, pos: int, cells: Seq<ValueView>)
    requires
        stands_at(b, pos, null_bytes(cells)),
    ensures
        take_nulls(b, pos, cells.len()) == Ok::<(Seq<bool>, int), Seq<char>>(
            (nulls_of(cells), pos + null_bytes(cells).len()),
        ),
{
    let nulls = nulls_of(cells);
    if nulls.contains(true) {
        lemma_split(b, pos, seq![1u8], msb_packed(nulls));
        lemma_read_u8(b, pos, 1);
        lemma_read_bits(b, pos + 1, nulls);
    } else {
        lemma_read_u8(b, pos, 0);
        let none = Seq::new(cells.len(), |i: int| false);
        assert(none =~= nulls) by {
            assert forall|i: int| 0 <= i < nulls.len() implies nulls[i] == false by {
                if nulls[i] {
                    assert(nulls.contains(true));
                }
            }
        }
    }
}

proof fn lemma_read_counted(b: Seq<u8>, pos: int, bytes: Seq<u8>)
    requires
        bytes.len() <= i32::MAX,
        stands_at(b, pos, counted(bytes)),
    ensures
        take_binary(b, pos) == Ok::<(Seq<u8>, int), Seq<char>>(
            (bytes, pos + counted(bytes).len()),
        ),
{
    lemma_split(b, pos, i32_bytes(bytes.len() as int), bytes);
    lemma_read_i32(b, pos, bytes.len() as int);
    lemma_take(b, pos + 4, bytes);
}

proof fn lemma_read_cell(b: Seq<u8>, pos: int, ty: TSDataType, cell: ValueView)
    requires
        cell_encodable(ty, cell),
        !(cell is Null),
        !(ty is Boolean),
        stands_at(b, pos, dense_cell(cell)),
    ensures
        take_cell(b, pos, encoding_of(ty), ty) == Ok::<(ValueView, int), Seq<char>>(
            (cell, pos + dense_cell(cell).len()),
        ),
{
    lemma_pow256_values();
    match cell {
        ValueView::Int32(x) => {
            lemma_be_bytes_len(crate::wire::pattern32(x as int), 4);
            lemma_take(b, pos, i32_bytes(x as int));
            law_i32_round_trip(x as int);
        },
        ValueView::Date(x) => {
            lemma_be_bytes_len(crate::wire::pattern32(x as int), 4);
            lemma_take(b, pos, i32_bytes(x as int));
            law_i32_round_trip(x as int);
        },
        ValueView::Float(bits) => {
            lemma_be_bytes_len(bits as nat, 4);
            lemma_take(b, pos, be_bytes(bits as nat, 4));
            law_be_round_trip(bits as nat, 4);
        },
        ValueView::Int64(x) => {
            lemma_be_bytes_len(crate::wire::pattern64(x as int), 8);
            lemma_take(b, pos, i64_bytes(x as int));
            law_i64_round_trip(x as int);
        },
        ValueView::Timestamp(x) => {
            lemma_be_bytes_len(crate::wire::pattern64(x as int), 8);
            lemma_take(b, pos, i64_bytes(x as int));
            law_i64_round_trip(x as int);
        },
        ValueView::Double(bits) => {
            lemma_be_bytes_len(bits as nat, 8);
            lemma_take(b, pos, be_bytes(bits as nat, 8));
            law_be_round_trip(bits as nat, 8);
        },
        ValueView::Text(s) => {
            lemma_read_counted(b, pos, encode_utf8(s));
            encode_utf8_valid_utf8(s);
            encode_utf8_decode_utf8(s);
        },
        ValueView::String(s) => {
            lemma_read_counted(b, pos, encode_utf8(s));
            encode_utf8_valid_utf8(s);
            encode_utf8_decode_utf8(s);
        },
        ValueView::Blob(bytes) => {
            lemma_read_counted(b, pos, bytes);
        },
        _ => {},
    }
}

proof fn lemma_read_cells(b: Seq<u8>, pos: int, ty: TSDataType, cells: Seq<ValueView>, k: nat)
    requires
        k <= cells.len(),
        !(ty is Boolean),
        forall|i: int| 0 <= i < cells.len() ==> cell_encodable(ty, #[trigger] cells[i]),
        stands_at(b, pos, dense_cells(cells, k)),
    ensures
        take_cells(b, pos, encoding_of(ty), ty, nulls_of(cells), k) == Ok::<
            (Seq<ValueView>, int),
            Seq<char>,
        >((cells.subrange(0, k as int), pos + dense_cells(cells, k).len())),
    decreases k,
{
    if k == 0 {
        assert(cells.subrange(0, 0) =~= Seq::empty());
    } else {
        let before = dense_cells(cells, (k - 1) as nat);
        lemma_split(b, pos, before, dense_cell(cells[k - 1]));
        lemma_read_cells(b, pos, ty, cells, (k - 1) as nat);
        let cell = cells[k - 1];
        assert(cell_encodable(ty, cell));
        if !(cell is Null) {
            lemma_read_cell(b, pos + before.len(), ty, cell);
        }
        assert(cells.subrange(0, k as int) =~= cells.subrange(0, k - 1).push(cell));
    }
}

proof fn lemma_read_body(b: Seq<u8>, pos: int, ty: TSDataType, cells: Seq<ValueView>)
    requires
        forall|i: int| 0 <= i < cells.len() ==> cell_encodable(ty, #[trigger] cells[i]),
        stands_at(b, pos, body_bytes(ty, cells)),
    ensures
        take_column(b, pos, encoding_of(ty), ty, cells.len()) == Ok::<
            (Seq<ValueView>, int),
            Seq<char>,
        >((cells, pos + body_bytes(ty, cells).len())),
{
    let head = null_bytes(cells);
    if ty is Boolean {
        lemma_split(b, pos, head, msb_packed(trues_of(cells)));
        lemma_read_nulls(b, pos, cells);
        lemma_read_bits(b, pos + head.len(), trues_of(cells));
        let read = Seq::new(
            cells.len(),
            |i: int|
                if nulls_of(cells)[i] {
                    ValueView::Null
                } else {
                    ValueView::Boolean(trues_of(cells)[i])
                },
        );
        assert(read =~= cells) by {
            assert forall|i: int| 0 <= i < cells.len() implies read[i] == cells[i] by {
                assert(cell_encodable(ty, cells[i]));
            }
        }
    } else {
        lemma_split(b, pos, head, dense_cells(cells, cells.len()));
        lemma_read_nulls(b, pos, cells);
        lemma_read_cells(b, pos + head.len(), ty, cells, cells.len());
        assert(cells.subrange(0, cells.len() as int) =~= cells);
    }
}

proof fn lemma_read_bodies(
    b: Seq<u8>,
    pos: int,
    block: TsBlockView,
    k: nat,
)
    requires
        encodable(block),
        k <= block.columns.len(),
        stands_at(b, pos, bodies_bytes(block.column_types, block.columns, k)),
    ensures
        take_columns(
            b,
            pos,
            encodings_bytes(block.column_types, block.column_types.len()),
            block.column_types,
            block.position_count,
            k,
        ) == Ok::<(Seq<Seq<ValueView>>, int), Seq<char>>(
            (
                block.columns.subrange(0, k as int),
                pos + bodies_bytes(block.column_types, block.columns, k).len(),
            ),
        ),
    decreases k,
{
    if k == 0 {
        assert(block.columns.subrange(0, 0) =~= Seq::empty());
    } else {
        let before = bodies_bytes(block.column_types, block.columns, (k - 1) as nat);
        let ty = block.column_types[k - 1];
        let cells = block.columns[k - 1];
        lemma_split(b, pos, before, body_bytes(ty, cells));
        lemma_read_bodies(b, pos, block, (k - 1) as nat);
        assert forall|i: int| 0 <= i < cells.len() implies cell_encodable(
            ty,
            #[trigger] cells[i],
        ) by {
            assert(cell_encodable(block.column_types[k - 1], block.columns[k - 1][i]));
        }
        lemma_read_body(b, pos + before.len(), ty, cells);
        assert(block.columns.subrange(0, k as int) =~= block.columns.subrange(0, k - 1).push(
            cells,
        ));
    }
}

proof fn lemma_read_types(b: Seq<u8>, pos: int, types: Seq<TSDataType>, k: nat)
    requires
        k <= types.len(),
        stands_at(b, pos, codes_bytes(types, k)),
    ensures
        take_types(b, pos, k) == Ok::<(Seq<TSDataType>, int), Seq<char>>(
            (types.subrange(0, k as int), pos + k),
        ),
    decreases k,
{
    if k == 0 {
        assert(types.subrange(0, 0) =~= Seq::empty());
    } else {
        let code = type_code_of(types[k - 1]) as u8;
        let before = codes_bytes(types, (k - 1) as nat);
        assert(codes_bytes(types, k) =~= before + seq![code]);
        lemma_split(b, pos, before, seq![code]);
        lemma_read_types(b, pos, types, (k - 1) as nat);
        lemma_read_u8(b, pos + before.len(), code);
        law_type_of_code_inverts_code(types[k - 1]);
        assert(types.subrange(0, k as int) =~= types.subrange(0, k - 1).push(types[k - 1]));
    }
}

proof fn lemma_read_encodings(b: Seq<u8>, pos: int, types: Seq<TSDataType>, k: nat)
    requires
        k <= types.len(),
        stands_at(b, pos, encodings_bytes(types, k)),
    ensures
        take_encodings(b, pos, k) == Ok::<(Seq<u8>, int), Seq<char>>(
            (encodings_bytes(types, k), pos + k),
        ),
    decreases k,
{
    if k > 0 {
        let encoding = encoding_of(types[k - 1]);
        let before = encodings_bytes(types, (k - 1) as nat);
        assert(encodings_bytes(types, k) =~= before + seq![encoding]);
        lemma_split(b, pos, before, seq![encoding]);
        lemma_read_encodings(b, pos, types, (k - 1) as nat);
        lemma_read_u8(b, pos + before.len(), encoding);
        assert(encodings_bytes(types, k) =~= before.push(encoding));
    } else {
        assert(encodings_bytes(types, 0) =~= Seq::empty());
    }
}

proof fn lemma_times(timestamps: Seq<i64>, k: nat)
    requires
        k <= timestamps.len(),
    ensures
        time_values(time_cells(timestamps), k) == Ok::<Seq<i64>, Seq<char>>(
            timestamps.subrange(0, k as int),
        ),
    decreases k,
{
    if k == 0 {
        assert(timestamps.subrange(0, 0) =~= Seq::empty());
    } else {
        lemma_times(timestamps, (k - 1) as nat);
        assert(timestamps.subrange(0, k as int) =~= timestamps.subrange(0, k - 1).push(
            timestamps[k - 1],
        ));
    }
}

/// A run-length encoded column body: the encoding of its one cell, and the
/// cell as a column of one row.
pub open spec fn run_bytes(ty: TSDataType, cell: ValueView) -> Seq<u8> {
    seq![encoding_of(ty)] + body_bytes(ty, seq![cell])
}

/// A run-length encoded column holds its one cell in every row, and takes up
/// the same bytes however many rows the block has.
pub proof fn law_run_length_column_repeats_its_cell(
    b: Seq<u8>,
    pos: int,
    ty: TSDataType,
    cell: ValueView,
    count: nat,
)
    requires
        cell_encodable(ty, cell),
        stands_at(b, pos, run_bytes(ty, cell)),
    ensures
        take_column(b, pos, ENCODING_RLE, ty, count) == Ok::<(Seq<ValueView>, int), Seq<char>>(
            (Seq::new(count, |i: int| cell), pos + run_bytes(ty, cell).len()),
        ),
{
    let single = seq![cell];
    lemma_split(b, pos, seq![encoding_of(ty)], body_bytes(ty, single));
    lemma_read_u8(b, pos, encoding_of(ty));
    lemma_read_body(b, pos + 1, ty, single);
    let read = take_column(b, pos, ENCODING_RLE, ty, count);
    assert(read is Ok);
    assert((read->Ok_0).0 =~= Seq::new(count, |i: int| cell));
}

/// Decoding the bytes of a block gives the block back, whatever follows them:
/// timestamps, types, values and nulls.
pub proof fn law_decoding_inverts_the_format(block: TsBlockView, rest: Seq<u8>)
    requires
        encodable(block),
    ensures
        block_of(block_bytes(block) + rest) == Ok::<TsBlockView, Seq<char>>(block),
{
    let b = block_bytes(block) + rest;
    let types = block.column_types;
    let n = types.len();
    let count = block.position_count;
    let cells = time_cells(block.timestamps);
    let s1 = i32_bytes(n as int);
    let s2 = codes_bytes(types, n);
    let s3 = i32_bytes(count as int);
    let s4 = seq![ENCODING_INT64_ARRAY];
    let s5 = encodings_bytes(types, n);
    let s6 = body_bytes(TSDataType::Int64, cells);
    let s7 = bodies_bytes(types, block.columns, n);
    lemma_stands_first(block_bytes(block), rest);
    lemma_split(b, 0, s1, s2 + (s3 + (s4 + (s5 + (s6 + s7)))));
    lemma_read_i32(b, 0, n as int);
    let p1: int = 4;
    lemma_split(b, p1, s2, s3 + (s4 + (s5 + (s6 + s7))));
    lemma_read_types(b, p1, types, n);
    let p2 = p1 + n;
    lemma_split(b, p2, s3, s4 + (s5 + (s6 + s7)));
    lemma_read_i32(b, p2, count as int);
    let p3 = p2 + 4;
    lemma_split(b, p3, s4, s5 + (s6 + s7));
    lemma_read_u8(b, p3, ENCODING_INT64_ARRAY);
    let p4 = p3 + 1;
    lemma_split(b, p4, s5, s6 + s7);
    lemma_read_encodings(b, p4, types, n);
    let p5 = p4 + n;
    lemma_split(b, p5, s6, s7);
    lemma_read_body(b, p5, TSDataType::Int64, cells);
    lemma_times(block.timestamps, count);
    assert(block.timestamps.subrange(0, count as int) =~= block.timestamps);
    let p6 = p5 + s6.len();
    lemma_read_bodies(b, p6, block, n);
    assert(block.columns.subrange(0, n as int) =~= block.columns);
    assert(types.subrange(0, n as int) =~= types);
    assert(block_of(b)->Ok_0 =~= block);
}

} // verus!
