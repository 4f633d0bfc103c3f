//! How the parts of a block are read, and which bytes are refused.

use vstd::prelude::*;
use vstd::utf8::{decode_utf8, valid_utf8};

use super::bitmap::{msb_bit, packed_len};
use super::tsblock::{
    agrees, binary_cell, block_of, cell_agrees, int32_cell, int64_cell, take, take_binary,
    take_body, take_cell, take_cells, take_column, take_columns, take_encodings, take_i32, take_nulls,
    take_plain_column, take_rows, take_types, take_u8, time_values, utf8_error_text, Decoded,
    TsBlockView,
};
use super::value::{object_text, value_text, value_type, Value, ValueView};
use super::{data_type_name, law_code_inverts_type_of_code, type_of_code, TSDataType};
use crate::error::{Error, ErrorView};
use crate::text::{decimal, signed_decimal};
use crate::wire::{be_nat, signed32, signed64};

verus! {

/// Bytes are there if and only if the buffer reaches behind them; they are
/// those at the offset, and reading goes on behind them. Otherwise the
/// complaint says how many were needed, where, and how many there are.
pub proof fn law_bytes_are_taken(b: Seq<u8>, pos: int, n: int)
    requires
        0 <= pos <= b.len(),
        0 <= n,
    ensures
        take(b, pos, n) is Ok <==> n <= b.len() - pos,
        take(b, pos, n) matches Ok((bytes, end)) ==> {
            &&& end == pos + n
            &&& bytes.len() == n
            &&& forall|i: int| 0 <= i < n ==> #[trigger] bytes[i] == b[pos + i]
        },
        take(b, pos, n) matches Err(m) ==> m == "truncated TsBlock: need "@ + decimal(n as nat)
            + " bytes at offset "@ + decimal(pos as nat) + ", have "@ + decimal(
            (b.len() - pos) as nat,
        ),
        take_u8(b, pos) matches Ok((byte, end)) ==> byte == b[pos] && end == pos + 1,
        take_u8(b, pos) is Ok <==> pos < b.len(),
        take_i32(b, pos) is Ok <==> pos + 4 <= b.len(),
        take_i32(b, pos) matches Ok((x, end)) ==> end == pos + 4 && x == signed32(
            be_nat(b.subrange(pos, pos + 4)),
        ),
{
}

/// As many bytes as needed hold packed bits, and no more.
pub proof fn law_packed_len(count: int)
    requires
        0 <= count,
    ensures
        8 * packed_len(count) >= count,
        8 * packed_len(count) < count + 8,
{
}

/// A length-prefixed string takes a length of four bytes, which must not be
/// negative, and as many bytes as it says.
pub proof fn law_strings_have_lengths(b: Seq<u8>, pos: int)
    requires
        0 <= pos,
        pos + 4 <= b.len(),
    ensures
        ({
            let len = signed32(be_nat(b.subrange(pos, pos + 4)));
            &&& len < 0 ==> take_binary(b, pos) == Err::<(Seq<u8>, int), Seq<char>>(
                "negative binary length: "@ + signed_decimal(len),
            )
            &&& len >= 0 ==> take_binary(b, pos) == take(b, pos + 4, len)
        }),
{
}

/// A column whose flag byte is zero has no null, and the flag is all that it
/// says about nulls. After any other flag byte, one bit per row says which rows
/// are null.
pub proof fn law_null_flags(b: Seq<u8>, pos: int, count: nat)
    requires
        0 <= pos < b.len(),
    ensures
        b[pos] == 0 ==> {
            &&& take_nulls(b, pos, count) is Ok
            &&& (take_nulls(b, pos, count)->Ok_0).1 == pos + 1
            &&& (take_nulls(b, pos, count)->Ok_0).0.len() == count
            &&& forall|i: int|
                0 <= i < count ==> !#[trigger] (take_nulls(b, pos, count)->Ok_0).0[i]
        },
        b[pos] != 0 && pos + 1 + packed_len(count as int) <= b.len() ==> {
            &&& take_nulls(b, pos, count) is Ok
            &&& (take_nulls(b, pos, count)->Ok_0).1 == pos + 1 + packed_len(count as int)
            &&& (take_nulls(b, pos, count)->Ok_0).0.len() == count
            &&& forall|i: int|
                0 <= i < count ==> #[trigger] (take_nulls(b, pos, count)->Ok_0).0[i] == msb_bit(
                    b.subrange(pos + 1, pos + 1 + packed_len(count as int)),
                    i,
                )
        },
        b[pos] != 0 && pos + 1 + packed_len(count as int) > b.len() ==> take_nulls(b, pos, count)
            is Err,
{
}

/// A column of bits has a bit for every row, null or not. A row that is not null
/// is the boolean that its bit says, whatever the column's type.
pub proof fn law_bit_columns(b: Seq<u8>, pos: int, ty: TSDataType, count: nat, i: int)
    requires
        0 <= pos < b.len(),
        0 <= i < count,
        take_plain_column(b, pos, 0, ty, count) is Ok,
    ensures
        ({
            let (cells, end) = take_plain_column(b, pos, 0, ty, count)->Ok_0;
            let (nulls, p) = take_nulls(b, pos, count)->Ok_0;
            &&& take_nulls(b, pos, count) is Ok
            &&& cells.len() == count
            &&& end == p + packed_len(count as int)
            &&& nulls[i] ==> cells[i] == ValueView::Null
            &&& !nulls[i] ==> cells[i] == ValueView::Boolean(msb_bit(b.subrange(p, end), i))
        }),
{
}

/// In a column with values of their own, null rows take no bytes and every other
/// row is read behind the one before it.
pub proof fn law_dense_columns(
    b: Seq<u8>,
    pos: int,
    encoding: u8,
    ty: TSDataType,
    nulls: Seq<bool>,
    k: nat,
)
    requires
        k < nulls.len(),
        take_cells(b, pos, encoding, ty, nulls, k) is Ok,
    ensures
        ({
            let (cells, p) = take_cells(b, pos, encoding, ty, nulls, k)->Ok_0;
            let more = take_cells(b, pos, encoding, ty, nulls, k + 1);
            &&& k == 0 ==> cells.len() == 0 && p == pos
            &&& nulls[k as int] ==> more == Ok::<(Seq<ValueView>, int), Seq<char>>(
                (cells.push(ValueView::Null), p),
            )
            &&& !nulls[k as int] ==> match take_cell(b, p, encoding, ty) {
                Ok((cell, q)) => more == Ok::<(Seq<ValueView>, int), Seq<char>>(
                    (cells.push(cell), q),
                ),
                Err(m) => more == Err::<(Seq<ValueView>, int), Seq<char>>(m),
            }
        }),
{
}

/// A value takes four bytes, eight bytes or a length and as many bytes,
/// according to the encoding of its column.
pub proof fn law_value_widths(b: Seq<u8>, pos: int, ty: TSDataType)
    requires
        0 <= pos <= b.len(),
    ensures
        pos + 4 <= b.len() ==> take_cell(b, pos, 1, ty) == match int32_cell(
            ty,
            be_nat(b.subrange(pos, pos + 4)),
        ) {
            Ok(v) => Ok::<(ValueView, int), Seq<char>>((v, pos + 4)),
            Err(m) => Err(m),
        },
        pos + 8 <= b.len() ==> take_cell(b, pos, 2, ty) == match int64_cell(
            ty,
            be_nat(b.subrange(pos, pos + 8)),
        ) {
            Ok(v) => Ok::<(ValueView, int), Seq<char>>((v, pos + 8)),
            Err(m) => Err(m),
        },
        take_binary(b, pos) matches Ok((bytes, end)) ==> take_cell(b, pos, 3, ty)
            == match binary_cell(ty, bytes) {
            Ok(v) => Ok::<(ValueView, int), Seq<char>>((v, end)),
            Err(m) => Err(m),
        },
        pos + 4 > b.len() ==> take_cell(b, pos, 1, ty) is Err && take_cell(b, pos, 3, ty) is Err,
        pos + 8 > b.len() ==> take_cell(b, pos, 2, ty) is Err,
{
}

/// Four bytes make an integer, a date or a float, as the column's type says, and
/// fit no other type. Integers and dates read as two's complement, floats keep
/// their bits.
pub proof fn law_four_byte_values(ty: TSDataType, pattern: nat)
    requires
        pattern < 0x1_0000_0000,
    ensures
        int32_cell(ty, pattern) is Ok <==> ty is Int32 || ty is Date || ty is Float,
        int32_cell(ty, pattern) matches Ok(v) ==> value_type(v) == Some(ty),
        ty is Int32 ==> (int32_cell(ty, pattern)->Ok_0)->Int32_0 == signed32(pattern),
        ty is Date ==> (int32_cell(ty, pattern)->Ok_0)->Date_0 == signed32(pattern),
        ty is Float ==> (int32_cell(ty, pattern)->Ok_0)->Float_0 == pattern,
        int32_cell(ty, pattern) matches Err(m) ==> m
            == "Int32Array encoding with incompatible type "@ + data_type_name(ty),
{
}

/// Eight bytes make an integer, a timestamp or a double, as the column's type
/// says, and fit no other type. Integers and timestamps read as two's
/// complement, doubles keep their bits.
pub proof fn law_eight_byte_values(ty: TSDataType, pattern: nat)
    requires
        pattern < 0x1_0000_0000_0000_0000,
    ensures
        int64_cell(ty, pattern) is Ok <==> ty is Int64 || ty is Timestamp || ty is Double,
        int64_cell(ty, pattern) matches Ok(v) ==> value_type(v) == Some(ty),
        ty is Int64 ==> (int64_cell(ty, pattern)->Ok_0)->Int64_0 == signed64(pattern),
        ty is Timestamp ==> (int64_cell(ty, pattern)->Ok_0)->Timestamp_0 == signed64(pattern),
        ty is Double ==> (int64_cell(ty, pattern)->Ok_0)->Double_0 == pattern,
        int64_cell(ty, pattern) matches Err(m) ==> m
            == "Int64Array encoding with incompatible type "@ + data_type_name(ty),
{
}

/// A byte string makes a blob, a text or a string, or describes a stored object,
/// as the column's type says, and fits no other type. Blobs are the bytes
/// themselves, texts and strings what they spell in UTF-8; bytes that are not
/// UTF-8 are refused there.
pub proof fn law_byte_string_values(ty: TSDataType, bytes: Seq<u8>)
    ensures
        ty is Blob ==> binary_cell(ty, bytes) == Ok::<ValueView, Seq<char>>(ValueView::Blob(bytes)),
        ty is Text && valid_utf8(bytes) ==> binary_cell(ty, bytes) == Ok::<ValueView, Seq<char>>(
            ValueView::Text(decode_utf8(bytes)),
        ),
        ty is String && valid_utf8(bytes) ==> binary_cell(ty, bytes) == Ok::<ValueView, Seq<char>>(
            ValueView::String(decode_utf8(bytes)),
        ),
        (ty is Text || ty is String) && !valid_utf8(bytes) ==> binary_cell(ty, bytes) == Err::<
            ValueView,
            Seq<char>,
        >("invalid UTF-8 in text column: "@ + utf8_error_text(bytes)),
        ty is Object ==> match object_text(bytes) {
            Ok(text) => binary_cell(ty, bytes) == Ok::<ValueView, Seq<char>>(
                ValueView::String(text),
            ),
            Err(m) => binary_cell(ty, bytes) == Err::<ValueView, Seq<char>>(m),
        },
        !(ty is Blob) && !(ty is Text) && !(ty is String) && !(ty is Object) ==> binary_cell(
            ty,
            bytes,
        ) == Err::<ValueView, Seq<char>>(
            "BinaryArray encoding with incompatible type "@ + data_type_name(ty),
        ),
{
}

/// Encodings beyond the known ones are refused.
pub proof fn law_unknown_encodings_are_refused(
    b: Seq<u8>,
    pos: int,
    encoding: u8,
    ty: TSDataType,
    count: nat,
)
    requires
        encoding > 4,
    ensures
        take_column(b, pos, encoding, ty, count) == Err::<(Seq<ValueView>, int), Seq<char>>(
            "unknown column encoding "@ + decimal(encoding as nat),
        ),
{
}

/// Column types are the types that their codes name, one byte each; a code that
/// names none is refused.
pub proof fn law_column_types(b: Seq<u8>, pos: int, k: nat, c: int)
    requires
        0 <= pos,
        pos + k <= b.len(),
        0 <= c < k,
    ensures
        take_types(b, pos, k) is Ok <==> forall|i: int|
            pos <= i < pos + k ==> (#[trigger] b[i]) <= 12,
        take_types(b, pos, k) matches Ok((types, end)) ==> {
            &&& end == pos + k
            &&& types.len() == k
            &&& type_of_code(b[pos + c] as int) == Some(types[c])
        },
        b[pos + c] > 12 && (forall|i: int| pos <= i < pos + c ==> (#[trigger] b[i]) <= 12)
            ==> take_types(b, pos, k) == Err::<(Seq<TSDataType>, int), Seq<char>>(
            "unknown TSDataType code "@ + decimal(b[pos + c] as nat),
        ),
    decreases k,
{
    law_code_inverts_type_of_code(b[pos + k - 1] as int);
    if k > 1 {
        if c < k - 1 {
            law_column_types(b, pos, (k - 1) as nat, c);
        } else {
            law_column_types(b, pos, (k - 1) as nat, 0);
        }
    } else {
        assert(take_types(b, pos, 0) == Ok::<(Seq<TSDataType>, int), Seq<char>>(
            (Seq::empty(), pos),
        ));
    }
    assert(take_u8(b, pos + k - 1) == Ok::<(u8, int), Seq<char>>((b[pos + k - 1], pos + k)));
}

/// Column encodings are the bytes that stand there, one per column.
pub proof fn law_column_encodings(b: Seq<u8>, pos: int, k: nat)
    requires
        0 <= pos <= b.len(),
    ensures
        take_encodings(b, pos, k) is Ok <==> pos + k <= b.len(),
        take_encodings(b, pos, k) matches Ok((encodings, end)) ==> end == pos + k && encodings
            == b.subrange(pos, pos + k),
    decreases k,
{
    if k > 0 {
        law_column_encodings(b, pos, (k - 1) as nat);
        if pos + k <= b.len() {
            assert(take_u8(b, pos + k - 1) == Ok::<(u8, int), Seq<char>>((b[pos + k - 1], pos
                + k)));
            assert(b.subrange(pos, pos + k) =~= b.subrange(pos, pos + k - 1).push(
                b[pos + k - 1],
            ));
        }
    } else {
        assert(b.subrange(pos, pos) =~= Seq::empty());
    }
}

/// A time column must hold 64-bit integers throughout: they are the timestamps,
/// and the first other cell is named in the complaint.
pub proof fn law_time_columns(cells: Seq<ValueView>, k: nat)
    requires
        k <= cells.len(),
    ensures
        match time_values(cells, k) {
            Ok(times) => times.len() == k && forall|i: int|
                0 <= i < k ==> #[trigger] cells[i] == ValueView::Int64(times[i]),
            Err(m) => exists|i: int|
                {
                    &&& 0 <= i < k
                    &&& !((#[trigger] cells[i]) is Int64)
                    &&& m == "time column contains non-INT64 value: "@ + value_text(cells[i])
                    &&& forall|j: int| 0 <= j < i ==> (#[trigger] cells[j]) is Int64
                },
        },
    decreases k,
{
    if k > 0 {
        law_time_columns(cells, (k - 1) as nat);
        assert(cells[k - 1] == cells[k - 1]);
    }
}

/// A block whose count of columns is missing or negative is refused.
pub proof fn law_blocks_begin_with_a_count(b: Seq<u8>)
    ensures
        b.len() < 4 ==> block_of(b) == Err::<TsBlockView, Seq<char>>(
            "truncated TsBlock: need "@ + decimal(4) + " bytes at offset "@ + decimal(0)
                + ", have "@ + decimal(b.len()),
        ),
        b.len() >= 4 && signed32(be_nat(b.take(4))) < 0 ==> block_of(b) == Err::<
            TsBlockView,
            Seq<char>,
        >("negative valueColumnCount: "@ + signed_decimal(signed32(be_nat(b.take(4))))),
{
    if b.len() >= 4 {
        assert(b.take(4) =~= b.subrange(0, 4));
    }
}

/// A block that decodes has as many columns as its first four bytes say, of the
/// types that the bytes behind them name, and as many rows as the four bytes
/// behind those say.
pub proof fn law_block_header(b: Seq<u8>)
    ensures
        block_of(b) matches Ok(block) ==> {
            let n = signed32(be_nat(b.subrange(0, 4)));
            &&& n >= 0
            &&& block.column_types.len() == n
            &&& block.columns.len() == n
            &&& 9 + 2 * n <= b.len()
            &&& forall|c: int|
                0 <= c < n ==> type_of_code(b[4 + c] as int) == Some(
                    #[trigger] block.column_types[c],
                )
            &&& block.position_count == signed32(be_nat(b.subrange(4 + n, 8 + n)))
            &&& block.timestamps.len() == block.position_count
        },
{
    if let Ok(block) = block_of(b) {
        let n = signed32(be_nat(b.subrange(0, 4)));
        lemma_types_end(b, 4, n as nat);
        let types = (take_types(b, 4, n as nat)->Ok_0).0;
        assert forall|c: int| 0 <= c < n implies type_of_code(b[4 + c] as int) == Some(
            #[trigger] types[c],
        ) by {
            law_column_types(b, 4, n as nat, c);
        }
        law_column_encodings(b, 9 + n, n as nat);
        let encodings = (take_encodings(b, 9 + n, n as nat)->Ok_0).0;
        let count = signed32(be_nat(b.subrange(4 + n, 8 + n))) as nat;
        let (cells, p) = take_column(b, 9 + 2 * n, b[8 + n], TSDataType::Int64, count)->Ok_0;
        lemma_columns_count(b, p, encodings, types, count, n as nat);
        lemma_times_count(cells, count);
    }
}

proof fn lemma_types_end(b: Seq<u8>, pos: int, k: nat)
    requires
        0 <= pos <= b.len(),
    ensures
        take_types(b, pos, k) matches Ok((types, end)) ==> end == pos + k && end <= b.len()
            && types.len() == k,
    decreases k,
{
    if k > 0 {
        lemma_types_end(b, pos, (k - 1) as nat);
    }
}

proof fn lemma_columns_count(
    b: Seq<u8>,
    pos: int,
    encodings: Seq<u8>,
    types: Seq<TSDataType>,
    count: nat,
    k: nat,
)
    ensures
        take_columns(b, pos, encodings, types, count, k) matches Ok((columns, _)) ==> columns.len()
            == k,
    decreases k,
{
    if k > 0 {
        lemma_columns_count(b, pos, encodings, types, count, (k - 1) as nat);
    }
}

proof fn lemma_times_count(cells: Seq<ValueView>, k: nat)
    ensures
        time_values(cells, k) matches Ok(times) ==> times.len() == k,
    decreases k,
{
    if k > 0 {
        lemma_times_count(cells, (k - 1) as nat);
    }
}

/// A count of rows that is negative is refused.
pub proof fn law_row_counts(b: Seq<u8>, pos: int, types: Seq<TSDataType>)
    requires
        0 <= pos,
        pos + 4 <= b.len(),
        signed32(be_nat(b.subrange(pos, pos + 4))) < 0,
    ensures
        take_rows(b, pos, types) == Err::<TsBlockView, Seq<char>>(
            "negative positionCount: "@ + signed_decimal(
                signed32(be_nat(b.subrange(pos, pos + 4))),
            ),
        ),
{
}

/// An outcome agrees with what is specified in just two ways: both are values,
/// with the same value and end, or both are complaints, with the same text.
pub proof fn law_outcomes_agree<T, U>(
    outcome: std::result::Result<T, Error>,
    value: spec_fn(T) -> U,
    end: int,
    expected: Decoded<U>,
)
    requires
        agrees(outcome, value, end, expected),
    ensures
        outcome is Ok <==> expected is Ok,
        outcome is Ok ==> value(outcome->Ok_0) == (expected->Ok_0).0 && end == (expected->Ok_0).1,
        outcome is Err ==> outcome->Err_0@ == ErrorView::Decode(expected->Err_0),
{
}

/// A cell agrees with what is specified in just two ways: both are values and
/// the same, or both are complaints with the same text.
pub proof fn law_cells_agree(
    outcome: std::result::Result<Value, Error>,
    expected: std::result::Result<ValueView, Seq<char>>,
)
    requires
        cell_agrees(outcome, expected),
    ensures
        outcome is Ok <==> expected is Ok,
        outcome is Ok ==> outcome->Ok_0@ == expected->Ok_0,
        outcome is Err ==> outcome->Err_0@ == ErrorView::Decode(expected->Err_0),
{
}

/// The value columns of a block follow one another, each read with its own
/// encoding and type behind the one before.
pub proof fn law_columns_follow_one_another(
    b: Seq<u8>,
    pos: int,
    encodings: Seq<u8>,
    types: Seq<TSDataType>,
    count: nat,
    k: nat,
)
    requires
        take_columns(b, pos, encodings, types, count, k) is Ok,
    ensures
        ({
            let (columns, p) = take_columns(b, pos, encodings, types, count, k)->Ok_0;
            let more = take_columns(b, pos, encodings, types, count, k + 1);
            &&& columns.len() == k
            &&& k == 0 ==> p == pos
            &&& match take_column(b, p, encodings[k as int], types[k as int], count) {
                Ok((column, q)) => more == Ok::<(Seq<Seq<ValueView>>, int), Seq<char>>(
                    (columns.push(column), q),
                ),
                Err(m) => more == Err::<(Seq<Seq<ValueView>>, int), Seq<char>>(m),
            }
        }),
{
    lemma_columns_count(b, pos, encodings, types, count, k);
}

/// Behind the header of a block stands its time column, of 64-bit integers, and
/// behind that its value columns, all with the same number of rows.
pub proof fn law_time_comes_before_the_columns(
    b: Seq<u8>,
    pos: int,
    types: Seq<TSDataType>,
    count: nat,
    time_encoding: u8,
    encodings: Seq<u8>,
)
    ensures
        take_body(b, pos, types, count, time_encoding, encodings) matches Ok(block) ==> {
            let time = take_column(b, pos, time_encoding, TSDataType::Int64, count);
            &&& time is Ok
            &&& time_values((time->Ok_0).0, count) == Ok::<Seq<i64>, Seq<char>>(block.timestamps)
            &&& take_columns(b, (time->Ok_0).1, encodings, types, count, types.len()) is Ok
            &&& block.columns == (take_columns(
                b,
                (time->Ok_0).1,
                encodings,
                types,
                count,
                types.len(),
            )->Ok_0).0
            &&& block.column_types == types
            &&& block.position_count == count
        },
        take_body(b, pos, types, count, time_encoding, encodings) is Err ==> {
            let time = take_column(b, pos, time_encoding, TSDataType::Int64, count);
            ||| time is Err
            ||| time_values((time->Ok_0).0, count) is Err
            ||| take_columns(b, (time->Ok_0).1, encodings, types, count, types.len()) is Err
        },
{
}

} // verus!
