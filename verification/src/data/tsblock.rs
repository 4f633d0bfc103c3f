//! TsBlock decoder — the binary query-result format returned in
//! `queryResult` by the V2 RPCs. All integers big-endian.

use vstd::prelude::*;
use vstd::slice::slice_subrange;
use vstd::string::*;
use vstd::utf8::{decode_utf8, valid_utf8};

use super::bitmap::{msb_bit, packed_len, unpack_bits_msb_first};
use super::value::{
    object_bytes_to_string, object_text, value_text, Float32, Float64, Value, ValueView,
};
use super::{data_type_name, type_of_code, TSDataType};
use crate::error::{Error, ErrorView, Result};
use crate::text::{
    decimal, push_decimal, signed_decimal, text_and_number, text_and_signed,
};
use crate::wire::{be_nat, read_be, read_i32_be, read_i64_be, signed32, signed64};

verus! {

/// Column encoding: one packed bit per row.
pub const ENCODING_BYTE_ARRAY: u8 = 0;

/// Column encoding: four bytes per non-null row.
pub const ENCODING_INT32_ARRAY: u8 = 1;

/// Column encoding: eight bytes per non-null row.
pub const ENCODING_INT64_ARRAY: u8 = 2;

/// Column encoding: a length and that many bytes per non-null row.
pub const ENCODING_BINARY_ARRAY: u8 = 3;

/// Column encoding: one value, repeated for every row.
pub const ENCODING_RLE: u8 = 4;

/// One decoded TsBlock: `position_count` rows of a time column plus
/// `columns.len()` value columns. Null cells are [`Value::Null`].
#[derive(Debug, Clone, PartialEq)]
pub struct TsBlock {
    pub position_count: usize,
    pub column_types: Vec<TSDataType>,
    /// Time column, always present on the wire — the caller drops it when
    /// `ignoreTimeStamp` is set.
    pub timestamps: Vec<i64>,
    /// `columns[col][row]`; nulls decoded as [`Value::Null`].
    pub columns: Vec<Vec<Value>>,
}

/// A block with its columns as sequences.
#[verifier::ext_equal]
pub struct TsBlockView {
    pub position_count: nat,
    pub column_types: Seq<TSDataType>,
    pub timestamps: Seq<i64>,
    pub columns: Seq<Seq<ValueView>>,
}

/// The cells of a column.
pub open spec fn column_view(column: Vec<Value>) -> Seq<ValueView> {
    column@.map_values(|v: Value| v@)
}

/// The cells of several columns.
pub open spec fn block_columns(columns: Seq<Vec<Value>>) -> Seq<Seq<ValueView>> {
    columns.map_values(|c: Vec<Value>| column_view(c))
}

impl View for TsBlock {
    type V = TsBlockView;

    open spec fn view(&self) -> TsBlockView {
        TsBlockView {
            position_count: self.position_count as nat,
            column_types: self.column_types@,
            timestamps: self.timestamps@,
            columns: block_columns(self.columns@),
        }
    }
}

impl TsBlockView {
    /// Every column has one cell per row, and there is one column per type.
    pub open spec fn wf(self) -> bool {
        &&& self.timestamps.len() == self.position_count
        &&& self.columns.len() == self.column_types.len()
        &&& forall|c: int|
            0 <= c < self.columns.len() ==> (#[trigger] self.columns[c]).len()
                == self.position_count
    }
}

/// What decoding at some offset gives: a value and the offset behind it, or
/// the complaint.
pub type Decoded<T> = std::result::Result<(T, int), Seq<char>>;

/// The complaint about bytes that are not there.
pub open spec fn truncated_text(need: int, offset: int, have: int) -> Seq<char> {
    "truncated TsBlock: need "@ + decimal(need as nat) + " bytes at offset "@ + decimal(
        offset as nat,
    ) + ", have "@ + decimal(have as nat)
}

/// The next `n` bytes.
pub open spec fn take(b: Seq<u8>, pos: int, n: int) -> Decoded<Seq<u8>> {
    if pos + n <= b.len() {
        Ok((b.subrange(pos, pos + n), pos + n))
    } else {
        Err(truncated_text(n, pos, b.len() - pos))
    }
}

/// The next byte.
pub open spec fn take_u8(b: Seq<u8>, pos: int) -> Decoded<u8> {
    match take(b, pos, 1) {
        Ok((bytes, p)) => Ok((bytes[0], p)),
        Err(m) => Err(m),
    }
}

/// The next four bytes as a 32-bit integer.
pub open spec fn take_i32(b: Seq<u8>, pos: int) -> Decoded<int> {
    match take(b, pos, 4) {
        Ok((bytes, p)) => Ok((signed32(be_nat(bytes)), p)),
        Err(m) => Err(m),
    }
}

/// The next `count` bits, packed most significant bit first.
pub open spec fn take_bits(b: Seq<u8>, pos: int, count: nat) -> Decoded<Seq<bool>> {
    match take(b, pos, packed_len(count as int)) {
        Ok((bytes, p)) => Ok((Seq::new(count, |i: int| msb_bit(bytes, i)), p)),
        Err(m) => Err(m),
    }
}

/// A column's null flags: one byte that says whether any follow, then one
/// packed bit per row where it is not zero.
pub open spec fn take_nulls(b: Seq<u8>, pos: int, count: nat) -> Decoded<Seq<bool>> {
    match take_u8(b, pos) {
        Ok((may_have_null, p)) => if may_have_null == 0 {
            Ok((Seq::new(count, |i: int| false), p))
        } else {
            take_bits(b, p, count)
        },
        Err(m) => Err(m),
    }
}

/// What a 32-bit pattern is as a cell of a column of type `ty`.
pub open spec fn int32_cell(ty: TSDataType, pattern: nat) -> std::result::Result<
    ValueView,
    Seq<char>,
> {
    match ty {
        TSDataType::Int32 => Ok(ValueView::Int32(signed32(pattern) as i32)),
        TSDataType::Date => Ok(ValueView::Date(signed32(pattern) as i32)),
        TSDataType::Float => Ok(ValueView::Float(pattern as u32)),
        _ => Err("Int32Array encoding with incompatible type "@ + data_type_name(ty)),
    }
}

/// What a 64-bit pattern is as a cell of a column of type `ty`.
pub open spec fn int64_cell(ty: TSDataType, pattern: nat) -> std::result::Result<
    ValueView,
    Seq<char>,
> {
    match ty {
        TSDataType::Int64 => Ok(ValueView::Int64(signed64(pattern) as i64)),
        TSDataType::Timestamp => Ok(ValueView::Timestamp(signed64(pattern) as i64)),
        TSDataType::Double => Ok(ValueView::Double(pattern as u64)),
        _ => Err("Int64Array encoding with incompatible type "@ + data_type_name(ty)),
    }
}

/// What std says about bytes that are not UTF-8.
pub uninterp spec fn utf8_error_text(bytes: Seq<u8>) -> Seq<char>;

/// The text that the bytes spell in UTF-8.
pub open spec fn utf8_text(bytes: Seq<u8>) -> std::result::Result<Seq<char>, Seq<char>> {
    if valid_utf8(bytes) {
        Ok(decode_utf8(bytes))
    } else {
        Err("invalid UTF-8 in text column: "@ + utf8_error_text(bytes))
    }
}

/// What a byte string is as a cell of a column of type `ty`. An OBJECT cell
/// shows the size of the stored object.
pub open spec fn binary_cell(ty: TSDataType, bytes: Seq<u8>) -> std::result::Result<
    ValueView,
    Seq<char>,
> {
    match ty {
        TSDataType::Blob => Ok(ValueView::Blob(bytes)),
        TSDataType::Text => match utf8_text(bytes) {
            Ok(s) => Ok(ValueView::Text(s)),
            Err(m) => Err(m),
        },
        TSDataType::String => match utf8_text(bytes) {
            Ok(s) => Ok(ValueView::String(s)),
            Err(m) => Err(m),
        },
        TSDataType::Object => match object_text(bytes) {
            Ok(s) => Ok(ValueView::String(s)),
            Err(m) => Err(m),
        },
        _ => Err("BinaryArray encoding with incompatible type "@ + data_type_name(ty)),
    }
}

/// The next length-prefixed byte string.
pub open spec fn take_binary(b: Seq<u8>, pos: int) -> Decoded<Seq<u8>> {
    match take_i32(b, pos) {
        Ok((len, p)) => if len < 0 {
            Err("negative binary length: "@ + signed_decimal(len))
        } else {
            take(b, p, len)
        },
        Err(m) => Err(m),
    }
}

/// A cell read from raw bytes, with the offset behind them.
pub open spec fn cell_at(cell: std::result::Result<ValueView, Seq<char>>, p: int) -> Decoded<
    ValueView,
> {
    match cell {
        Ok(v) => Ok((v, p)),
        Err(m) => Err(m),
    }
}

/// The next non-null cell of a column with one of the dense encodings.
pub open spec fn take_cell(b: Seq<u8>, pos: int, encoding: u8, ty: TSDataType) -> Decoded<
    ValueView,
> {
    if encoding == ENCODING_INT32_ARRAY {
        match take(b, pos, 4) {
            Ok((bytes, p)) => cell_at(int32_cell(ty, be_nat(bytes)), p),
            Err(m) => Err(m),
        }
    } else if encoding == ENCODING_INT64_ARRAY {
        match take(b, pos, 8) {
            Ok((bytes, p)) => cell_at(int64_cell(ty, be_nat(bytes)), p),
            Err(m) => Err(m),
        }
    } else {
        match take_binary(b, pos) {
            Ok((bytes, p)) => cell_at(binary_cell(ty, bytes), p),
            Err(m) => Err(m),
        }
    }
}

/// The first `k` cells of a dense column: null rows take no bytes.
pub open spec fn take_cells(
    b: Seq<u8>,
    pos: int,
    encoding: u8,
    ty: TSDataType,
    nulls: Seq<bool>,
    k: nat,
) -> Decoded<Seq<ValueView>>
    decreases k,
{
    if k == 0 {
        Ok((Seq::empty(), pos))
    } else {
        match take_cells(b, pos, encoding, ty, nulls, (k - 1) as nat) {
            Ok((cells, p)) => if nulls[k - 1] {
                Ok((cells.push(ValueView::Null), p))
            } else {
                match take_cell(b, p, encoding, ty) {
                    Ok((cell, q)) => Ok((cells.push(cell), q)),
                    Err(m) => Err(m),
                }
            },
            Err(m) => Err(m),
        }
    }
}

/// A column body that is not run-length encoded: the null flags, then the
/// values. Boolean columns hold a bit for every row, null or not.
pub open spec fn take_plain_column(
    b: Seq<u8>,
    pos: int,
    encoding: u8,
    ty: TSDataType,
    count: nat,
) -> Decoded<Seq<ValueView>> {
    if encoding > ENCODING_BINARY_ARRAY {
        Err("unknown column encoding "@ + decimal(encoding as nat))
    } else {
        match take_nulls(b, pos, count) {
            Ok((nulls, p)) => if encoding == ENCODING_BYTE_ARRAY {
                match take_bits(b, p, count) {
                    Ok((bits, q)) => Ok(
                        (
                            Seq::new(
                                count,
                                |i: int|
                                    if nulls[i] {
                                        ValueView::Null
                                    } else {
                                        ValueView::Boolean(bits[i])
                                    },
                            ),
                            q,
                        ),
                    ),
                    Err(m) => Err(m),
                }
            } else {
                take_cells(b, p, encoding, ty, nulls, count)
            },
            Err(m) => Err(m),
        }
    }
}

/// A column body of `count` rows.
pub open spec fn take_column(
    b: Seq<u8>,
    pos: int,
    encoding: u8,
    ty: TSDataType,
    count: nat,
) -> Decoded<Seq<ValueView>> {
    if encoding == ENCODING_RLE {
        match take_u8(b, pos) {
            Ok((inner, p)) => if inner == ENCODING_RLE {
                Err("nested RLE column encoding"@)
            } else {
                match take_plain_column(b, p, inner, ty, 1) {
                    Ok((single, q)) => Ok((Seq::new(count, |i: int| single[0]), q)),
                    Err(m) => Err(m),
                }
            },
            Err(m) => Err(m),
        }
    } else {
        take_plain_column(b, pos, encoding, ty, count)
    }
}

/// The first `k` column types.
pub open spec fn take_types(b: Seq<u8>, pos: int, k: nat) -> Decoded<Seq<TSDataType>>
    decreases k,
{
    if k == 0 {
        Ok((Seq::empty(), pos))
    } else {
        match take_types(b, pos, (k - 1) as nat) {
            Ok((types, p)) => match take_u8(b, p) {
                Ok((code, q)) => match type_of_code(code as int) {
                    Some(ty) => Ok((types.push(ty), q)),
                    None => Err("unknown TSDataType code "@ + decimal(code as nat)),
                },
                Err(m) => Err(m),
            },
            Err(m) => Err(m),
        }
    }
}

/// The first `k` column encodings.
pub open spec fn take_encodings(b: Seq<u8>, pos: int, k: nat) -> Decoded<Seq<u8>>
    decreases k,
{
    if k == 0 {
        Ok((Seq::empty(), pos))
    } else {
        match take_encodings(b, pos, (k - 1) as nat) {
            Ok((encodings, p)) => match take_u8(b, p) {
                Ok((encoding, q)) => Ok((encodings.push(encoding), q)),
                Err(m) => Err(m),
            },
            Err(m) => Err(m),
        }
    }
}

/// The first `k` timestamps of a decoded time column.
pub open spec fn time_values(cells: Seq<ValueView>, k: nat) -> std::result::Result<
    Seq<i64>,
    Seq<char>,
>
    decreases k,
{
    if k == 0 {
        Ok(Seq::empty())
    } else {
        match time_values(cells, (k - 1) as nat) {
            Ok(times) => match cells[k - 1] {
                ValueView::Int64(t) => Ok(times.push(t)),
                other => Err("time column contains non-INT64 value: "@ + value_text(other)),
            },
            Err(m) => Err(m),
        }
    }
}

/// The first `k` value columns.
pub open spec fn take_columns(
    b: Seq<u8>,
    pos: int,
    encodings: Seq<u8>,
    types: Seq<TSDataType>,
    count: nat,
    k: nat,
) -> Decoded<Seq<Seq<ValueView>>>
    decreases k,
{
    if k == 0 {
        Ok((Seq::empty(), pos))
    } else {
        match take_columns(b, pos, encodings, types, count, (k - 1) as nat) {
            Ok((columns, p)) => match take_column(b, p, encodings[k - 1], types[k - 1], count) {
                Ok((column, q)) => Ok((columns.push(column), q)),
                Err(m) => Err(m),
            },
            Err(m) => Err(m),
        }
    }
}

/// The columns of a block, behind its header.
pub open spec fn take_body(
    b: Seq<u8>,
    pos: int,
    types: Seq<TSDataType>,
    count: nat,
    time_encoding: u8,
    encodings: Seq<u8>,
) -> std::result::Result<TsBlockView, Seq<char>> {
    match take_column(b, pos, time_encoding, TSDataType::Int64, count) {
        Ok((cells, p)) => match time_values(cells, count) {
            Ok(timestamps) => match take_columns(b, p, encodings, types, count, types.len()) {
                Ok((columns, _)) => Ok(
                    TsBlockView { position_count: count, column_types: types, timestamps, columns },
                ),
                Err(m) => Err(m),
            },
            Err(m) => Err(m),
        },
        Err(m) => Err(m),
    }
}

/// A block from its row count on, behind the column types.
pub open spec fn take_rows(b: Seq<u8>, pos: int, types: Seq<TSDataType>) -> std::result::Result<
    TsBlockView,
    Seq<char>,
> {
    match take_i32(b, pos) {
        Ok((count, p)) => if count < 0 {
            Err("negative positionCount: "@ + signed_decimal(count))
        } else {
            match take_u8(b, p) {
                Ok((time_encoding, q)) => match take_encodings(b, q, types.len()) {
                    Ok((encodings, r)) => take_body(
                        b,
                        r,
                        types,
                        count as nat,
                        time_encoding,
                        encodings,
                    ),
                    Err(m) => Err(m),
                },
                Err(m) => Err(m),
            }
        },
        Err(m) => Err(m),
    }
}

/// The block that the bytes hold: `valueColumnCount` i32, per-column type
/// bytes, `positionCount` i32, time-column encoding byte, per-column encoding
/// bytes, then the time column followed by each value column. Bytes behind
/// the last column are not looked at.
pub open spec fn block_of(b: Seq<u8>) -> std::result::Result<TsBlockView, Seq<char>> {
    match take_i32(b, 0) {
        Ok((columns, p)) => if columns < 0 {
            Err("negative valueColumnCount: "@ + signed_decimal(columns))
        } else {
            match take_types(b, p, columns as nat) {
                Ok((types, q)) => take_rows(b, q, types),
                Err(m) => Err(m),
            }
        },
        Err(m) => Err(m),
    }
}

/// Whether an outcome is the specified one: the value and the new offset, or
/// the error with the specified complaint.
pub open spec fn agrees<T, U>(
    outcome: std::result::Result<T, Error>,
    value: spec_fn(T) -> U,
    end: int,
    expected: Decoded<U>,
) -> bool {
    match (outcome, expected) {
        (Ok(v), Ok((u, p))) => value(v) == u && end == p,
        (Err(e), Err(m)) => e@ == ErrorView::Decode(m),
        _ => false,
    }
}

/// `String::from_utf8` and the text of its error: the bytes' text when they are
/// UTF-8, and otherwise what std says about them, which `utf8_error_text` names.
#[verifier::external_body]
fn utf8_string(bytes: Vec<u8>) -> (text: std::result::Result<String, String>)
    ensures
        match text {
            Ok(s) => valid_utf8(bytes@) && s@ == decode_utf8(bytes@),
            Err(m) => !valid_utf8(bytes@) && m@ == utf8_error_text(bytes@),
        },
{
    String::from_utf8(bytes).map_err(|e| e.to_string())
}

fn text_cell(bytes: Vec<u8>) -> (text: Result<String>)
    ensures
        match (text, utf8_text(bytes@)) {
            (Ok(s), Ok(expected)) => s@ == expected,
            (Err(e), Err(m)) => e@ == ErrorView::Decode(m),
            _ => false,
        },
{
    match utf8_string(bytes) {
        Ok(s) => Ok(s),
        Err(detail) => {
            let mut m = "invalid UTF-8 in text column: ".to_owned();
            m.append(detail.as_str());
            Err(Error::Decode(m))
        },
    }
}

fn incompatible(head: &str, ty: TSDataType) -> (e: Error)
    ensures
        e@ == ErrorView::Decode(head@ + data_type_name(ty)),
{
    let mut m = head.to_owned();
    m.append(ty.name());
    Error::Decode(m)
}

/// Whether a cell is the specified one.
pub open spec fn cell_agrees(
    outcome: std::result::Result<Value, Error>,
    expected: std::result::Result<ValueView, Seq<char>>,
) -> bool {
    match (outcome, expected) {
        (Ok(v), Ok(u)) => v@ == u,
        (Err(e), Err(m)) => e@ == ErrorView::Decode(m),
        _ => false,
    }
}

fn int32_value(ty: TSDataType, bytes: &[u8]) -> (cell: Result<Value>)
    requires
        bytes@.len() == 4,
    ensures
        cell_agrees(cell, int32_cell(ty, be_nat(bytes@))),
{
    match ty {
        TSDataType::Int32 => Ok(Value::Int32(read_i32_be(bytes))),
        TSDataType::Date => Ok(Value::Date(read_i32_be(bytes))),
        TSDataType::Float => Ok(Value::Float(Float32 { bits: read_be(bytes) as u32 })),
        _ => Err(incompatible("Int32Array encoding with incompatible type ", ty)),
    }
}

fn int64_value(ty: TSDataType, bytes: &[u8]) -> (cell: Result<Value>)
    requires
        bytes@.len() == 8,
    ensures
        cell_agrees(cell, int64_cell(ty, be_nat(bytes@))),
{
    match ty {
        TSDataType::Int64 => Ok(Value::Int64(read_i64_be(bytes))),
        TSDataType::Timestamp => Ok(Value::Timestamp(read_i64_be(bytes))),
        TSDataType::Double => Ok(Value::Double(Float64 { bits: read_be(bytes) })),
        _ => Err(incompatible("Int64Array encoding with incompatible type ", ty)),
    }
}

fn binary_value(ty: TSDataType, bytes: &[u8]) -> (cell: Result<Value>)
    ensures
        cell_agrees(cell, binary_cell(ty, bytes@)),
{
    match ty {
        TSDataType::Blob => Ok(Value::Blob(bytes_vec(bytes))),
        TSDataType::Text => match text_cell(bytes_vec(bytes)) {
            Ok(s) => Ok(Value::Text(s)),
            Err(e) => Err(e),
        },
        TSDataType::String => match text_cell(bytes_vec(bytes)) {
            Ok(s) => Ok(Value::String(s)),
            Err(e) => Err(e),
        },
        TSDataType::Object => match object_bytes_to_string(bytes) {
            Ok(s) => Ok(Value::String(s)),
            Err(e) => Err(e),
        },
        _ => Err(incompatible("BinaryArray encoding with incompatible type ", ty)),
    }
}

/// The bytes of a slice as a vector.
pub(crate) fn bytes_vec(bytes: &[u8]) -> (v: Vec<u8>)
    ensures
        v@ == bytes@,
{
    let mut v: Vec<u8> = Vec::new();
    v.extend_from_slice(bytes);
    assert(v@ =~= bytes@);
    v
}

/// Bounds-checked big-endian cursor over a byte slice.
pub struct Reader<'a> {
    pub buf: &'a [u8],
    /// How much has been read.
    pub pos: usize,
}

impl<'a> Reader<'a> {
    /// The cursor stands within the bytes.
    pub open spec fn wf(self) -> bool {
        self.pos <= self.buf@.len()
    }

    /// A cursor at the first byte.
    pub fn new(buf: &'a [u8]) -> (r: Reader<'a>)
        ensures
            r.wf(),
            r.buf@ == buf@,
            r.pos == 0,
    {
        Reader { buf, pos: 0 }
    }

    /// Reads `n` bytes; where fewer are left, the cursor stays where it is.
    pub fn read_bytes(&mut self, n: usize) -> (bytes: Result<&'a [u8]>)
        requires
            old(self).wf(),
        ensures
            final(self).wf(),
            final(self).buf@ == old(self).buf@,
            agrees(
                bytes,
                |s: &'a [u8]| s@,
                final(self).pos as int,
                take(old(self).buf@, old(self).pos as int, n as int),
            ),
            bytes is Err ==> final(self).pos == old(self).pos,
    {
        if n > self.buf.len() - self.pos {
            let mut m = "truncated TsBlock: need ".to_owned();
            push_decimal(&mut m, n as u64);
            m.append(" bytes at offset ");
            push_decimal(&mut m, self.pos as u64);
            m.append(", have ");
            push_decimal(&mut m, (self.buf.len() - self.pos) as u64);
            return Err(Error::Decode(m));
        }
        let end: usize = self.pos + n;
        let slice = slice_subrange(self.buf, self.pos, end);
        self.pos = end;
        Ok(slice)
    }

    fn read_u8(&mut self) -> (byte: Result<u8>)
        requires
            old(self).wf(),
        ensures
            final(self).wf(),
            final(self).buf@ == old(self).buf@,
            agrees(
                byte,
                |x: u8| x,
                final(self).pos as int,
                take_u8(old(self).buf@, old(self).pos as int),
            ),
            byte is Err ==> final(self).pos == old(self).pos,
    {
        match self.read_bytes(1) {
            Ok(b) => Ok(b[0]),
            Err(e) => Err(e),
        }
    }

    fn read_i32(&mut self) -> (x: Result<i32>)
        requires
            old(self).wf(),
        ensures
            final(self).wf(),
            final(self).buf@ == old(self).buf@,
            agrees(
                x,
                |x: i32| x as int,
                final(self).pos as int,
                take_i32(old(self).buf@, old(self).pos as int),
            ),
            x is Err ==> final(self).pos == old(self).pos,
    {
        match self.read_bytes(4) {
            Ok(b) => Ok(read_i32_be(b)),
            Err(e) => Err(e),
        }
    }

    /// Reads `count` MSB-first packed bits (`ceil(count/8)` bytes).
    fn read_packed_bits(&mut self, count: usize) -> (bits: Result<Vec<bool>>)
        requires
            old(self).wf(),
        ensures
            final(self).wf(),
            final(self).buf@ == old(self).buf@,
            agrees(
                bits,
                |v: Vec<bool>| v@,
                final(self).pos as int,
                take_bits(old(self).buf@, old(self).pos as int, count as nat),
            ),
    {
        let len: usize = if count % 8 == 0 {
            count / 8
        } else {
            count / 8 + 1
        };
        match self.read_bytes(len) {
            Ok(bytes) => match unpack_bits_msb_first(bytes, count) {
                Some(bits) => Ok(bits),
                None => Err(Error::Decode("truncated packed bit array".to_owned())),
            },
            Err(e) => Err(e),
        }
    }

    /// Null-indicator section: 1 byte `mayHaveNull`; if non-zero, a
    /// `ceil(positionCount/8)`-byte MSB-first bitmap with bit=1 ⇒ null.
    fn read_null_indicators(&mut self, position_count: usize) -> (nulls: Result<Vec<bool>>)
        requires
            old(self).wf(),
        ensures
            final(self).wf(),
            final(self).buf@ == old(self).buf@,
            agrees(
                nulls,
                |v: Vec<bool>| v@,
                final(self).pos as int,
                take_nulls(old(self).buf@, old(self).pos as int, position_count as nat),
            ),
    {
        match self.read_u8() {
            Ok(may_have_null) => {
                if may_have_null == 0 {
                    let none: Vec<bool> = vec![false; position_count];
                    assert(none@ =~= Seq::new(position_count as nat, |i: int| false));
                    Ok(none)
                } else {
                    self.read_packed_bits(position_count)
                }
            },
            Err(e) => Err(e),
        }
    }

    /// Reads one length-prefixed byte string.
    fn read_binary(&mut self) -> (bytes: Result<&'a [u8]>)
        requires
            old(self).wf(),
        ensures
            final(self).wf(),
            final(self).buf@ == old(self).buf@,
            agrees(
                bytes,
                |s: &'a [u8]| s@,
                final(self).pos as int,
                take_binary(old(self).buf@, old(self).pos as int),
            ),
    {
        match self.read_i32() {
            Ok(len) => {
                if len < 0 {
                    Err(Error::Decode(text_and_signed("negative binary length: ", len as i64)))
                } else {
                    self.read_bytes(len as usize)
                }
            },
            Err(e) => Err(e),
        }
    }

    /// Reads one non-null cell of a column with one of the dense encodings.
    fn read_cell(&mut self, encoding: u8, ty: TSDataType) -> (cell: Result<Value>)
        requires
            old(self).wf(),
        ensures
            final(self).wf(),
            final(self).buf@ == old(self).buf@,
            agrees(
                cell,
                |v: Value| v@,
                final(self).pos as int,
                take_cell(old(self).buf@, old(self).pos as int, encoding, ty),
            ),
    {
        if encoding == ENCODING_INT32_ARRAY {
            match self.read_bytes(4) {
                Ok(bytes) => int32_value(ty, bytes),
                Err(e) => Err(e),
            }
        } else if encoding == ENCODING_INT64_ARRAY {
            match self.read_bytes(8) {
                Ok(bytes) => int64_value(ty, bytes),
                Err(e) => Err(e),
            }
        } else {
            match self.read_binary() {
                Ok(bytes) => binary_value(ty, bytes),
                Err(e) => Err(e),
            }
        }
    }

    /// Reads the cells of a dense column: null positions consume no bytes.
    fn read_cells(&mut self, encoding: u8, ty: TSDataType, nulls: &Vec<bool>) -> (cells: Result<
        Vec<Value>,
    >)
        requires
            old(self).wf(),
        ensures
            final(self).wf(),
            final(self).buf@ == old(self).buf@,
            agrees(
                cells,
                |c: Vec<Value>| column_view(c),
                final(self).pos as int,
                take_cells(
                    old(self).buf@,
                    old(self).pos as int,
                    encoding,
                    ty,
                    nulls@,
                    nulls@.len(),
                ),
            ),
    {
        let ghost b = self.buf@;
        let ghost start = self.pos as int;
        let mut out: Vec<Value> = Vec::new();
        let mut i: usize = 0;
        assert(column_view(out) =~= Seq::empty());
        while i < nulls.len()
            invariant
                self.wf(),
                self.buf@ == b,
                b == old(self).buf@,
                start == old(self).pos,
                i <= nulls@.len(),
                take_cells(b, start, encoding, ty, nulls@, i as nat) == Ok::<
                    (Seq<ValueView>, int),
                    Seq<char>,
                >((column_view(out), self.pos as int)),
            decreases nulls@.len() - i,
        {
            let ghost before = out;
            let cell = if nulls[i] {
                Value::Null
            } else {
                match self.read_cell(encoding, ty) {
                    Ok(v) => v,
                    Err(e) => {
                        proof {
                            lemma_cells_fail_early(
                                b,
                                start,
                                encoding,
                                ty,
                                nulls@,
                                (i + 1) as nat,
                                nulls@.len(),
                            );
                        }
                        return Err(e);
                    },
                }
            };
            out.push(cell);
            i += 1;
            assert(column_view(out) =~= column_view(before).push(cell@));
        }
        Ok(out)
    }

    /// Reads one column body that is not run-length encoded.
    fn read_plain_column(
        &mut self,
        encoding: u8,
        ty: TSDataType,
        position_count: usize,
    ) -> (column: Result<Vec<Value>>)
        requires
            old(self).wf(),
        ensures
            final(self).wf(),
            final(self).buf@ == old(self).buf@,
            agrees(
                column,
                |c: Vec<Value>| column_view(c),
                final(self).pos as int,
                take_plain_column(
                    old(self).buf@,
                    old(self).pos as int,
                    encoding,
                    ty,
                    position_count as nat,
                ),
            ),
    {
        if encoding > ENCODING_BINARY_ARRAY {
            return Err(
                Error::Decode(text_and_number("unknown column encoding ", encoding as u64)),
            );
        }
        let nulls = match self.read_null_indicators(position_count) {
            Ok(nulls) => nulls,
            Err(e) => return Err(e),
        };
        proof {
            lemma_nulls_len(old(self).buf@, old(self).pos as int, position_count as nat);
        }
        if encoding != ENCODING_BYTE_ARRAY {
            return self.read_cells(encoding, ty, &nulls);
        }
        // BOOLEAN values: full positionCount bit array (MSB-first),
        // NOT null-skipped — unlike the numeric encodings.
        let bits = match self.read_packed_bits(position_count) {
            Ok(bits) => bits,
            Err(e) => return Err(e),
        };
        let mut out: Vec<Value> = Vec::new();
        let mut i: usize = 0;
        while i < position_count
            invariant
                i <= position_count,
                nulls@.len() == position_count,
                bits@.len() == position_count,
                column_view(out) == Seq::new(
                    i as nat,
                    |k: int|
                        if nulls@[k] {
                            ValueView::Null
                        } else {
                            ValueView::Boolean(bits@[k])
                        },
                ),
            decreases position_count - i,
        {
            let ghost before = out;
            let cell = if nulls[i] {
                Value::Null
            } else {
                Value::Boolean(bits[i])
            };
            out.push(cell);
            i += 1;
            assert(column_view(out) =~= column_view(before).push(cell@));
        }
        Ok(out)
    }

    fn read_types(&mut self, count: usize) -> (types: Result<Vec<TSDataType>>)
        requires
            old(self).wf(),
        ensures
            final(self).wf(),
            final(self).buf@ == old(self).buf@,
            agrees(
                types,
                |t: Vec<TSDataType>| t@,
                final(self).pos as int,
                take_types(old(self).buf@, old(self).pos as int, count as nat),
            ),
    {
        let ghost b = self.buf@;
        let ghost start = self.pos as int;
        let mut types: Vec<TSDataType> = Vec::new();
        let mut i: usize = 0;
        while i < count
            invariant
                self.wf(),
                self.buf@ == b,
                b == old(self).buf@,
                start == old(self).pos,
                i <= count,
                take_types(b, start, i as nat) == Ok::<(Seq<TSDataType>, int), Seq<char>>(
                    (types@, self.pos as int),
                ),
            decreases count - i,
        {
            let code = match self.read_u8() {
                Ok(code) => code,
                Err(e) => {
                    proof {
                        lemma_types_fail_early(b, start, (i + 1) as nat, count as nat);
                    }
                    return Err(e);
                },
            };
            match TSDataType::from_code(code) {
                Some(ty) => types.push(ty),
                None => {
                    proof {
                        lemma_types_fail_early(b, start, (i + 1) as nat, count as nat);
                    }
                    return Err(
                        Error::Decode(text_and_number("unknown TSDataType code ", code as u64)),
                    );
                },
            }
            i += 1;
        }
        Ok(types)
    }

    fn read_encodings(&mut self, count: usize) -> (encodings: Result<Vec<u8>>)
        requires
            old(self).wf(),
        ensures
            final(self).wf(),
            final(self).buf@ == old(self).buf@,
            agrees(
                encodings,
                |v: Vec<u8>| v@,
                final(self).pos as int,
                take_encodings(old(self).buf@, old(self).pos as int, count as nat),
            ),
    {
        let ghost b = self.buf@;
        let ghost start = self.pos as int;
        let mut encodings: Vec<u8> = Vec::new();
        let mut i: usize = 0;
        while i < count
            invariant
                self.wf(),
                self.buf@ == b,
                b == old(self).buf@,
                start == old(self).pos,
                i <= count,
                take_encodings(b, start, i as nat) == Ok::<(Seq<u8>, int), Seq<char>>(
                    (encodings@, self.pos as int),
                ),
            decreases count - i,
        {
            match self.read_u8() {
                Ok(encoding) => encodings.push(encoding),
                Err(e) => {
                    proof {
                        lemma_encodings_fail_early(b, start, (i + 1) as nat, count as nat);
                    }
                    return Err(e);
                },
            }
            i += 1;
        }
        Ok(encodings)
    }

    fn read_columns(
        &mut self,
        encodings: &Vec<u8>,
        types: &Vec<TSDataType>,
        position_count: usize,
    ) -> (columns: Result<Vec<Vec<Value>>>)
        requires
            old(self).wf(),
            encodings@.len() == types@.len(),
        ensures
            final(self).wf(),
            final(self).buf@ == old(self).buf@,
            agrees(
                columns,
                |c: Vec<Vec<Value>>| block_columns(c@),
                final(self).pos as int,
                take_columns(
                    old(self).buf@,
                    old(self).pos as int,
                    encodings@,
                    types@,
                    position_count as nat,
                    types@.len(),
                ),
            ),
    {
        let ghost b = self.buf@;
        let ghost start = self.pos as int;
        let mut columns: Vec<Vec<Value>> = Vec::new();
        let mut i: usize = 0;
        assert(block_columns(columns@) =~= Seq::empty());
        while i < types.len()
            invariant
                self.wf(),
                self.buf@ == b,
                b == old(self).buf@,
                start == old(self).pos,
                encodings@.len() == types@.len(),
                i <= types@.len(),
                take_columns(b, start, encodings@, types@, position_count as nat, i as nat) == Ok::<
                    (Seq<Seq<ValueView>>, int),
                    Seq<char>,
                >((block_columns(columns@), self.pos as int)),
            decreases types@.len() - i,
        {
            let ghost before = columns@;
            match decode_column(self, encodings[i], types[i], position_count) {
                Ok(column) => {
                    columns.push(column);
                    assert(block_columns(columns@) =~= block_columns(before).push(
                        column_view(column),
                    ));
                },
                Err(e) => {
                    proof {
                        lemma_columns_fail_early(
                            b,
                            start,
                            encodings@,
                            types@,
                            position_count as nat,
                            (i + 1) as nat,
                            types@.len(),
                        );
                    }
                    return Err(e);
                },
            }
            i += 1;
        }
        Ok(columns)
    }
}

/// The timestamps of a decoded time column.
fn timestamps_of(cells: &Vec<Value>) -> (times: Result<Vec<i64>>)
    ensures
        match (times, time_values(column_view(*cells), cells@.len())) {
            (Ok(t), Ok(expected)) => t@ == expected,
            (Err(e), Err(m)) => e@ == ErrorView::Decode(m),
            _ => false,
        },
{
    let mut times: Vec<i64> = Vec::new();
    let mut i: usize = 0;
    while i < cells.len()
        invariant
            i <= cells@.len(),
            time_values(column_view(*cells), i as nat) == Ok::<Seq<i64>, Seq<char>>(times@),
        decreases cells@.len() - i,
    {
        match &cells[i] {
            Value::Int64(t) => times.push(*t),
            other => {
                let mut m = "time column contains non-INT64 value: ".to_owned();
                m.append(other.describe().as_str());
                proof {
                    lemma_times_fail_early(column_view(*cells), (i + 1) as nat, cells@.len());
                }
                return Err(Error::Decode(m));
            },
        }
        i += 1;
    }
    Ok(times)
}

impl TsBlock {
    /// Decodes one serialized TsBlock (one element of `queryResult`).
    ///
    /// Layout: `valueColumnCount` i32, per-column type bytes,
    /// `positionCount` i32, time-column encoding byte, per-column encoding
    /// bytes, then the time column followed by each value column.
    pub fn decode(bytes: &[u8]) -> (block: Result<TsBlock>)
        ensures
            match (block, block_of(bytes@)) {
                (Ok(decoded), Ok(expected)) => decoded@ == expected && expected.wf(),
                (Err(e), Err(m)) => e@ == ErrorView::Decode(m),
                _ => false,
            },
    {
        let mut r = Reader::new(bytes);
        let value_column_count = match r.read_i32() {
            Ok(n) => n,
            Err(e) => return Err(e),
        };
        if value_column_count < 0 {
            return Err(
                Error::Decode(
                    text_and_signed("negative valueColumnCount: ", value_column_count as i64),
                ),
            );
        }
        let ghost p = r.pos as int;
        let column_types = match r.read_types(value_column_count as usize) {
            Ok(types) => types,
            Err(e) => return Err(e),
        };
        proof {
            lemma_types_len(bytes@, p, value_column_count as nat);
        }
        let position_count = match r.read_i32() {
            Ok(n) => n,
            Err(e) => return Err(e),
        };
        if position_count < 0 {
            return Err(
                Error::Decode(text_and_signed("negative positionCount: ", position_count as i64)),
            );
        }
        let position_count: usize = position_count as usize;
        let time_encoding = match r.read_u8() {
            Ok(encoding) => encoding,
            Err(e) => return Err(e),
        };
        let ghost q = r.pos as int;
        let value_encodings = match r.read_encodings(value_column_count as usize) {
            Ok(encodings) => encodings,
            Err(e) => return Err(e),
        };
        proof {
            lemma_encodings_len(bytes@, q, value_column_count as nat);
        }
        // Time column is always present; decoded as INT64.
        let ghost s = r.pos as int;
        let time_column = match decode_column(
            &mut r,
            time_encoding,
            TSDataType::Int64,
            position_count,
        ) {
            Ok(cells) => cells,
            Err(e) => return Err(e),
        };
        proof {
            lemma_column_len(bytes@, s, time_encoding, TSDataType::Int64, position_count as nat);
        }
        let timestamps = match timestamps_of(&time_column) {
            Ok(times) => times,
            Err(e) => return Err(e),
        };
        proof {
            lemma_times_len(column_view(time_column), position_count as nat);
        }
        let ghost t = r.pos as int;
        let columns = match r.read_columns(&value_encodings, &column_types, position_count) {
            Ok(columns) => columns,
            Err(e) => return Err(e),
        };
        proof {
            lemma_columns_len(
                bytes@,
                t,
                value_encodings@,
                column_types@,
                position_count as nat,
                column_types@.len(),
            );
        }
        let block = TsBlock { position_count, column_types, timestamps, columns };
        Ok(block)
    }
}

/// Decodes one column body: null-indicator section, then encoding-specific
/// values. A run-length encoded column is the inner encoding and one value,
/// which stands in every row.
pub fn decode_column(
    r: &mut Reader<'_>,
    encoding: u8,
    ty: TSDataType,
    position_count: usize,
) -> (column: Result<Vec<Value>>)
    requires
        old(r).wf(),
    ensures
        final(r).wf(),
        final(r).buf@ == old(r).buf@,
        agrees(
            column,
            |c: Vec<Value>| column_view(c),
            final(r).pos as int,
            take_column(old(r).buf@, old(r).pos as int, encoding, ty, position_count as nat),
        ),
{
    if encoding != ENCODING_RLE {
        return r.read_plain_column(encoding, ty, position_count);
    }
    // Inner-encoding byte, decode ONE value, replicate.
    let inner = match r.read_u8() {
        Ok(inner) => inner,
        Err(e) => return Err(e),
    };
    if inner == ENCODING_RLE {
        return Err(Error::Decode("nested RLE column encoding".to_owned()));
    }
    let ghost p = r.pos as int;
    match r.read_plain_column(inner, ty, 1) {
        Ok(single) => {
            proof {
                lemma_plain_column_len(r.buf@, p, inner, ty, 1);
            }
            let v = single[0].clone();
            let column: Vec<Value> = vec![v; position_count];
            assert(column_view(column) =~= Seq::new(
                position_count as nat,
                |i: int| column_view(single)[0],
            ));
            Ok(column)
        },
        Err(e) => Err(e),
    }
}

proof fn lemma_cells_fail_early(
    b: Seq<u8>,
    pos: int,
    encoding: u8,
    ty: TSDataType,
    nulls: Seq<bool>,
    i: nat,
    n: nat,
)
    requires
        i <= n,
        take_cells(b, pos, encoding, ty, nulls, i) is Err,
    ensures
        take_cells(b, pos, encoding, ty, nulls, n) == take_cells(b, pos, encoding, ty, nulls, i),
    decreases n,
{
    if i < n {
        lemma_cells_fail_early(b, pos, encoding, ty, nulls, i, (n - 1) as nat);
    }
}

proof fn lemma_types_fail_early(b: Seq<u8>, pos: int, i: nat, n: nat)
    requires
        i <= n,
        take_types(b, pos, i) is Err,
    ensures
        take_types(b, pos, n) == take_types(b, pos, i),
    decreases n,
{
    if i < n {
        lemma_types_fail_early(b, pos, i, (n - 1) as nat);
    }
}

proof fn lemma_encodings_fail_early(b: Seq<u8>, pos: int, i: nat, n: nat)
    requires
        i <= n,
        take_encodings(b, pos, i) is Err,
    ensures
        take_encodings(b, pos, n) == take_encodings(b, pos, i),
    decreases n,
{
    if i < n {
        lemma_encodings_fail_early(b, pos, i, (n - 1) as nat);
    }
}

proof fn lemma_columns_fail_early(
    b: Seq<u8>,
    pos: int,
    encodings: Seq<u8>,
    types: Seq<TSDataType>,
    count: nat,
    i: nat,
    n: nat,
)
    requires
        i <= n,
        take_columns(b, pos, encodings, types, count, i) is Err,
    ensures
        take_columns(b, pos, encodings, types, count, n) == take_columns(
            b,
            pos,
            encodings,
            types,
            count,
            i,
        ),
    decreases n,
{
    if i < n {
        lemma_columns_fail_early(b, pos, encodings, types, count, i, (n - 1) as nat);
    }
}

proof fn lemma_times_fail_early(cells: Seq<ValueView>, i: nat, n: nat)
    requires
        i <= n,
        time_values(cells, i) is Err,
    ensures
        time_values(cells, n) == time_values(cells, i),
    decreases n,
{
    if i < n {
        lemma_times_fail_early(cells, i, (n - 1) as nat);
    }
}

proof fn lemma_nulls_len(b: Seq<u8>, pos: int, count: nat)
    ensures
        take_nulls(b, pos, count) matches Ok((nulls, _)) ==> nulls.len() == count,
{
}

proof fn lemma_cells_len(
    b: Seq<u8>,
    pos: int,
    encoding: u8,
    ty: TSDataType,
    nulls: Seq<bool>,
    k: nat,
)
    ensures
        take_cells(b, pos, encoding, ty, nulls, k) matches Ok((cells, _)) ==> cells.len() == k,
    decreases k,
{
    if k > 0 {
        lemma_cells_len(b, pos, encoding, ty, nulls, (k - 1) as nat);
    }
}

pub proof fn lemma_plain_column_len(b: Seq<u8>, pos: int, encoding: u8, ty: TSDataType, count: nat)
    ensures
        take_plain_column(b, pos, encoding, ty, count) matches Ok((cells, _)) ==> cells.len()
            == count,
{
    match take_nulls(b, pos, count) {
        Ok((nulls, p)) => lemma_cells_len(b, p, encoding, ty, nulls, count),
        Err(_) => {},
    }
}

proof fn lemma_column_len(b: Seq<u8>, pos: int, encoding: u8, ty: TSDataType, count: nat)
    ensures
        take_column(b, pos, encoding, ty, count) matches Ok((cells, _)) ==> cells.len() == count,
{
    lemma_plain_column_len(b, pos, encoding, ty, count);
}

proof fn lemma_types_len(b: Seq<u8>, pos: int, k: nat)
    ensures
        take_types(b, pos, k) matches Ok((types, _)) ==> types.len() == k,
    decreases k,
{
    if k > 0 {
        lemma_types_len(b, pos, (k - 1) as nat);
    }
}

proof fn lemma_encodings_len(b: Seq<u8>, pos: int, k: nat)
    ensures
        take_encodings(b, pos, k) matches Ok((encodings, _)) ==> encodings.len() == k,
    decreases k,
{
    if k > 0 {
        lemma_encodings_len(b, pos, (k - 1) as nat);
    }
}

proof fn lemma_times_len(cells: Seq<ValueView>, k: nat)
    ensures
        time_values(cells, k) matches Ok(times) ==> times.len() == k,
    decreases k,
{
    if k > 0 {
        lemma_times_len(cells, (k - 1) as nat);
    }
}

proof fn lemma_columns_len(
    b: Seq<u8>,
    pos: int,
    encodings: Seq<u8>,
    types: Seq<TSDataType>,
    count: nat,
    k: nat,
)
    ensures
        take_columns(b, pos, encodings, types, count, k) matches Ok((columns, _)) ==> {
            &&& columns.len() == k
            &&& forall|c: int| 0 <= c < k ==> (#[trigger] columns[c]).len() == count
        },
    decreases k,
{
    if k > 0 {
        lemma_columns_len(b, pos, encodings, types, count, (k - 1) as nat);
        match take_columns(b, pos, encodings, types, count, (k - 1) as nat) {
            Ok((_, p)) => lemma_column_len(b, p, encodings[k - 1], types[k - 1], count),
            Err(_) => {},
        }
    }
}

} // verus!
