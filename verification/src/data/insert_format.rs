//! The insert buffers read back: what a reader of the format finds in the
//! buffers of tablets and records.

use vstd::prelude::*;
use vstd::utf8::{
    decode_utf8, encode_utf8, encode_utf8_decode_utf8, encode_utf8_valid_utf8, valid_utf8,
};

use super::bitmap::{law_packed_bits_read_back, lsb_bit, lsb_packed};
use super::placed::{lemma_split, stands_at};
use super::record::{field_bytes, record_bytes, TYPE_NULL};
use super::tablet::{
    binary_bytes, cell_bytes, column_bytes, columns_bytes, insertable, null_flags, null_section,
    null_sections, times_bytes, TabletView,
};
use super::value::{value_type, ValueView};
use super::{law_type_of_code_inverts_code, type_code_of, type_of_code, TSDataType};
use crate::wire::{
    be_bytes, be_nat, i64_bytes, law_be_round_trip, law_i32_round_trip,
    law_i64_round_trip, lemma_be_bytes_len, lemma_pow256_values, pattern32, pattern64, signed32,
    signed64,
};

verus! {

/// The `n` bytes at an offset, and the offset behind them.
pub open spec fn bytes_at(b: Seq<u8>, pos: int, n: int) -> Option<(Seq<u8>, int)> {
    if 0 <= pos && 0 <= n && pos + n <= b.len() {
        Some((b.subrange(pos, pos + n), pos + n))
    } else {
        None
    }
}

/// The length-prefixed byte string at an offset.
pub open spec fn binary_at(b: Seq<u8>, pos: int) -> Option<(Seq<u8>, int)> {
    match bytes_at(b, pos, 4) {
        Some((len, p)) => bytes_at(b, p, be_nat(len) as int),
        None => None,
    }
}

/// The value of type `ty` that stands at an offset.
pub open spec fn value_at(ty: TSDataType, b: Seq<u8>, pos: int) -> Option<(ValueView, int)> {
    match ty {
        TSDataType::Boolean => match bytes_at(b, pos, 1) {
            Some((x, p)) => Some((ValueView::Boolean(x[0] != 0), p)),
            None => None,
        },
        TSDataType::Int32 => match bytes_at(b, pos, 4) {
            Some((x, p)) => Some((ValueView::Int32(signed32(be_nat(x)) as i32), p)),
            None => None,
        },
        TSDataType::Date => match bytes_at(b, pos, 4) {
            Some((x, p)) => Some((ValueView::Date(signed32(be_nat(x)) as i32), p)),
            None => None,
        },
        TSDataType::Float => match bytes_at(b, pos, 4) {
            Some((x, p)) => Some((ValueView::Float(be_nat(x) as u32), p)),
            None => None,
        },
        TSDataType::Int64 => match bytes_at(b, pos, 8) {
            Some((x, p)) => Some((ValueView::Int64(signed64(be_nat(x)) as i64), p)),
            None => None,
        },
        TSDataType::Timestamp => match bytes_at(b, pos, 8) {
            Some((x, p)) => Some((ValueView::Timestamp(signed64(be_nat(x)) as i64), p)),
            None => None,
        },
        TSDataType::Double => match bytes_at(b, pos, 8) {
            Some((x, p)) => Some((ValueView::Double(be_nat(x) as u64), p)),
            None => None,
        },
        TSDataType::Text => match binary_at(b, pos) {
            Some((x, p)) => if valid_utf8(x) {
                Some((ValueView::Text(decode_utf8(x)), p))
            } else {
                None
            },
            None => None,
        },
        TSDataType::String => match binary_at(b, pos) {
            Some((x, p)) => if valid_utf8(x) {
                Some((ValueView::String(decode_utf8(x)), p))
            } else {
                None
            },
            None => None,
        },
        TSDataType::Blob => match binary_at(b, pos) {
            Some((x, p)) => Some((ValueView::Blob(x), p)),
            None => None,
        },
        TSDataType::Object => match binary_at(b, pos) {
            Some((x, p)) => Some((ValueView::Object(x), p)),
            None => None,
        },
        _ => None,
    }
}

/// Whether a value's byte string is short enough for its length to be written.
pub open spec fn short_enough(v: ValueView) -> bool {
    match v {
        ValueView::Text(s) => encode_utf8(s).len() <= i32::MAX,
        ValueView::String(s) => encode_utf8(s).len() <= i32::MAX,
        ValueView::Blob(b) => b.len() <= i32::MAX,
        ValueView::Object(b) => b.len() <= i32::MAX,
        _ => true,
    }
}

proof fn lemma_bytes_at(b: Seq<u8>, pos: int, x: Seq<u8>)
    requires
        stands_at(b, pos, x),
    ensures
        bytes_at(b, pos, x.len() as int) == Some((x, pos + x.len())),
{
}

proof fn lemma_binary_at(b: Seq<u8>, pos: int, x: Seq<u8>)
    requires
        x.len() <= i32::MAX,
        stands_at(b, pos, binary_bytes(x)),
    ensures
        binary_at(b, pos) == Some((x, pos + binary_bytes(x).len())),
{
    lemma_be_bytes_len(x.len(), 4);
    lemma_split(b, pos, be_bytes(x.len(), 4), x);
    lemma_bytes_at(b, pos, be_bytes(x.len(), 4));
    lemma_pow256_values();
    law_be_round_trip(x.len(), 4);
    lemma_bytes_at(b, pos + 4, x);
}

/// A value that is written can be read back where it stands.
pub proof fn law_value_reads_back(ty: TSDataType, v: ValueView, b: Seq<u8>, pos: int)
    requires
        value_type(v) == Some(ty),
        short_enough(v),
        stands_at(b, pos, cell_bytes(ty, Some(v))),
    ensures
        value_at(ty, b, pos) == Some((v, pos + cell_bytes(ty, Some(v)).len())),
{
    lemma_pow256_values();
    lemma_bytes_at(b, pos, cell_bytes(ty, Some(v)));
    match v {
        ValueView::Boolean(_) => {},
        ValueView::Int32(x) => {
            lemma_be_bytes_len(pattern32(x as int), 4);
            law_i32_round_trip(x as int);
        },
        ValueView::Date(x) => {
            lemma_be_bytes_len(pattern32(x as int), 4);
            law_i32_round_trip(x as int);
        },
        ValueView::Int64(x) => {
            lemma_be_bytes_len(pattern64(x as int), 8);
            law_i64_round_trip(x as int);
        },
        ValueView::Timestamp(x) => {
            lemma_be_bytes_len(pattern64(x as int), 8);
            law_i64_round_trip(x as int);
        },
        ValueView::Float(bits) => {
            lemma_be_bytes_len(bits as nat, 4);
            law_be_round_trip(bits as nat, 4);
        },
        ValueView::Double(bits) => {
            lemma_be_bytes_len(bits as nat, 8);
            law_be_round_trip(bits as nat, 8);
        },
        ValueView::Text(s) => {
            lemma_binary_at(b, pos, encode_utf8(s));
            encode_utf8_valid_utf8(s);
            encode_utf8_decode_utf8(s);
        },
        ValueView::String(s) => {
            lemma_binary_at(b, pos, encode_utf8(s));
            encode_utf8_valid_utf8(s);
            encode_utf8_decode_utf8(s);
        },
        ValueView::Blob(x) => lemma_binary_at(b, pos, x),
        ValueView::Object(x) => lemma_binary_at(b, pos, x),
        ValueView::Null => {},
    }
}

/// The first `k` fields of the record that stands at an offset.
pub open spec fn record_at(b: Seq<u8>, pos: int, k: nat) -> Option<(Seq<ValueView>, int)>
    decreases k,
{
    if k == 0 {
        Some((Seq::empty(), pos))
    } else {
        match record_at(b, pos, (k - 1) as nat) {
            None => None,
            Some((values, p)) => match bytes_at(b, p, 1) {
                None => None,
                Some((marker, q)) => if marker[0] == TYPE_NULL {
                    Some((values.push(ValueView::Null), q))
                } else {
                    match type_of_code(marker[0] as int) {
                        None => None,
                        Some(ty) => match value_at(ty, b, q) {
                            None => None,
                            Some((v, r)) => Some((values.push(v), r)),
                        },
                    }
                },
            },
        }
    }
}

/// The fields of a record that is written can be read back, nulls included,
/// wherever the record stands.
pub proof fn law_record_reads_back(values: Seq<ValueView>, b: Seq<u8>, pos: int)
    requires
        forall|i: int| 0 <= i < values.len() ==> short_enough(#[trigger] values[i]),
        stands_at(b, pos, record_bytes(values)),
    ensures
        record_at(b, pos, values.len()) == Some((values, pos + record_bytes(values).len())),
    decreases values.len(),
{
    if values.len() == 0 {
        assert(values =~= Seq::empty());
    } else {
        let before = values.drop_last();
        let v = values.last();
        lemma_split(b, pos, record_bytes(before), field_bytes(v));
        assert forall|i: int| 0 <= i < before.len() implies short_enough(#[trigger] before[i]) by {
            assert(short_enough(values[i]));
        }
        law_record_reads_back(before, b, pos);
        let p = pos + record_bytes(before).len();
        assert(short_enough(values[values.len() - 1]));
        match value_type(v) {
            None => {
                lemma_bytes_at(b, p, seq![TYPE_NULL]);
            },
            Some(ty) => {
                let marker = seq![type_code_of(ty) as u8];
                lemma_split(b, p, marker, cell_bytes(ty, Some(v)));
                lemma_bytes_at(b, p, marker);
                law_type_of_code_inverts_code(ty);
                law_value_reads_back(ty, v, b, p + 1);
            },
        }
        assert(before.push(v) =~= values);
    }
}

/// The first `k` timestamps that stand at the start of a buffer.
pub open spec fn times_in(b: Seq<u8>, k: nat) -> Option<(Seq<i64>, int)>
    decreases k,
{
    if k == 0 {
        Some((Seq::empty(), 0))
    } else {
        match times_in(b, (k - 1) as nat) {
            None => None,
            Some((times, p)) => match bytes_at(b, p, 8) {
                None => None,
                Some((x, q)) => Some((times.push(signed64(be_nat(x)) as i64), q)),
            },
        }
    }
}

proof fn lemma_times_in(times: Seq<i64>, b: Seq<u8>)
    requires
        stands_at(b, 0, times_bytes(times)),
    ensures
        times_in(b, times.len()) == Some((times, times_bytes(times).len() as int)),
    decreases times.len(),
{
    if times.len() == 0 {
        assert(times =~= Seq::empty());
    } else {
        let before = times.drop_last();
        let t = times.last();
        lemma_split(b, 0, times_bytes(before), i64_bytes(t as int));
        lemma_times_in(before, b);
        lemma_be_bytes_len(pattern64(t as int), 8);
        lemma_bytes_at(b, times_bytes(before).len() as int, i64_bytes(t as int));
        law_i64_round_trip(t as int);
        assert(before.push(t) =~= times);
    }
}

/// The timestamp buffer of a tablet holds its timestamps, eight bytes each.
pub proof fn law_timestamps_read_back(t: TabletView)
    ensures
        times_in(t.timestamp_bytes(), t.timestamps.len()) == Some(
            (t.timestamps, t.timestamp_bytes().len() as int),
        ),
        t.timestamp_bytes().len() == 8 * t.timestamps.len(),
{
    let b = t.timestamp_bytes();
    assert(b.subrange(0, b.len() as int) =~= b);
    lemma_times_in(t.timestamps, b);
    lemma_times_len(t.timestamps);
}

proof fn lemma_times_len(times: Seq<i64>)
    ensures
        times_bytes(times).len() == 8 * times.len(),
    decreases times.len(),
{
    if times.len() > 0 {
        lemma_times_len(times.drop_last());
        lemma_be_bytes_len(pattern64(times.last() as int), 8);
    }
}

/// What is written for a cell: its value, or for a null cell a placeholder.
pub open spec fn written(ty: TSDataType, cell: Option<ValueView>) -> ValueView {
    match cell {
        Some(v) => v,
        None => match ty {
            TSDataType::Boolean => ValueView::Boolean(false),
            TSDataType::Int32 => ValueView::Int32(i32::MIN),
            TSDataType::Int64 => ValueView::Int64(i64::MIN),
            TSDataType::Timestamp => ValueView::Timestamp(i64::MIN),
            TSDataType::Float => ValueView::Float(0xFF7F_FFFF),
            TSDataType::Double => ValueView::Double(0xFFEF_FFFF_FFFF_FFFF),
            TSDataType::Date => ValueView::Date(10000101),
            TSDataType::Text => ValueView::Text(Seq::empty()),
            TSDataType::String => ValueView::String(Seq::empty()),
            TSDataType::Blob => ValueView::Blob(Seq::empty()),
            _ => ValueView::Object(Seq::empty()),
        },
    }
}

proof fn lemma_written(ty: TSDataType, cell: Option<ValueView>)
    requires
        insertable(ty),
        cell matches Some(v) ==> value_type(v) == Some(ty) && short_enough(v),
    ensures
        value_type(written(ty, cell)) == Some(ty),
        short_enough(written(ty, cell)),
        cell_bytes(ty, Some(written(ty, cell))) == cell_bytes(ty, cell),
{
    let nothing = Seq::<char>::empty();
    assert(encode_utf8(nothing) =~= Seq::<u8>::empty());
}

/// The first `k` values of the column of type `ty` that stands at an offset.
pub open spec fn column_at(ty: TSDataType, b: Seq<u8>, pos: int, k: nat) -> Option<
    (Seq<ValueView>, int),
>
    decreases k,
{
    if k == 0 {
        Some((Seq::empty(), pos))
    } else {
        match column_at(ty, b, pos, (k - 1) as nat) {
            None => None,
            Some((values, p)) => match value_at(ty, b, p) {
                None => None,
                Some((v, q)) => Some((values.push(v), q)),
            },
        }
    }
}

/// What is written for the cells of a column.
pub open spec fn written_column(ty: TSDataType, cells: Seq<Option<ValueView>>) -> Seq<ValueView> {
    cells.map_values(|c: Option<ValueView>| written(ty, c))
}

proof fn lemma_column_at(ty: TSDataType, cells: Seq<Option<ValueView>>, b: Seq<u8>, pos: int)
    requires
        cells.len() > 0 ==> insertable(ty),
        forall|i: int|
            0 <= i < cells.len() ==> (#[trigger] cells[i] matches Some(v) ==> value_type(v)
                == Some(ty) && short_enough(v)),
        stands_at(b, pos, column_bytes(ty, cells)),
    ensures
        column_at(ty, b, pos, cells.len()) == Some(
            (written_column(ty, cells), pos + column_bytes(ty, cells).len()),
        ),
    decreases cells.len(),
{
    if cells.len() == 0 {
        assert(written_column(ty, cells) =~= Seq::empty());
    } else {
        let before = cells.drop_last();
        let cell = cells.last();
        lemma_split(b, pos, column_bytes(ty, before), cell_bytes(ty, cell));
        assert forall|i: int| 0 <= i < before.len() implies (#[trigger] before[i] matches Some(v)
            ==> value_type(v) == Some(ty) && short_enough(v)) by {
            assert(before[i] == cells[i]);
        }
        lemma_column_at(ty, before, b, pos);
        assert(cells[cells.len() - 1] == cell);
        lemma_written(ty, cell);
        law_value_reads_back(ty, written(ty, cell), b, pos + column_bytes(ty, before).len());
        assert(written_column(ty, cells) =~= written_column(ty, before).push(written(ty, cell)));
    }
}

/// The values of the first `k` columns that stand at the start of a buffer.
pub open spec fn columns_in(types: Seq<TSDataType>, rows: nat, b: Seq<u8>, k: nat) -> Option<
    (Seq<Seq<ValueView>>, int),
>
    decreases k,
{
    if k == 0 {
        Some((Seq::empty(), 0))
    } else {
        match columns_in(types, rows, b, (k - 1) as nat) {
            None => None,
            Some((columns, p)) => match column_at(types[k - 1], b, p, rows) {
                None => None,
                Some((column, q)) => Some((columns.push(column), q)),
            },
        }
    }
}

/// The null flags in the null section that stands at an offset.
pub open spec fn flags_at(rows: nat, b: Seq<u8>, pos: int) -> Option<(Seq<bool>, int)> {
    match bytes_at(b, pos, 1) {
        None => None,
        Some((flag, p)) => if flag[0] == 0 {
            Some((Seq::new(rows, |i: int| false), p))
        } else {
            match bytes_at(b, p, (rows / 8 + 1) as int) {
                None => None,
                Some((bits, q)) => Some((Seq::new(rows, |i: int| lsb_bit(bits, i)), q)),
            }
        },
    }
}

/// The null flags of the first `k` columns in the null sections that begin at
/// an offset.
pub open spec fn flags_in(rows: nat, b: Seq<u8>, pos: int, k: nat) -> Option<
    (Seq<Seq<bool>>, int),
>
    decreases k,
{
    if k == 0 {
        Some((Seq::empty(), pos))
    } else {
        match flags_in(rows, b, pos, (k - 1) as nat) {
            None => None,
            Some((flags, p)) => match flags_at(rows, b, p) {
                None => None,
                Some((f, q)) => Some((flags.push(f), q)),
            },
        }
    }
}

/// The cells in a value buffer: the values of all columns, masked by the null
/// flags behind them.
pub open spec fn cells_in(types: Seq<TSDataType>, rows: nat, b: Seq<u8>) -> Option<
    Seq<Seq<Option<ValueView>>>,
> {
    match columns_in(types, rows, b, types.len()) {
        None => None,
        Some((columns, p)) => match flags_in(rows, b, p, types.len()) {
            None => None,
            Some((flags, _)) => Some(
                Seq::new(
                    types.len(),
                    |c: int|
                        Seq::new(
                            rows,
                            |r: int|
                                if flags[c][r] {
                                    None
                                } else {
                                    Some(columns[c][r])
                                },
                        ),
                ),
            ),
        },
    }
}

/// Whether every byte string of a tablet is short enough for its length to be
/// written.
pub open spec fn cells_short_enough(t: TabletView) -> bool {
    forall|c: int, r: int|
        0 <= c < t.values.len() && 0 <= r < t.timestamps.len() ==> (
        #[trigger] t.values[c][r] matches Some(v) ==> short_enough(v))
}

proof fn lemma_columns_in(t: TabletView, b: Seq<u8>, k: nat)
    requires
        t.wf(),
        t.serializable(),
        cells_short_enough(t),
        k <= t.values.len(),
        stands_at(b, 0, columns_bytes(t.types, t.values, k)),
    ensures
        columns_in(t.types, t.timestamps.len(), b, k) == Some(
            (
                Seq::new(k, |c: int| written_column(t.types[c], t.values[c])),
                columns_bytes(t.types, t.values, k).len() as int,
            ),
        ),
    decreases k,
{
    let expected = Seq::new(k, |c: int| written_column(t.types[c], t.values[c]));
    if k == 0 {
        assert(expected =~= Seq::empty());
    } else {
        let before = columns_bytes(t.types, t.values, (k - 1) as nat);
        let ty = t.types[k - 1];
        let cells = t.values[k - 1];
        lemma_split(b, 0, before, column_bytes(ty, cells));
        lemma_columns_in(t, b, (k - 1) as nat);
        assert forall|i: int| 0 <= i < cells.len() implies (#[trigger] cells[i] matches Some(v)
            ==> value_type(v) == Some(ty) && short_enough(v)) by {
            assert(t.values[k - 1][i] == cells[i]);
        }
        lemma_column_at(ty, cells, b, before.len() as int);
        assert(expected =~= Seq::new(
            (k - 1) as nat,
            |c: int| written_column(t.types[c], t.values[c]),
        ).push(written_column(ty, cells)));
    }
}

proof fn lemma_flags_at(cells: Seq<Option<ValueView>>, rows: nat, b: Seq<u8>, pos: int)
    requires
        cells.len() == rows,
        stands_at(b, pos, null_section(cells, rows)),
    ensures
        flags_at(rows, b, pos) == Some((null_flags(cells), pos + null_section(cells, rows).len())),
{
    let flags = null_flags(cells);
    if flags.contains(true) {
        let bits = lsb_packed(flags, rows / 8 + 1);
        lemma_split(b, pos, seq![1u8], bits);
        lemma_bytes_at(b, pos, seq![1u8]);
        lemma_bytes_at(b, pos + 1, bits);
        let read = Seq::new(rows, |i: int| lsb_bit(bits, i));
        assert(read =~= flags) by {
            assert forall|i: int| 0 <= i < rows implies read[i] == flags[i] by {
                law_packed_bits_read_back(flags, rows / 8 + 1, i);
            }
        }
    } else {
        lemma_bytes_at(b, pos, seq![0u8]);
        let read = Seq::new(rows, |i: int| false);
        assert(read =~= flags) by {
            assert forall|i: int| 0 <= i < rows implies flags[i] == false by {
                if flags[i] {
                    assert(flags.contains(true));
                }
            }
        }
    }
}

proof fn lemma_flags_in(t: TabletView, b: Seq<u8>, pos: int, k: nat)
    requires
        t.wf(),
        k <= t.values.len(),
        stands_at(b, pos, null_sections(t.values, t.timestamps.len(), k)),
    ensures
        flags_in(t.timestamps.len(), b, pos, k) == Some(
            (
                Seq::new(k, |c: int| null_flags(t.values[c])),
                pos + null_sections(t.values, t.timestamps.len(), k).len(),
            ),
        ),
    decreases k,
{
    let rows = t.timestamps.len();
    let expected = Seq::new(k, |c: int| null_flags(t.values[c]));
    if k == 0 {
        assert(expected =~= Seq::empty());
    } else {
        let before = null_sections(t.values, rows, (k - 1) as nat);
        lemma_split(b, pos, before, null_section(t.values[k - 1], rows));
        lemma_flags_in(t, b, pos, (k - 1) as nat);
        lemma_flags_at(t.values[k - 1], rows, b, pos + before.len());
        assert(expected =~= Seq::new((k - 1) as nat, |c: int| null_flags(t.values[c])).push(
            null_flags(t.values[k - 1]),
        ));
    }
}

/// The value buffer of a tablet, read with its column types and its number of
/// rows, gives back every cell: the values as they were, and the nulls as nulls
/// whatever placeholder stands for them.
pub proof fn law_tablet_values_read_back(t: TabletView)
    requires
        t.wf(),
        t.serializable(),
        cells_short_enough(t),
    ensures
        cells_in(t.types, t.timestamps.len(), t.value_bytes()) == Some(t.values),
{
    let b = t.value_bytes();
    let n = t.values.len();
    let rows = t.timestamps.len();
    let first = columns_bytes(t.types, t.values, n);
    let second = null_sections(t.values, rows, n);
    assert(b.subrange(0, b.len() as int) =~= b);
    lemma_split(b, 0, first, second);
    lemma_columns_in(t, b, n);
    lemma_flags_in(t, b, first.len() as int, n);
    let read = cells_in(t.types, rows, b)->0;
    assert(read =~= t.values) by {
        assert forall|c: int| 0 <= c < n implies read[c] == t.values[c] by {
            assert(read[c].len() == rows);
            assert forall|r: int| 0 <= r < rows implies read[c][r] == t.values[c][r] by {
                assert(null_flags(t.values[c])[r] == (t.values[c][r] is None));
                assert(written_column(t.types[c], t.values[c])[r] == written(
                    t.types[c],
                    t.values[c][r],
                ));
            }
            assert(read[c] =~= t.values[c]);
        }
    }
}

} // verus!
