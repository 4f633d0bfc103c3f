//! What the operations on a tablet do to its rows and cells.

use vstd::prelude::*;

use super::tablet::{
    cell_bytes, cell_fits, count_mismatch, empty_tablet, insertable, object_segment, TabletView,
};
use super::value::{value_text, value_type, ValueView};
use super::{data_type_name, ColumnCategory, TSDataType};
use crate::order::{law_stable_order, stable_order};
use crate::text::decimal;
use crate::wire::{
    be_bytes, be_nat, i64_bytes, law_be_round_trip, law_i32_round_trip, law_i64_round_trip,
    lemma_be_bytes_len, lemma_pow256_values, pattern32, pattern64, signed32, signed64,
};

verus! {

proof fn lemma_first_misfit(t: TabletView, row: Seq<Option<ValueView>>, k: nat)
    ensures
        match t.first_misfit(row, k) {
            Some(i) => {
                &&& 0 <= i < k
                &&& !cell_fits(t.types[i], row[i])
                &&& forall|j: int| 0 <= j < i ==> cell_fits(t.types[j], #[trigger] row[j])
            },
            None => forall|j: int| 0 <= j < k ==> cell_fits(t.types[j], #[trigger] row[j]),
        },
    decreases k,
{
    if k > 0 {
        lemma_first_misfit(t, row, (k - 1) as nat);
    }
}

/// A row is accepted if and only if it has one cell per column and each of its
/// cells is null or carries its column's type.
pub proof fn law_rows_are_accepted(t: TabletView, row: Seq<Option<ValueView>>)
    ensures
        t.row_complaint(row) is None <==> {
            &&& row.len() == t.types.len()
            &&& forall|c: int|
                0 <= c < row.len() ==> {
                    ||| (#[trigger] row[c]) is None
                    ||| row[c] == Some(ValueView::Null)
                    ||| value_type(row[c]->0) == Some(t.types[c])
                }
        },
{
    lemma_first_misfit(t, row, row.len());
    if t.row_complaint(row) is None {
        assert forall|c: int| 0 <= c < row.len() implies {
            ||| (#[trigger] row[c]) is None
            ||| row[c] == Some(ValueView::Null)
            ||| value_type(row[c]->0) == Some(t.types[c])
        } by {
            assert(cell_fits(t.types[c], row[c]));
        }
    }
}

/// The complaint about a row with the right number of cells names the first
/// column whose cell is neither null nor of the column's type, with that type
/// and the value found.
pub proof fn law_first_misfit_is_named(t: TabletView, row: Seq<Option<ValueView>>, c: int)
    requires
        row.len() == t.types.len(),
        0 <= c < row.len(),
        row[c] is Some,
        row[c] != Some(ValueView::Null),
        value_type(row[c]->0) != Some(t.types[c]),
        forall|b: int|
            0 <= b < c ==> {
                ||| (#[trigger] row[b]) is None
                ||| row[b] == Some(ValueView::Null)
                ||| value_type(row[b]->0) == Some(t.types[b])
            },
    ensures
        t.row_complaint(row) == Some(
            "column "@ + decimal(c as nat) + " ("@ + t.measurements[c] + ") expects "@
                + data_type_name(t.types[c]) + ", got "@ + value_text(row[c]->0),
        ),
{
    lemma_first_misfit(t, row, row.len());
    let found = t.first_misfit(row, row.len());
    assert(!cell_fits(t.types[c], row[c]));
    assert(found is Some);
    let i = found->0;
    if i < c {
        assert(row[i] is None || row[i] == Some(ValueView::Null) || value_type(row[i]->0) == Some(
            t.types[i],
        ));
    }
    assert(i == c);
}

/// After a row is appended, the last cell of each column is null if and only if
/// the row's cell was, whether absent or an explicit null, and is otherwise
/// exactly the value that the row held there. The timestamp comes last, and all
/// that stood in the tablet before stays where it was.
pub proof fn law_added_row_is_kept(t: TabletView, timestamp: i64, row: Seq<Option<ValueView>>)
    requires
        t.wf(),
        t.row_complaint(row) is None,
    ensures
        t.with_row(timestamp, row).wf(),
        t.with_row(timestamp, row).timestamps.len() == t.timestamps.len() + 1,
        t.with_row(timestamp, row).timestamps.last() == timestamp,
        t.with_row(timestamp, row).timestamps.drop_last() == t.timestamps,
        t.with_row(timestamp, row).values.len() == t.values.len() == row.len(),
        forall|c: int|
            0 <= c < row.len() ==> (#[trigger] t.with_row(timestamp, row).values[c]).len()
                == t.values[c].len() + 1,
        forall|c: int|
            0 <= c < row.len() ==> (#[trigger] t.with_row(timestamp, row).values[c]).drop_last()
                == t.values[c],
        forall|c: int|
            0 <= c < row.len() ==> ((#[trigger] t.with_row(timestamp, row).values[c]).last() is None
                <==> row[c] is None || row[c] == Some(ValueView::Null)),
        forall|c: int|
            0 <= c < row.len() && row[c] is Some && row[c] != Some(ValueView::Null) ==> (
            #[trigger] t.with_row(timestamp, row).values[c]).last() == row[c],
        t.with_row(timestamp, row).target == t.target,
        t.with_row(timestamp, row).measurements == t.measurements,
        t.with_row(timestamp, row).types == t.types,
        t.with_row(timestamp, row).column_categories == t.column_categories,
        t.with_row(timestamp, row).aligned == t.aligned,
{
    let after = t.with_row(timestamp, row);
    law_rows_are_accepted(t, row);
    assert(after.timestamps.drop_last() =~= t.timestamps);
    assert forall|c: int| 0 <= c < row.len() implies (#[trigger] after.values[c]).drop_last()
        == t.values[c] by {
        assert(after.values[c].drop_last() =~= t.values[c]);
    }
    assert forall|c: int, r: int|
        0 <= c < after.values.len() && 0 <= r < after.timestamps.len() implies (
    #[trigger] after.values[c][r] matches Some(v) ==> value_type(v) == Some(after.types[c])) by {
        if r < t.timestamps.len() {
            assert(after.values[c][r] == t.values[c][r]);
        } else {
            assert(row[c] is None || row[c] == Some(ValueView::Null) || value_type(row[c]->0)
                == Some(t.types[c]));
        }
    }
}

/// Sorting is a permutation of whole rows: every row of the sorted tablet is a
/// row of the tablet and the other way round, timestamp and all cells alike.
/// Time never falls from one row to the next, and rows of the same time keep
/// their order.
pub proof fn law_sorting_is_a_permutation_of_rows(t: TabletView)
    requires
        t.wf(),
    ensures
        exists|from: Seq<int>|
            {
                &&& #[trigger] from.len() == t.timestamps.len()
                &&& forall|r: int| 0 <= r < from.len() ==> 0 <= #[trigger] from[r] < from.len()
                &&& forall|r: int, s: int|
                    0 <= r < s < from.len() ==> #[trigger] from[r] != #[trigger] from[s]
                &&& t.sorted().timestamps.len() == from.len()
                &&& forall|r: int|
                    0 <= r < from.len() ==> t.sorted().timestamps[r] == t.timestamps[
                    #[trigger] from[r]]
                &&& forall|c: int, r: int|
                    0 <= c < t.values.len() && 0 <= r < from.len()
                        ==> #[trigger] t.sorted().values[c][r] == t.values[c][from[r]]
                &&& forall|r: int, s: int|
                    0 <= r < s < from.len() ==> {
                        ||| t.timestamps[#[trigger] from[r]] < t.timestamps[#[trigger] from[s]]
                        ||| t.timestamps[from[r]] == t.timestamps[from[s]] && from[r] < from[s]
                    }
            },
        t.sorted().values.len() == t.values.len(),
        t.sorted().target == t.target,
        t.sorted().measurements == t.measurements,
        t.sorted().types == t.types,
        t.sorted().column_categories == t.column_categories,
        t.sorted().aligned == t.aligned,
{
    law_stable_order(t.timestamps);
    let from = stable_order(t.timestamps);
    assert(from.len() == t.timestamps.len());
}

/// An OBJECT segment may be set if and only if the column and the row exist and
/// the column holds objects.
pub proof fn law_object_cells_are_accepted(t: TabletView, column: int, row: int)
    requires
        0 <= column,
        0 <= row,
    ensures
        t.object_cell_complaint(column, row) is None <==> {
            &&& column < t.types.len()
            &&& row < t.timestamps.len()
            &&& t.types[column] == TSDataType::Object
        },
{
}

/// Setting one cell puts the value there and leaves every other cell, the
/// timestamps and the columns as they were.
pub proof fn law_set_cell_changes_one_cell(t: TabletView, column: int, row: int, value: ValueView)
    requires
        t.wf(),
        0 <= column < t.types.len(),
        0 <= row < t.timestamps.len(),
    ensures
        t.with_cell(column, row, value).values[column][row] == Some(value),
        t.with_cell(column, row, value).values.len() == t.values.len(),
        forall|c: int, r: int|
            0 <= c < t.values.len() && 0 <= r < t.timestamps.len() && !(c == column && r == row)
                ==> #[trigger] t.with_cell(column, row, value).values[c][r] == t.values[c][r],
        forall|c: int|
            0 <= c < t.values.len() ==> (#[trigger] t.with_cell(column, row, value).values[c]).len()
                == t.timestamps.len(),
        t.with_cell(column, row, value).timestamps == t.timestamps,
        t.with_cell(column, row, value).types == t.types,
        t.with_cell(column, row, value).measurements == t.measurements,
        t.with_cell(column, row, value).target == t.target,
        t.with_cell(column, row, value).column_categories == t.column_categories,
        t.with_cell(column, row, value).aligned == t.aligned,
{
}

/// An OBJECT segment spells out its parts: a first byte that is one at the end
/// of the file and zero before it, eight bytes that read back as the offset,
/// and the content.
pub proof fn law_object_segment_parts(is_eof: bool, offset: int, content: Seq<u8>)
    requires
        -0x8000_0000_0000_0000 <= offset < 0x8000_0000_0000_0000,
    ensures
        object_segment(is_eof, offset, content).len() == 9 + content.len(),
        object_segment(is_eof, offset, content)[0] == 1 || object_segment(is_eof, offset, content)[0]
            == 0,
        object_segment(is_eof, offset, content)[0] == 1 <==> is_eof,
        signed64(be_nat(object_segment(is_eof, offset, content).subrange(1, 9))) == offset,
        object_segment(is_eof, offset, content).skip(9) == content,
{
    let segment = object_segment(is_eof, offset, content);
    lemma_be_bytes_len(pattern64(offset), 8);
    law_i64_round_trip(offset);
    assert(segment.subrange(1, 9) =~= i64_bytes(offset));
    assert(segment.skip(9) =~= content);
}

/// A new tablet has no rows, one empty column per type, and is otherwise what
/// it was made from.
pub proof fn law_new_tablet_is_empty(
    target: Seq<char>,
    measurements: Seq<Seq<char>>,
    types: Seq<TSDataType>,
    column_categories: Option<Seq<ColumnCategory>>,
    aligned: bool,
)
    ensures
        ({
            let t = empty_tablet(target, measurements, types, column_categories, aligned);
            &&& t.timestamps.len() == 0
            &&& t.values.len() == types.len()
            &&& forall|c: int| 0 <= c < types.len() ==> (#[trigger] t.values[c]).len() == 0
            &&& t.target == target
            &&& t.measurements == measurements
            &&& t.types == types
            &&& t.column_categories == column_categories
            &&& t.aligned == aligned
        }),
{
}

/// Whatever a null cell is, absent or an explicit null, the bytes that stand
/// for it read as the least number of its column's type, as `false`, as the
/// date 1000-01-01, or as an empty string.
pub proof fn law_null_placeholders(ty: TSDataType, cell: Option<ValueView>)
    requires
        cell is None || cell == Some(ValueView::Null),
    ensures
        ty is Boolean ==> cell_bytes(ty, cell) == seq![0u8],
        ty is Int32 ==> cell_bytes(ty, cell).len() == 4 && signed32(be_nat(cell_bytes(ty, cell)))
            == i32::MIN,
        ty is Date ==> cell_bytes(ty, cell).len() == 4 && signed32(be_nat(cell_bytes(ty, cell)))
            == 1000_01_01,
        ty is Int64 || ty is Timestamp ==> cell_bytes(ty, cell).len() == 8 && signed64(
            be_nat(cell_bytes(ty, cell)),
        ) == i64::MIN,
        ty is Float ==> cell_bytes(ty, cell).len() == 4 && be_nat(cell_bytes(ty, cell))
            == 0xFF7F_FFFF,
        ty is Double ==> cell_bytes(ty, cell).len() == 8 && be_nat(cell_bytes(ty, cell))
            == 0xFFEF_FFFF_FFFF_FFFF,
        ty is Text || ty is String || ty is Blob || ty is Object ==> cell_bytes(ty, cell).len() == 4
            && be_nat(cell_bytes(ty, cell)) == 0,
{
    lemma_pow256_values();
    law_i32_round_trip(i32::MIN as int);
    law_i32_round_trip(10000101);
    law_i64_round_trip(i64::MIN as int);
    law_be_round_trip(0xFF7F_FFFF, 4);
    law_be_round_trip(0xFFEF_FFFF_FFFF_FFFF, 8);
    law_be_round_trip(0, 4);
    lemma_be_bytes_len(pattern32(i32::MIN as int), 4);
    lemma_be_bytes_len(pattern32(10000101), 4);
    lemma_be_bytes_len(pattern64(i64::MIN as int), 8);
    lemma_be_bytes_len(0xFF7F_FFFF, 4);
    lemma_be_bytes_len(0xFFEF_FFFF_FFFF_FFFF, 8);
    lemma_be_bytes_len(0, 4);
    assert(be_bytes(0, 4) + Seq::<u8>::empty() =~= be_bytes(0, 4));
}

/// The buffer of timestamps of a tablet with one more row is that of the tablet
/// followed by eight bytes that read back as the new timestamp.
pub proof fn law_timestamps_are_appended(t: TabletView, timestamp: i64, row: Seq<Option<ValueView>>)
    ensures
        ({
            let before = t.timestamp_bytes();
            let after = t.with_row(timestamp, row).timestamp_bytes();
            &&& after.len() == before.len() + 8
            &&& after.take(before.len() as int) == before
            &&& signed64(be_nat(after.skip(before.len() as int))) == timestamp
        }),
{
    let before = t.timestamp_bytes();
    let after = t.with_row(timestamp, row).timestamp_bytes();
    assert(t.timestamps.push(timestamp).drop_last() =~= t.timestamps);
    lemma_be_bytes_len(pattern64(timestamp as int), 8);
    law_i64_round_trip(timestamp as int);
    assert(after.take(before.len() as int) =~= before);
    assert(after.skip(before.len() as int) =~= i64_bytes(timestamp as int));
}

/// Cells of every type can be inserted but vectors and unknowns; a tablet can be
/// serialized unless it has rows and such a column.
pub proof fn law_insertable_types(t: TabletView, ty: TSDataType)
    ensures
        insertable(ty) <==> ty != TSDataType::Vector && ty != TSDataType::Unknown,
        t.timestamps.len() == 0 ==> t.serializable(),
        t.timestamps.len() > 0 ==> (t.serializable() <==> !t.types.contains(TSDataType::Vector)
            && !t.types.contains(TSDataType::Unknown)),
{
    if t.timestamps.len() > 0 {
        if !t.types.contains(TSDataType::Vector) && !t.types.contains(TSDataType::Unknown) {
            assert forall|c: int| 0 <= c < t.types.len() implies insertable(
                #[trigger] t.types[c],
            ) by {
                assert(t.types.contains(t.types[c]));
            }
        }
    }
}

/// Lists of different lengths are reported with what they list and both counts.
pub proof fn law_count_mismatch(what: Seq<char>, count: nat, types: nat)
    ensures
        count_mismatch(what, count, types) == what + " count ("@ + decimal(count)
            + ") != type count ("@ + decimal(types) + ")"@,
{
}

} // verus!
