//! What asking a result set for its next row comes to.

use vstd::prelude::*;

use super::dataset::{DataSetView, NextRowView, RowView};
use crate::data::tsblock::{block_of, TsBlockView};
use crate::data::value::ValueView;
use crate::text::{decimal, signed_decimal};

verus! {

/// A result set that is not closed ends only when the server has no more data,
/// and then its query is closed; a page is asked for only when the server has
/// more. Rows and complaints come from open result sets, and leave them open.
pub proof fn law_end_means_no_more_data(ds: DataSetView)
    ensures
        !ds.closed ==> (ds.step().0 matches Ok(NextRowView::End(id)) ==> {
            &&& !ds.more_data
            &&& id == Some(ds.query_id)
            &&& ds.step().1.closed
        }),
        ds.closed ==> (ds.step().0 matches Ok(NextRowView::End(id)) && id is None && ds.step().1
            == ds),
        ds.step().0 matches Ok(NextRowView::Fetch) ==> {
            &&& !ds.closed
            &&& ds.more_data
            &&& ds.step().1.pending.len() == 0
            &&& ds.step().1.current is None
            &&& !ds.step().1.closed
        },
        ds.step().0 matches Ok(NextRowView::Row(_)) ==> !ds.closed && !ds.step().1.closed,
        ds.step().0 is Err ==> !ds.closed && !ds.step().1.closed,
    decreases ds.pending.len(),
{
    if !ds.closed && !ds.has_row() && ds.pending.len() > 0 {
        if let Ok(block) = block_of(ds.pending[0]) {
            law_end_means_no_more_data(
                DataSetView {
                    current: Some(block),
                    row_index: 0,
                    pending: ds.pending.drop_first(),
                    ..ds
                },
            );
        }
    }
}

/// Where no row is at hand, because every row of the current block has been
/// read and all waiting blocks are without rows, the next page is asked for
/// exactly when the server has more data; otherwise the result set ends.
pub proof fn law_no_row_at_hand(ds: DataSetView)
    requires
        !ds.closed,
        ds.current matches Some(b) ==> ds.row_index >= b.position_count,
        forall|i: int|
            0 <= i < ds.pending.len() ==> (block_of(#[trigger] ds.pending[i]) matches Ok(b)
                && b.position_count == 0),
    ensures
        ds.more_data ==> ds.step().0 == Ok::<NextRowView, Seq<char>>(NextRowView::Fetch),
        !ds.more_data ==> ds.step().0 == Ok::<NextRowView, Seq<char>>(
            NextRowView::End(Some(ds.query_id)),
        ),
    decreases ds.pending.len(),
{
    if ds.pending.len() > 0 {
        assert(block_of(ds.pending[0]) is Ok);
        let next = DataSetView {
            current: Some(block_of(ds.pending[0])->Ok_0),
            row_index: 0,
            pending: ds.pending.drop_first(),
            ..ds
        };
        assert forall|i: int| 0 <= i < next.pending.len() implies (block_of(
            #[trigger] next.pending[i],
        ) matches Ok(b) && b.position_count == 0) by {
            assert(next.pending[i] == ds.pending[i + 1]);
        }
        law_no_row_at_hand(next);
    }
}

/// Asking for a row leaves alone what the result set says of itself: the query,
/// its columns and how they map to block columns, and whether the server has
/// more.
pub proof fn law_step_keeps_the_query(ds: DataSetView)
    ensures
        ds.step().1.query_id == ds.query_id,
        ds.step().1.statement == ds.statement,
        ds.step().1.columns == ds.columns,
        ds.step().1.data_types == ds.data_types,
        ds.step().1.ignore_time_stamp == ds.ignore_time_stamp,
        ds.step().1.column_map == ds.column_map,
        ds.step().1.more_data == ds.more_data,
    decreases ds.pending.len(),
{
    if !ds.closed && !ds.has_row() && ds.pending.len() > 0 {
        if let Ok(block) = block_of(ds.pending[0]) {
            law_step_keeps_the_query(
                DataSetView {
                    current: Some(block),
                    row_index: 0,
                    pending: ds.pending.drop_first(),
                    ..ds
                },
            );
        }
    }
}

proof fn lemma_output_cells(ds: DataSetView, block: TsBlockView, row: int, k: nat)
    ensures
        match ds.output_cells(block, row, k) {
            Ok(cells) => {
                &&& cells.len() == k
                &&& forall|o: int|
                    0 <= o < k ==> ds.output_cell(block, row, o) == Ok::<ValueView, Seq<char>>(
                        #[trigger] cells[o],
                    )
            },
            Err(m) => exists|o: int|
                {
                    &&& 0 <= o < k
                    &&& #[trigger] ds.output_cell(block, row, o) == Err::<ValueView, Seq<char>>(m)
                    &&& forall|l: int| 0 <= l < o ==> #[trigger] ds.output_cell(block, row, l) is Ok
                },
        },
    decreases k,
{
    if k > 0 {
        lemma_output_cells(ds, block, row, (k - 1) as nat);
        match ds.output_cells(block, row, (k - 1) as nat) {
            Ok(cells) => {
                assert forall|l: int| 0 <= l < k - 1 implies #[trigger] ds.output_cell(
                    block,
                    row,
                    l,
                ) is Ok by {
                    assert(ds.output_cell(block, row, l) == Ok::<ValueView, Seq<char>>(cells[l]));
                }
                assert(ds.output_cell(block, row, k - 1) == ds.output_cell(block, row, k - 1));
            },
            Err(m) => {},
        }
    }
}

/// The next row of a block has one value per output column and carries the
/// block's timestamp unless timestamps are to be ignored. Only the position in
/// the block moves, by one.
pub proof fn law_row_is_read_from_the_block(ds: DataSetView, block: TsBlockView, row: RowView)
    requires
        !ds.closed,
        ds.current == Some(block),
        ds.row_index < block.position_count,
        ds.step().0 == Ok::<NextRowView, Seq<char>>(NextRowView::Row(row)),
    ensures
        row.values.len() == ds.columns.len(),
        ds.ignore_time_stamp ==> row.timestamp is None,
        !ds.ignore_time_stamp ==> row.timestamp == Some(block.timestamps[ds.row_index as int]),
        ds.step().1.row_index == ds.row_index + 1,
        ds.step().1.current == ds.current,
        ds.step().1.pending == ds.pending,
{
    lemma_output_cells(ds, block, ds.row_index as int, ds.columns.len());
}

/// The value of an output column is the cell in this row of the block column
/// that the column map names for it, or the row's timestamp where the map says
/// -1; without a map, output and block columns correspond one to one.
pub proof fn law_value_is_read_through_the_map(
    ds: DataSetView,
    block: TsBlockView,
    row: RowView,
    o: int,
)
    requires
        !ds.closed,
        ds.current == Some(block),
        ds.row_index < block.position_count,
        ds.step().0 == Ok::<NextRowView, Seq<char>>(NextRowView::Row(row)),
        0 <= o < ds.columns.len(),
    ensures
        ds.column_map is None ==> row.values[o] == block.columns[o][ds.row_index as int],
        ds.column_map matches Some(map) ==> o < map.len() && (map[o] == -1 || 0 <= map[o]
            < block.columns.len()),
        ds.column_map matches Some(map) ==> map[o] == -1 ==> row.values[o] == ValueView::Timestamp(
            block.timestamps[ds.row_index as int],
        ),
        ds.column_map matches Some(map) ==> map[o] >= 0 ==> row.values[o]
            == block.columns[map[o] as int][ds.row_index as int],
{
    let i = ds.row_index as int;
    lemma_output_cells(ds, block, i, ds.columns.len());
    assert(ds.output_cells(block, i, ds.columns.len()) == Ok::<Seq<ValueView>, Seq<char>>(
        row.values,
    ));
    assert(ds.output_cell(block, i, o) == Ok::<ValueView, Seq<char>>(row.values[o]));
}

/// A row of the current block is refused if and only if some output column has
/// no entry in the column map, or is mapped to a block column that does not
/// exist. The complaint is about the first such column, and the result set
/// stays as it was.
pub proof fn law_row_is_refused(ds: DataSetView, block: TsBlockView)
    requires
        !ds.closed,
        ds.current == Some(block),
        ds.row_index < block.position_count,
    ensures
        ds.column_map is None ==> (ds.step().0 is Err <==> ds.columns.len() > block.columns.len()),
        ds.column_map matches Some(map) ==> (ds.step().0 is Err <==> ds.columns.len() > map.len()
            || exists|o: int|
            0 <= o < ds.columns.len() && !(-1 <= #[trigger] map[o] < block.columns.len())),
        ds.step().0 is Err ==> ds.step().1 == ds,
        ds.step().0 is Ok ==> ds.step().0->Ok_0 is Row,
{
    let i = ds.row_index as int;
    lemma_output_cells(ds, block, i, ds.columns.len());
    let refused = ds.step().0 is Err;
    if refused {
        let m = ds.step().0->Err_0;
        let o = choose|o: int|
            0 <= o < ds.columns.len() && #[trigger] ds.output_cell(block, i, o) == Err::<
                ValueView,
                Seq<char>,
            >(m);
        if let Some(map) = ds.column_map {
            assert(o >= map.len() || !(-1 <= map[o] < block.columns.len()));
        }
    } else {
        let cells = ds.output_cells(block, i, ds.columns.len())->Ok_0;
        assert forall|o: int| 0 <= o < ds.columns.len() implies #[trigger] ds.output_cell(
            block,
            i,
            o,
        ) is Ok by {
            assert(ds.output_cell(block, i, o) == Ok::<ValueView, Seq<char>>(cells[o]));
        }
        if ds.columns.len() > 0 {
            assert(ds.output_cell(block, i, ds.columns.len() - 1) is Ok);
        }
        if let Some(map) = ds.column_map {
            assert forall|o: int| 0 <= o < ds.columns.len() implies -1 <= #[trigger] map[o]
                < block.columns.len() by {
                assert(ds.output_cell(block, i, o) is Ok);
            }
        }
    }
}

/// The complaint about a row names the first output column that cannot be
/// shown, or the block column that it is mapped to.
pub proof fn law_first_unmapped_column_is_named(ds: DataSetView, block: TsBlockView, o: int)
    requires
        !ds.closed,
        ds.current == Some(block),
        ds.row_index < block.position_count,
        0 <= o < ds.columns.len(),
        ds.column_map is Some,
        forall|l: int|
            0 <= l < o ==> l < ds.column_map->0.len() && -1 <= #[trigger] ds.column_map->0[l]
                < block.columns.len(),
    ensures
        o >= ds.column_map->0.len() ==> ds.step().0 == Err::<NextRowView, Seq<char>>(
            "column index map has "@ + decimal(ds.column_map->0.len())
                + " entries, need output column "@ + decimal(o as nat),
        ),
        o < ds.column_map->0.len() && !(-1 <= ds.column_map->0[o] < block.columns.len())
            ==> ds.step().0 == Err::<NextRowView, Seq<char>>(
            "column index map points at TsBlock column "@ + signed_decimal(
                ds.column_map->0[o] as int,
            ) + ", block has "@ + decimal(block.columns.len()),
        ),
{
    let i = ds.row_index as int;
    let map = ds.column_map->0;
    lemma_output_cells(ds, block, i, ds.columns.len());
    assert forall|l: int| 0 <= l < o implies #[trigger] ds.output_cell(block, i, l) is Ok by {
        assert(-1 <= map[l] < block.columns.len());
    }
    if o >= map.len() || !(-1 <= map[o] < block.columns.len()) {
        assert(ds.output_cell(block, i, o) is Err);
        if ds.output_cells(block, i, ds.columns.len()) is Ok {
            let cells = ds.output_cells(block, i, ds.columns.len())->Ok_0;
            assert(ds.output_cell(block, i, o) == Ok::<ValueView, Seq<char>>(cells[o]));
        } else {
            let m = ds.output_cells(block, i, ds.columns.len())->Err_0;
            let found = choose|found: int|
                {
                    &&& 0 <= found < ds.columns.len()
                    &&& #[trigger] ds.output_cell(block, i, found) == Err::<ValueView, Seq<char>>(m)
                    &&& forall|l: int|
                        0 <= l < found ==> #[trigger] ds.output_cell(block, i, l) is Ok
                };
            assert(found == o);
        }
    }
}

/// Where the current block has been read, the next waiting block takes its
/// place: asking goes on as if it had been decoded and stood at its first row.
/// A block that cannot be decoded is dropped with its complaint, and the blocks
/// behind it wait on.
pub proof fn law_next_block_takes_over(ds: DataSetView)
    requires
        !ds.closed,
        ds.current matches Some(b) ==> ds.row_index >= b.position_count,
        ds.pending.len() > 0,
    ensures
        block_of(ds.pending[0]) matches Ok(block) ==> ds.step() == (DataSetView {
            current: Some(block),
            row_index: 0,
            pending: ds.pending.drop_first(),
            ..ds
        }).step(),
        block_of(ds.pending[0]) matches Err(m) ==> {
            &&& ds.step().0 == Err::<NextRowView, Seq<char>>(m)
            &&& ds.step().1.pending == ds.pending.drop_first()
            &&& ds.step().1.current is None
            &&& !ds.step().1.closed
        },
{
}

/// Closing drops the rows at hand and nothing else.
pub proof fn law_close_drops_the_rows(ds: DataSetView)
    ensures
        ds.after_close().closed,
        ds.after_close().pending.len() == 0,
        ds.after_close().current is None,
        ds.after_close().query_id == ds.query_id,
        ds.after_close().statement == ds.statement,
        ds.after_close().columns == ds.columns,
        ds.after_close().data_types == ds.data_types,
        ds.after_close().ignore_time_stamp == ds.ignore_time_stamp,
        ds.after_close().column_map == ds.column_map,
{
}

} // verus!
