//! Query result iteration — the SessionDataSet state machine: drain the
//! current TsBlock, decode the next cached block, fetch more pages while
//! `moreData`, then auto-close.

use std::collections::VecDeque;
use vstd::prelude::*;
use vstd::string::*;

use crate::client::session::QueryHandle;
use crate::connection::tls::byte_strings;
use crate::data::record::values_view;
use crate::data::tablet::texts;
use crate::data::tsblock::{block_of, column_view, TsBlock, TsBlockView};
use crate::data::value::{Value, ValueView};
use crate::error::{Error, ErrorView, Result};
use crate::text::{decimal, push_decimal, push_signed_decimal, signed_decimal};

verus! {

/// One result row: the timestamp (`None` when the server set
/// `ignoreTimeStamp`, e.g. aggregations and SHOW statements) and one
/// [`Value`] per output column.
#[derive(Debug, Clone, PartialEq)]
pub struct Row {
    pub timestamp: Option<i64>,
    pub values: Vec<Value>,
}

/// A result row with its values as a sequence.
#[verifier::ext_equal]
pub struct RowView {
    pub timestamp: Option<i64>,
    pub values: Seq<ValueView>,
}

impl View for Row {
    type V = RowView;

    open spec fn view(&self) -> RowView {
        RowView { timestamp: self.timestamp, values: values_view(self.values@) }
    }
}

/// What asking for the next row comes to.
#[derive(Debug)]
pub enum NextRow {
    /// The next row.
    Row(Row),
    /// The rows at hand are used up, and the server has more: fetch the next
    /// page, hand it to [`SessionDataSet::supply_page`] and ask again.
    Fetch,
    /// There are no more rows. A query id says that the query has just been
    /// closed and that the server is to be told.
    End(Option<i64>),
}

/// An iterable query result set.
///
/// `fetchResultsV2` and `closeOperation` must reach the node that owns the
/// query id, so the session that ran the query stays pinned to the result set
/// until it is closed.
///
/// Not an iterator — [`SessionDataSet::next_row`] returns a `Result` so decode
/// errors surface cleanly. The query is closed automatically on exhaustion and
/// on [`SessionDataSet::close`].
#[derive(Debug)]
pub struct SessionDataSet {
    query_id: i64,
    statement: String,
    columns: Vec<String>,
    data_type_list: Vec<String>,
    ignore_time_stamp: bool,
    /// Output column ordinal → physical TsBlock column index; `-1` = time
    /// column; identity mapping when `None`.
    column_index_map: Option<Vec<i32>>,
    /// Cached serialized TsBlocks not yet decoded.
    pending_blocks: VecDeque<Vec<u8>>,
    /// Currently decoded block and the next row to yield from it.
    current: Option<TsBlock>,
    row_index: usize,
    more_data: bool,
    closed: bool,
}

/// A result set: how output columns map to block columns, the blocks at hand
/// and whether there are more.
#[verifier::ext_equal]
pub struct DataSetView {
    pub query_id: i64,
    pub statement: Seq<char>,
    pub columns: Seq<Seq<char>>,
    pub data_types: Seq<Seq<char>>,
    pub ignore_time_stamp: bool,
    pub column_map: Option<Seq<i32>>,
    pub pending: Seq<Seq<u8>>,
    pub current: Option<TsBlockView>,
    pub row_index: nat,
    pub more_data: bool,
    pub closed: bool,
}

/// What asking for the next row comes to, in sequences.
#[verifier::ext_equal]
pub enum NextRowView {
    Row(RowView),
    Fetch,
    End(Option<i64>),
}

impl View for NextRow {
    type V = NextRowView;

    open spec fn view(&self) -> NextRowView {
        match *self {
            NextRow::Row(r) => NextRowView::Row(r@),
            NextRow::Fetch => NextRowView::Fetch,
            NextRow::End(id) => NextRowView::End(id),
        }
    }
}

/// A column map, where there is one.
pub open spec fn map_view(map: Option<Vec<i32>>) -> Option<Seq<i32>> {
    match map {
        Some(m) => Some(m@),
        None => None,
    }
}

/// A block, where there is one.
pub open spec fn block_view(block: Option<TsBlock>) -> Option<TsBlockView> {
    match block {
        Some(b) => Some(b@),
        None => None,
    }
}

impl View for SessionDataSet {
    type V = DataSetView;

    closed spec fn view(&self) -> DataSetView {
        DataSetView {
            query_id: self.query_id,
            statement: self.statement@,
            columns: texts(self.columns@),
            data_types: texts(self.data_type_list@),
            ignore_time_stamp: self.ignore_time_stamp,
            column_map: map_view(self.column_index_map),
            pending: byte_strings(self.pending_blocks@),
            current: block_view(self.current),
            row_index: self.row_index as nat,
            more_data: self.more_data,
            closed: self.closed,
        }
    }
}

impl DataSetView {
    /// The current block's columns all have one cell per row.
    pub open spec fn wf(self) -> bool {
        self.current matches Some(b) ==> b.wf()
    }

    /// The block column that output column `ordinal` shows; `-1` is the time
    /// column.
    pub open spec fn physical(self, ordinal: int) -> std::result::Result<int, Seq<char>> {
        match self.column_map {
            None => Ok(ordinal),
            Some(map) => if ordinal < map.len() {
                Ok(map[ordinal] as int)
            } else {
                Err(
                    "column index map has "@ + decimal(map.len())
                        + " entries, need output column "@ + decimal(ordinal as nat),
                )
            },
        }
    }

    /// The cell of output column `ordinal` in row `row` of `block`.
    pub open spec fn output_cell(self, block: TsBlockView, row: int, ordinal: int) -> std::result::Result<
        ValueView,
        Seq<char>,
    > {
        match self.physical(ordinal) {
            Err(m) => Err(m),
            Ok(p) => if p == -1 {
                Ok(ValueView::Timestamp(block.timestamps[row]))
            } else if 0 <= p < block.columns.len() {
                Ok(block.columns[p][row])
            } else {
                Err(
                    "column index map points at TsBlock column "@ + signed_decimal(p)
                        + ", block has "@ + decimal(block.columns.len()),
                )
            },
        }
    }

    /// The cells of the first `k` output columns in row `row` of `block`.
    pub open spec fn output_cells(self, block: TsBlockView, row: int, k: nat) -> std::result::Result<
        Seq<ValueView>,
        Seq<char>,
    >
        decreases k,
    {
        if k == 0 {
            Ok(Seq::empty())
        } else {
            match (self.output_cells(block, row, (k - 1) as nat), self.output_cell(
                block,
                row,
                k - 1,
            )) {
                (Err(m), _) => Err(m),
                (Ok(_), Err(m)) => Err(m),
                (Ok(cells), Ok(cell)) => Ok(cells.push(cell)),
            }
        }
    }

    /// The output row at row `row` of `block`.
    pub open spec fn output_row(self, block: TsBlockView, row: int) -> std::result::Result<
        RowView,
        Seq<char>,
    > {
        match self.output_cells(block, row, self.columns.len()) {
            Err(m) => Err(m),
            Ok(values) => Ok(
                RowView {
                    timestamp: if self.ignore_time_stamp {
                        None
                    } else {
                        Some(block.timestamps[row])
                    },
                    values,
                },
            ),
        }
    }

    /// Whether the current block has an unread row.
    pub open spec fn has_row(self) -> bool {
        self.current matches Some(b) && self.row_index < b.position_count
    }

    /// The result set after it is closed.
    pub open spec fn after_close(self) -> DataSetView {
        DataSetView { closed: true, pending: Seq::empty(), current: None, ..self }
    }

    /// What asking for the next row comes to, and the result set afterwards:
    /// the next row of the current block; else of the next block that has one;
    /// else a fetch where the server has more; else the end.
    pub open spec fn step(self) -> (std::result::Result<NextRowView, Seq<char>>, DataSetView)
        decreases self.pending.len(),
    {
        if self.closed {
            (Ok(NextRowView::End(None)), self)
        } else if self.has_row() {
            match self.output_row(self.current->0, self.row_index as int) {
                Ok(row) => (
                    Ok(NextRowView::Row(row)),
                    DataSetView { row_index: self.row_index + 1, ..self },
                ),
                Err(m) => (Err(m), self),
            }
        } else if self.pending.len() > 0 {
            match block_of(self.pending[0]) {
                Ok(block) => DataSetView {
                    current: Some(block),
                    row_index: 0,
                    pending: self.pending.drop_first(),
                    ..self
                }.step(),
                Err(m) => (
                    Err(m),
                    DataSetView { current: None, pending: self.pending.drop_first(), ..self },
                ),
            }
        } else if self.more_data {
            (Ok(NextRowView::Fetch), DataSetView { current: None, ..self })
        } else {
            (Ok(NextRowView::End(Some(self.query_id))), self.after_close())
        }
    }
}

proof fn lemma_cells_fail_early(ds: DataSetView, block: TsBlockView, row: int, i: nat, n: nat)
    requires
        i <= n,
        ds.output_cells(block, row, i) is Err,
    ensures
        ds.output_cells(block, row, n) == ds.output_cells(block, row, i),
    decreases n,
{
    if i < n {
        lemma_cells_fail_early(ds, block, row, i, (n - 1) as nat);
    }
}

impl SessionDataSet {
    /// The result set of a query.
    pub fn new(handle: QueryHandle) -> (ds: SessionDataSet)
        ensures
            ds@.wf(),
            ds@ == (DataSetView {
                query_id: handle.query_id,
                statement: handle.statement@,
                columns: texts(handle.columns@),
                data_types: texts(handle.data_type_list@),
                ignore_time_stamp: handle.ignore_time_stamp,
                column_map: map_view(handle.column_index2_ts_block_column_index_list),
                pending: byte_strings(handle.query_result@),
                current: None,
                row_index: 0,
                more_data: handle.more_data,
                closed: false,
            }),
    {
        SessionDataSet {
            query_id: handle.query_id,
            statement: handle.statement,
            columns: handle.columns,
            data_type_list: handle.data_type_list,
            ignore_time_stamp: handle.ignore_time_stamp,
            column_index_map: handle.column_index2_ts_block_column_index_list,
            pending_blocks: queue_of(handle.query_result),
            current: None,
            row_index: 0,
            more_data: handle.more_data,
            closed: false,
        }
    }

    /// The id that the server knows the query by.
    pub fn query_id(&self) -> (id: i64)
        ensures
            id == self@.query_id,
    {
        self.query_id
    }

    /// The statement that was run.
    pub fn statement(&self) -> (sql: &str)
        ensures
            sql@ == self@.statement,
    {
        self.statement.as_str()
    }

    /// Output column names.
    pub fn columns(&self) -> (columns: &[String])
        ensures
            texts(columns@) == self@.columns,
    {
        self.columns.as_slice()
    }

    /// Output column type names as reported by the server
    /// (`"INT64"`, `"TEXT"`, …), parallel to [`SessionDataSet::columns`].
    pub fn column_types(&self) -> (types: &[String])
        ensures
            texts(types@) == self@.data_types,
    {
        self.data_type_list.as_slice()
    }

    /// Whether the server flagged this result as having no meaningful
    /// timestamps (row timestamps are then `None`).
    pub fn ignore_time_stamp(&self) -> (ignore: bool)
        ensures
            ignore == self@.ignore_time_stamp,
    {
        self.ignore_time_stamp
    }

    /// Advance to the next row of the blocks at hand. When they are used up,
    /// either a further page is to be fetched, or the result set is exhausted
    /// (the query is then auto-closed).
    pub fn next_row(&mut self) -> (next: Result<NextRow>)
        requires
            old(self)@.wf(),
        ensures
            final(self)@.wf(),
            final(self)@ == old(self)@.step().1,
            match (next, old(self)@.step().0) {
                (Ok(n), Ok(expected)) => n@ == expected,
                (Err(e), Err(m)) => e@ == ErrorView::Decode(m),
                _ => false,
            },
            !old(self)@.closed ==> (next matches Ok(NextRow::End(_)) ==> !old(self)@.more_data),
            next matches Ok(NextRow::Fetch) ==> !old(self)@.closed && old(self)@.more_data,
    {
        if self.closed {
            return Ok(NextRow::End(None));
        }
        loop
            invariant
                self@.wf(),
                !self@.closed,
                !old(self)@.closed,
                self@.more_data == old(self)@.more_data,
                self@.step() == old(self)@.step(),
            decreases self@.pending.len(),
        {
            // Unread rows in the current block → yield the next one.
            let unread = match &self.current {
                Some(block) => self.row_index < block.position_count,
                None => false,
            };
            if unread {
                match self.assemble_row() {
                    Ok(row) => {
                        self.row_index = self.row_index + 1;
                        return Ok(NextRow::Row(row));
                    },
                    Err(e) => return Err(e),
                }
            }
            // More cached blocks → decode the next one.
            let ghost before = self@;
            let ghost queue = self.pending_blocks@;
            match self.pending_blocks.pop_front() {
                Some(bytes) => {
                    proof {
                        assert(byte_strings(self.pending_blocks@) =~= byte_strings(
                            queue,
                        ).drop_first());
                        assert(before.pending[0] == bytes@);
                    }
                    self.current = None;
                    match TsBlock::decode(bytes.as_slice()) {
                        Ok(block) => {
                            self.current = Some(block);
                            self.row_index = 0;
                        },
                        Err(e) => return Err(e),
                    }
                },
                None => {
                    if self.more_data {
                        self.current = None;
                        return Ok(NextRow::Fetch);
                    }
                    // Exhausted → auto-close and report the end.
                    let id = self.close();
                    return Ok(NextRow::End(id));
                },
            }
        }
    }

    /// Takes in the next page that was fetched from the server.
    pub fn supply_page(&mut self, blocks: Vec<Vec<u8>>, more: bool)
        requires
            old(self)@.wf(),
        ensures
            final(self)@.wf(),
            final(self)@ == (DataSetView {
                pending: byte_strings(blocks@),
                more_data: more,
                ..old(self)@
            }),
    {
        self.pending_blocks = queue_of(blocks);
        self.more_data = more;
    }

    /// Build the output row at `self.row_index` of the current block,
    /// mapping output columns through `columnIndex2TsBlockColumnIndexList`
    /// (`-1` = time column; identity when absent).
    fn assemble_row(&self) -> (row: Result<Row>)
        requires
            self@.wf(),
            self@.has_row(),
        ensures
            match (row, self@.output_row(self@.current->0, self@.row_index as int)) {
                (Ok(r), Ok(expected)) => r@ == expected,
                (Err(e), Err(m)) => e@ == ErrorView::Decode(m),
                _ => false,
            },
    {
        let block = match &self.current {
            Some(block) => block,
            None => return Ok(Row { timestamp: None, values: Vec::new() }),
        };
        let ghost view = self@;
        let ghost b = block@;
        let i: usize = self.row_index;
        let mut values: Vec<Value> = Vec::new();
        let mut ordinal: usize = 0;
        assert(values_view(values@) =~= Seq::empty());
        while ordinal < self.columns.len()
            invariant
                ordinal <= self.columns@.len(),
                view == self@,
                view.wf(),
                b == block@,
                b.wf(),
                self.current == Some(*block),
                i == self.row_index < b.position_count,
                view.output_cells(b, i as int, ordinal as nat) == Ok::<Seq<ValueView>, Seq<char>>(
                    values_view(values@),
                ),
            decreases self.columns@.len() - ordinal,
        {
            let ghost before = values@;
            match self.output_value(block, ordinal) {
                Ok(v) => {
                    values.push(v);
                    assert(values_view(values@) =~= values_view(before).push(v@));
                },
                Err(e) => {
                    proof {
                        lemma_cells_fail_early(
                            view,
                            b,
                            i as int,
                            (ordinal + 1) as nat,
                            view.columns.len(),
                        );
                    }
                    return Err(e);
                },
            }
            ordinal += 1;
        }
        let timestamp = if self.ignore_time_stamp {
            None
        } else {
            Some(block.timestamps[i])
        };
        Ok(Row { timestamp, values })
    }

    /// The cell of one output column in the current row.
    fn output_value(&self, block: &TsBlock, ordinal: usize) -> (cell: Result<Value>)
        requires
            block@.wf(),
            self.row_index < block@.position_count,
        ensures
            match (cell, self@.output_cell(block@, self.row_index as int, ordinal as int)) {
                (Ok(v), Ok(expected)) => v@ == expected,
                (Err(e), Err(m)) => e@ == ErrorView::Decode(m),
                _ => false,
            },
    {
        let i: usize = self.row_index;
        let physical: i64 = match &self.column_index_map {
            Some(map) => {
                if ordinal >= map.len() {
                    let mut m = "column index map has ".to_owned();
                    push_decimal(&mut m, map.len() as u64);
                    m.append(" entries, need output column ");
                    push_decimal(&mut m, ordinal as u64);
                    return Err(Error::Decode(m));
                }
                map[ordinal] as i64
            },
            None => {
                if ordinal >= block.columns.len() {
                    return Err(no_such_column(ordinal as u64, block.columns.len()));
                }
                assert(block@.columns[ordinal as int] == column_view(
                    block.columns@[ordinal as int],
                ));
                return Ok(block.columns[ordinal][i].clone());
            },
        };
        if physical == -1 {
            return Ok(Value::Timestamp(block.timestamps[i]));
        }
        if physical < 0 {
            let mut m = "column index map points at TsBlock column ".to_owned();
            push_signed_decimal(&mut m, physical);
            m.append(", block has ");
            push_decimal(&mut m, block.columns.len() as u64);
            return Err(Error::Decode(m));
        }
        if physical as u64 >= block.columns.len() as u64 {
            return Err(no_such_column(physical as u64, block.columns.len()));
        }
        let p: usize = physical as usize;
        assert(block@.columns[p as int] == column_view(block.columns@[p as int]));
        Ok(block.columns[p][i].clone())
    }

    /// Closes the result set. The first time, the query id is returned: the
    /// server is to be told (best-effort). Idempotent; also invoked
    /// automatically on exhaustion.
    pub fn close(&mut self) -> (id: Option<i64>)
        requires
            old(self)@.wf(),
        ensures
            final(self)@.wf(),
            old(self)@.closed ==> id is None && final(self)@ == old(self)@,
            !old(self)@.closed ==> id == Some(old(self)@.query_id) && final(self)@ == old(
                self,
            )@.after_close(),
    {
        if self.closed {
            return None;
        }
        self.closed = true;
        self.pending_blocks.clear();
        self.current = None;
        assert(byte_strings(self.pending_blocks@) =~= Seq::empty());
        Some(self.query_id)
    }
}

fn no_such_column(physical: u64, columns: usize) -> (e: Error)
    ensures
        e@ == ErrorView::Decode(
            "column index map points at TsBlock column "@ + signed_decimal(physical as int)
                + ", block has "@ + decimal(columns as nat),
        ),
{
    let mut m = "column index map points at TsBlock column ".to_owned();
    push_decimal(&mut m, physical);
    m.append(", block has ");
    push_decimal(&mut m, columns as u64);
    Error::Decode(m)
}

/// The blocks as a queue, the first at the front.
fn queue_of(blocks: Vec<Vec<u8>>) -> (queue: VecDeque<Vec<u8>>)
    ensures
        byte_strings(queue@) == byte_strings(blocks@),
{
    let ghost all = blocks@;
    let mut rest = blocks;
    let mut queue: VecDeque<Vec<u8>> = VecDeque::new();
    while rest.len() > 0
        invariant
            rest@.len() <= all.len(),
            rest@ == all.subrange(0, rest@.len() as int),
            queue@ == all.subrange(rest@.len() as int, all.len() as int),
        decreases rest@.len(),
    {
        match rest.pop() {
            Some(block) => {
                queue.push_front(block);
                assert(queue@ =~= all.subrange(rest@.len() as int, all.len() as int));
                assert(rest@ =~= all.subrange(0, rest@.len() as int));
            },
            None => {},
        }
    }
    assert(queue@ =~= all);
    queue
}

/// The rows of one block from `row` on, as output rows.
pub open spec fn block_rows(ds: DataSetView, block: TsBlockView, row: nat) -> std::result::Result<
    Seq<RowView>,
    Seq<char>,
>
    decreases block.position_count - row,
{
    if row >= block.position_count {
        Ok(Seq::empty())
    } else {
        match ds.output_row(block, row as int) {
            Err(m) => Err(m),
            Ok(r) => match block_rows(ds, block, row + 1) {
                Err(m) => Err(m),
                Ok(rest) => Ok(seq![r] + rest),
            },
        }
    }
}

/// The rows of the given blocks, one block after the other.
pub open spec fn pending_rows(ds: DataSetView, blocks: Seq<Seq<u8>>) -> std::result::Result<
    Seq<RowView>,
    Seq<char>,
>
    decreases blocks.len(),
{
    if blocks.len() == 0 {
        Ok(Seq::empty())
    } else {
        match block_of(blocks[0]) {
            Err(m) => Err(m),
            Ok(block) => match block_rows(ds, block, 0) {
                Err(m) => Err(m),
                Ok(rows) => match pending_rows(ds, blocks.drop_first()) {
                    Err(m) => Err(m),
                    Ok(rest) => Ok(rows + rest),
                },
            },
        }
    }
}

/// All rows at hand: those left of the current block, then those of the
/// blocks that are waiting.
pub open spec fn rows_at_hand(ds: DataSetView) -> std::result::Result<Seq<RowView>, Seq<char>> {
    if ds.closed {
        Ok(Seq::empty())
    } else {
        let first = match ds.current {
            Some(block) => block_rows(ds, block, ds.row_index),
            None => Ok(Seq::empty()),
        };
        match first {
            Err(m) => Err(m),
            Ok(rows) => match pending_rows(ds, ds.pending) {
                Err(m) => Err(m),
                Ok(rest) => Ok(rows + rest),
            },
        }
    }
}

/// Whether two result sets map output columns alike.
pub open spec fn same_mapping(a: DataSetView, b: DataSetView) -> bool {
    a.columns == b.columns && a.column_map == b.column_map && a.ignore_time_stamp
        == b.ignore_time_stamp
}

proof fn lemma_same_cells(
    a: DataSetView,
    b: DataSetView,
    block: TsBlockView,
    row: int,
    k: nat,
)
    requires
        same_mapping(a, b),
    ensures
        a.output_cells(block, row, k) == b.output_cells(block, row, k),
    decreases k,
{
    if k > 0 {
        lemma_same_cells(a, b, block, row, (k - 1) as nat);
    }
}

proof fn lemma_same_block_rows(a: DataSetView, b: DataSetView, block: TsBlockView, row: nat)
    requires
        same_mapping(a, b),
    ensures
        block_rows(a, block, row) == block_rows(b, block, row),
    decreases block.position_count - row,
{
    if row < block.position_count {
        lemma_same_cells(a, b, block, row as int, a.columns.len());
        lemma_same_block_rows(a, b, block, row + 1);
    }
}

proof fn lemma_same_pending_rows(a: DataSetView, b: DataSetView, blocks: Seq<Seq<u8>>)
    requires
        same_mapping(a, b),
    ensures
        pending_rows(a, blocks) == pending_rows(b, blocks),
    decreases blocks.len(),
{
    if blocks.len() > 0 {
        if let Ok(block) = block_of(blocks[0]) {
            lemma_same_block_rows(a, b, block, 0);
        }
        lemma_same_pending_rows(a, b, blocks.drop_first());
    }
}

/// Asking for rows drains the rows at hand in order: each row handed out is the
/// first of those at hand, and a fetch or the end comes only when none is left.
/// Blocks without rows are passed over.
pub proof fn law_rows_come_in_order(ds: DataSetView)
    requires
        rows_at_hand(ds) is Ok,
    ensures
        match ds.step() {
            (Ok(NextRowView::Row(row)), after) => rows_at_hand(after) matches Ok(rest)
                && rows_at_hand(ds) == Ok::<Seq<RowView>, Seq<char>>(seq![row] + rest),
            (Ok(NextRowView::Fetch), after) => rows_at_hand(ds)->Ok_0.len() == 0
                && ds.more_data && !ds.closed,
            (Ok(NextRowView::End(_)), after) => rows_at_hand(ds)->Ok_0.len() == 0 && after.closed
                && (ds.closed || !ds.more_data),
            (Err(_), _) => false,
        },
    decreases ds.pending.len(),
{
    if ds.closed {
    } else if ds.has_row() {
        let block = ds.current->0;
        let after = DataSetView { row_index: ds.row_index + 1, ..ds };
        lemma_same_block_rows(ds, after, block, ds.row_index + 1);
        lemma_same_pending_rows(ds, after, ds.pending);
        let row = ds.output_row(block, ds.row_index as int)->Ok_0;
        let rest = block_rows(ds, block, ds.row_index + 1)->Ok_0;
        let tail = pending_rows(ds, ds.pending)->Ok_0;
        assert((seq![row] + rest) + tail =~= seq![row] + (rest + tail));
    } else if ds.pending.len() > 0 {
        let block = block_of(ds.pending[0])->Ok_0;
        let next = DataSetView {
            current: Some(block),
            row_index: 0,
            pending: ds.pending.drop_first(),
            ..ds
        };
        lemma_same_block_rows(ds, next, block, 0);
        lemma_same_pending_rows(ds, next, ds.pending.drop_first());
        let rows = block_rows(ds, block, 0)->Ok_0;
        let tail = pending_rows(ds, ds.pending.drop_first())->Ok_0;
        assert(Seq::<RowView>::empty() + (rows + tail) =~= rows + tail);
        assert(rows_at_hand(next) == rows_at_hand(ds));
        law_rows_come_in_order(next);
    } else {
        assert(rows_at_hand(ds)->Ok_0 =~= Seq::empty());
    }
}

/// A closed result set gives no more rows, asks for no page and is not closed a
/// second time.
pub proof fn law_closed_stays_closed(ds: DataSetView)
    ensures
        ds.after_close().step() == (
            Ok::<NextRowView, Seq<char>>(NextRowView::End(None)),
            ds.after_close(),
        ),
        rows_at_hand(ds.after_close()) == Ok::<Seq<RowView>, Seq<char>>(Seq::empty()),
{
}

} // verus!
