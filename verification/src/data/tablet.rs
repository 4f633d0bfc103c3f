//! A batch of rows for one device (tree model) or one table (table model),
//! serialized column-major for `insertTablet`.

use vstd::prelude::*;
use vstd::string::*;
use vstd::utf8::encode_utf8;

use super::bitmap::{lsb_byte, lsb_packed, pack_bits_lsb_first, packed_len};
use super::value::{value_text, value_type, Value, ValueView};
use super::{data_type_name, ColumnCategory, TSDataType};
use crate::error::{Error, ErrorView, Result};
use crate::order::{
    law_ordering_is_idempotent, law_stable_order, reorder_timestamps, reordered, row_numbers,
    rows, stable_order, timestamp_order,
};
use crate::text::{decimal, push_decimal};
use crate::wire::{be_bytes, i32_bytes, i64_bytes, push_be, push_i32, push_i64};

verus! {

/// A column-major batch of rows for `insertTablet`.
///
/// Tree model: `target` is the device id (e.g. `root.sg.d1`) and
/// `column_categories` is `None`. Table model (via [`Tablet::new_table`]):
/// `target` is the table name and every column carries a
/// [`ColumnCategory`].
///
/// Rows are stably sorted by timestamp before serialization; the server fast
/// path assumes sorted input.
#[derive(Debug)]
pub struct Tablet {
    /// Device id (tree model) or table name (table model).
    target: String,
    /// Measurement names (tree model) or column names (table model).
    measurements: Vec<String>,
    types: Vec<TSDataType>,
    timestamps: Vec<i64>,
    /// Column-major: `values[col][row]`, `None` = null cell.
    values: Vec<Vec<Option<Value>>>,
    /// Table model only: one category per column.
    column_categories: Option<Vec<ColumnCategory>>,
    /// Tree model only: write to an aligned device. Always `false` on the
    /// wire for table-model tablets.
    aligned: bool,
}

/// A tablet with its texts, rows and columns as sequences.
#[verifier::ext_equal]
pub struct TabletView {
    pub target: Seq<char>,
    pub measurements: Seq<Seq<char>>,
    pub types: Seq<TSDataType>,
    pub timestamps: Seq<i64>,
    pub values: Seq<Seq<Option<ValueView>>>,
    pub column_categories: Option<Seq<ColumnCategory>>,
    pub aligned: bool,
}

/// The texts of a list of strings.
pub open spec fn texts(list: Seq<String>) -> Seq<Seq<char>> {
    list.map_values(|s: String| s@)
}

/// A cell; `None` is a null cell.
pub open spec fn cell_view(cell: Option<Value>) -> Option<ValueView> {
    match cell {
        Some(v) => Some(v@),
        None => None,
    }
}

/// The cells of a row or column.
pub open spec fn cells_view(cells: Seq<Option<Value>>) -> Seq<Option<ValueView>> {
    cells.map_values(|c: Option<Value>| cell_view(c))
}

/// The cells of several columns.
pub open spec fn columns_view(columns: Seq<Vec<Option<Value>>>) -> Seq<Seq<Option<ValueView>>> {
    columns.map_values(|c: Vec<Option<Value>>| cells_view(c@))
}

/// A list of categories, where there is one.
pub open spec fn categories_view(categories: Option<Vec<ColumnCategory>>) -> Option<
    Seq<ColumnCategory>,
> {
    match categories {
        Some(c) => Some(c@),
        None => None,
    }
}

/// Whether a cell may stand in a column of type `ty`: nulls always may, a
/// value must carry the column's type.
pub open spec fn cell_fits(ty: TSDataType, cell: Option<ValueView>) -> bool {
    match cell {
        None => true,
        Some(ValueView::Null) => true,
        Some(v) => value_type(v) == Some(ty),
    }
}

/// A cell with an explicit null value turned into the null cell.
pub open spec fn plain_cell(cell: Option<ValueView>) -> Option<ValueView> {
    if cell == Some(ValueView::Null) {
        None
    } else {
        cell
    }
}

/// Whether cells of type `ty` can be written into an insert buffer.
pub open spec fn insertable(ty: TSDataType) -> bool {
    !(ty is Vector) && !(ty is Unknown)
}

impl TabletView {
    /// One column per type and measurement, one cell per row in each, every
    /// value of its column's type, one category per column where there are
    /// categories, and no alignment for table-model tablets.
    pub open spec fn wf(self) -> bool {
        &&& self.measurements.len() == self.types.len()
        &&& self.values.len() == self.types.len()
        &&& forall|c: int|
            0 <= c < self.values.len() ==> (#[trigger] self.values[c]).len()
                == self.timestamps.len()
        &&& forall|c: int, r: int|
            0 <= c < self.values.len() && 0 <= r < self.timestamps.len() ==> (
            #[trigger] self.values[c][r] matches Some(v) ==> value_type(v) == Some(self.types[c]))
        &&& self.column_categories matches Some(categories) ==> categories.len()
            == self.types.len() && !self.aligned
    }

    /// Whether the tablet can be serialized: it has no rows, or each column
    /// has a type that can be inserted.
    pub open spec fn serializable(self) -> bool {
        self.timestamps.len() == 0 || forall|c: int|
            0 <= c < self.types.len() ==> insertable(#[trigger] self.types[c])
    }

    /// The first of the columns before `k` whose cell in `row` does not fit.
    pub open spec fn first_misfit(self, row: Seq<Option<ValueView>>, k: nat) -> Option<int>
        decreases k,
    {
        if k == 0 {
            None
        } else {
            match self.first_misfit(row, (k - 1) as nat) {
                Some(i) => Some(i),
                None => if cell_fits(self.types[k - 1], row[k - 1]) {
                    None
                } else {
                    Some(k - 1)
                },
            }
        }
    }

    /// The complaint about a row that cannot be appended.
    pub open spec fn row_complaint(self, row: Seq<Option<ValueView>>) -> Option<Seq<char>> {
        if row.len() != self.types.len() {
            Some(
                "row has "@ + decimal(row.len()) + " cells, tablet has "@ + decimal(
                    self.types.len(),
                ) + " columns"@,
            )
        } else {
            match self.first_misfit(row, row.len()) {
                Some(i) => Some(
                    "column "@ + decimal(i as nat) + " ("@ + self.measurements[i] + ") expects "@
                        + data_type_name(self.types[i]) + ", got "@ + value_text(row[i]->0),
                ),
                None => None,
            }
        }
    }

    /// The tablet with one more row.
    pub open spec fn with_row(self, timestamp: i64, row: Seq<Option<ValueView>>) -> TabletView {
        TabletView {
            timestamps: self.timestamps.push(timestamp),
            values: Seq::new(
                self.values.len(),
                |c: int| self.values[c].push(plain_cell(row[c])),
            ),
            ..self
        }
    }

    /// The tablet with its rows in stable timestamp order.
    pub open spec fn sorted(self) -> TabletView {
        let order = stable_order(self.timestamps);
        TabletView {
            timestamps: reordered(self.timestamps, order),
            values: self.values.map_values(|c: Seq<Option<ValueView>>| reordered(c, order)),
            ..self
        }
    }

    /// The buffer of timestamps: eight bytes per row.
    pub open spec fn timestamp_bytes(self) -> Seq<u8> {
        times_bytes(self.timestamps)
    }

    /// The buffer of values: all cells column by column, then a null section
    /// per column.
    pub open spec fn value_bytes(self) -> Seq<u8> {
        columns_bytes(self.types, self.values, self.values.len()) + null_sections(
            self.values,
            self.timestamps.len(),
            self.values.len(),
        )
    }
}

/// Eight bytes per timestamp.
pub open spec fn times_bytes(times: Seq<i64>) -> Seq<u8>
    decreases times.len(),
{
    if times.len() == 0 {
        Seq::empty()
    } else {
        times_bytes(times.drop_last()) + i64_bytes(times.last() as int)
    }
}

/// A four-byte length and the bytes themselves.
pub open spec fn binary_bytes(bytes: Seq<u8>) -> Seq<u8> {
    be_bytes(bytes.len(), 4) + bytes
}

/// A cell's bytes in a column of type `ty`; a null cell takes the bytes of a
/// placeholder: zero, the least value, the least date or an empty string.
pub open spec fn cell_bytes(ty: TSDataType, cell: Option<ValueView>) -> Seq<u8> {
    match cell {
        Some(ValueView::Boolean(b)) => seq![
            if b {
                1u8
            } else {
                0u8
            },
        ],
        Some(ValueView::Int32(x)) => i32_bytes(x as int),
        Some(ValueView::Date(x)) => i32_bytes(x as int),
        Some(ValueView::Int64(x)) => i64_bytes(x as int),
        Some(ValueView::Timestamp(x)) => i64_bytes(x as int),
        Some(ValueView::Float(bits)) => be_bytes(bits as nat, 4),
        Some(ValueView::Double(bits)) => be_bytes(bits as nat, 8),
        Some(ValueView::Text(s)) => binary_bytes(encode_utf8(s)),
        Some(ValueView::String(s)) => binary_bytes(encode_utf8(s)),
        Some(ValueView::Blob(b)) => binary_bytes(b),
        Some(ValueView::Object(b)) => binary_bytes(b),
        _ => match ty {
            TSDataType::Boolean => seq![0u8],
            TSDataType::Int32 => i32_bytes(i32::MIN as int),
            TSDataType::Int64 => i64_bytes(i64::MIN as int),
            TSDataType::Timestamp => i64_bytes(i64::MIN as int),
            TSDataType::Float => be_bytes(0xFF7F_FFFF, 4),
            TSDataType::Double => be_bytes(0xFFEF_FFFF_FFFF_FFFF, 8),
            TSDataType::Date => i32_bytes(10000101),
            _ => binary_bytes(Seq::empty()),
        },
    }
}

/// The cells of a column, one after the other.
pub open spec fn column_bytes(ty: TSDataType, cells: Seq<Option<ValueView>>) -> Seq<u8>
    decreases cells.len(),
{
    if cells.len() == 0 {
        Seq::empty()
    } else {
        column_bytes(ty, cells.drop_last()) + cell_bytes(ty, cells.last())
    }
}

/// The first `k` columns, one after the other.
pub open spec fn columns_bytes(
    types: Seq<TSDataType>,
    columns: Seq<Seq<Option<ValueView>>>,
    k: nat,
) -> Seq<u8>
    decreases k,
{
    if k == 0 {
        Seq::empty()
    } else {
        columns_bytes(types, columns, (k - 1) as nat) + column_bytes(
            types[k - 1],
            columns[k - 1],
        )
    }
}

/// Which cells are null.
pub open spec fn null_flags(cells: Seq<Option<ValueView>>) -> Seq<bool> {
    cells.map_values(|c: Option<ValueView>| c is None)
}

/// A column's null section: a flag byte (1 = column has nulls) followed, when
/// flagged, by `rows/8 + 1` bytes with bit=1 for null rows, least significant
/// bit first.
pub open spec fn null_section(cells: Seq<Option<ValueView>>, rows: nat) -> Seq<u8> {
    if null_flags(cells).contains(true) {
        seq![1u8] + lsb_packed(null_flags(cells), rows / 8 + 1)
    } else {
        seq![0u8]
    }
}

/// The null sections of the first `k` columns.
pub open spec fn null_sections(
    columns: Seq<Seq<Option<ValueView>>>,
    rows: nat,
    k: nat,
) -> Seq<u8>
    decreases k,
{
    if k == 0 {
        Seq::empty()
    } else {
        null_sections(columns, rows, (k - 1) as nat) + null_section(columns[k - 1], rows)
    }
}

/// Appends a 4-byte big-endian length prefix and the bytes
/// (TEXT/STRING/BLOB/OBJECT).
pub(crate) fn write_binary(buf: &mut Vec<u8>, bytes: &[u8])
    ensures
        final(buf)@ == old(buf)@ + binary_bytes(bytes@),
{
    push_be(buf, bytes.len() as u64, 4);
    buf.extend_from_slice(bytes);
    assert(buf@ =~= old(buf)@ + binary_bytes(bytes@));
}

/// Appends a value as it stands in a column of its own type.
pub(crate) fn write_value(buf: &mut Vec<u8>, value: &Value)
    requires
        !(value@ is Null),
    ensures
        forall|ty: TSDataType|
            final(buf)@ == old(buf)@ + #[trigger] cell_bytes(ty, Some(value@)),
{
    match value {
        Value::Boolean(b) => {
            let byte: u8 = if *b {
                1
            } else {
                0
            };
            buf.push(byte);
            assert(buf@ =~= old(buf)@ + seq![byte]);
        },
        Value::Int32(x) => push_i32(buf, *x),
        Value::Date(x) => push_i32(buf, *x),
        Value::Int64(x) => push_i64(buf, *x),
        Value::Timestamp(x) => push_i64(buf, *x),
        Value::Float(x) => push_be(buf, x.bits as u64, 4),
        Value::Double(x) => push_be(buf, x.bits, 8),
        Value::Text(s) => write_binary(buf, s.as_str().as_bytes()),
        Value::String(s) => write_binary(buf, s.as_str().as_bytes()),
        Value::Blob(b) => write_binary(buf, b.as_slice()),
        Value::Object(b) => write_binary(buf, b.as_slice()),
        Value::Null => {},
    }
}

/// Writes one cell, using sentinel placeholders for nulls (any placeholder
/// works, the server masks by bitmap).
fn write_cell(buf: &mut Vec<u8>, ty: TSDataType, cell: &Option<Value>)
    requires
        insertable(ty),
        cell_view(*cell) matches Some(v) ==> value_type(v) == Some(ty),
    ensures
        final(buf)@ == old(buf)@ + cell_bytes(ty, cell_view(*cell)),
{
    match cell {
        Some(v) => write_value(buf, v),
        None => match ty {
            TSDataType::Boolean => {
                buf.push(0);
                assert(buf@ =~= old(buf)@ + seq![0u8]);
            },
            TSDataType::Int32 => push_i32(buf, i32::MIN),
            TSDataType::Int64 => push_i64(buf, i64::MIN),
            TSDataType::Timestamp => push_i64(buf, i64::MIN),
            TSDataType::Float => push_be(buf, 0xFF7F_FFFF, 4),
            TSDataType::Double => push_be(buf, 0xFFEF_FFFF_FFFF_FFFF, 8),
            // 10000101 = 1000-01-01 (yyyyMMdd).
            TSDataType::Date => push_i32(buf, 10000101),
            _ => {
                let nothing: Vec<u8> = Vec::new();
                write_binary(buf, nothing.as_slice());
            },
        },
    }
}

/// Appends the cells of one column.
fn write_column(buf: &mut Vec<u8>, ty: TSDataType, column: &Vec<Option<Value>>)
    requires
        column@.len() > 0 ==> insertable(ty),
        forall|r: int|
            0 <= r < column@.len() ==> (cell_view(#[trigger] column@[r]) matches Some(v)
                ==> value_type(v) == Some(ty)),
    ensures
        final(buf)@ == old(buf)@ + column_bytes(ty, cells_view(column@)),
{
    let ghost cells = cells_view(column@);
    let mut r: usize = 0;
    assert(cells.subrange(0, 0) =~= Seq::empty());
    assert(buf@ =~= old(buf)@ + Seq::<u8>::empty());
    while r < column.len()
        invariant
            r <= column@.len(),
            cells == cells_view(column@),
            column@.len() > 0 ==> insertable(ty),
            forall|k: int|
                0 <= k < column@.len() ==> (cell_view(#[trigger] column@[k]) matches Some(v)
                    ==> value_type(v) == Some(ty)),
            buf@ == old(buf)@ + column_bytes(ty, cells.subrange(0, r as int)),
        decreases column@.len() - r,
    {
        write_cell(buf, ty, &column[r]);
        proof {
            assert(cells.subrange(0, r + 1).drop_last() =~= cells.subrange(0, r as int));
        }
        r += 1;
        assert(buf@ =~= old(buf)@ + column_bytes(ty, cells.subrange(0, r as int)));
    }
    assert(cells.subrange(0, r as int) =~= cells);
}

/// Appends the null section of one column.
fn write_null_section(buf: &mut Vec<u8>, column: &Vec<Option<Value>>, rows: usize)
    requires
        column@.len() == rows,
    ensures
        final(buf)@ == old(buf)@ + null_section(cells_view(column@), rows as nat),
{
    let ghost cells = cells_view(column@);
    let mut nulls: Vec<bool> = Vec::new();
    let mut any = false;
    let mut r: usize = 0;
    while r < column.len()
        invariant
            r <= column@.len(),
            cells == cells_view(column@),
            nulls@ == null_flags(cells).subrange(0, r as int),
            any == null_flags(cells).subrange(0, r as int).contains(true),
        decreases column@.len() - r,
    {
        let null = column[r].is_none();
        nulls.push(null);
        any = any || null;
        proof {
            let prefix = null_flags(cells).subrange(0, r as int);
            let longer = null_flags(cells).subrange(0, r + 1);
            assert(longer =~= prefix.push(null));
            if prefix.contains(true) {
                let k = choose|k: int| 0 <= k < prefix.len() && prefix[k] == true;
                assert(longer[k]);
            }
            if null {
                assert(longer[r as int]);
            }
        }
        r += 1;
    }
    assert(null_flags(cells).subrange(0, r as int) =~= null_flags(cells));
    if any {
        buf.push(1);
        // Pad to the server's fixed `rows/8 + 1` BitMap length.
        let mut bitmap = pack_bits_lsb_first(nulls.as_slice());
        let len: usize = rows / 8 + 1;
        bitmap.resize(len, 0);
        assert(bitmap@ =~= lsb_packed(nulls@, len as nat)) by {
            assert forall|j: int| packed_len(rows as int) <= j < len implies lsb_byte(nulls@, j)
                == 0 by {
                reveal(lsb_byte);
            }
            assert forall|j: int| 0 <= j < packed_len(rows as int) implies bitmap@[j] == lsb_byte(
                nulls@,
                j,
            ) by {
                assert(bitmap@.subrange(0, packed_len(rows as int))[j] == bitmap@[j]);
            }
        }
        buf.extend_from_slice(bitmap.as_slice());
        assert(buf@ =~= old(buf)@ + null_section(cells, rows as nat));
    } else {
        buf.push(0);
        assert(buf@ =~= old(buf)@ + null_section(cells, rows as nat));
    }
}

/// The bytes of an OBJECT segment: `[1 byte isEOF][8 byte big-endian
/// offset][content]`.
pub open spec fn object_segment(is_eof: bool, offset: int, content: Seq<u8>) -> Seq<u8> {
    seq![
        if is_eof {
            1u8
        } else {
            0u8
        },
    ] + i64_bytes(offset) + content
}

/// A column taken in the given order.
fn reorder_column(column: &Vec<Option<Value>>, order: &Vec<usize>) -> (out: Vec<Option<Value>>)
    requires
        forall|i: int| 0 <= i < order@.len() ==> #[trigger] order@[i] < column@.len(),
    ensures
        cells_view(out@) == reordered(cells_view(column@), row_numbers(order@)),
{
    let ghost expected = reordered(cells_view(column@), row_numbers(order@));
    let mut out: Vec<Option<Value>> = Vec::new();
    let mut i: usize = 0;
    assert(cells_view(out@) =~= expected.subrange(0, 0));
    while i < order.len()
        invariant
            i <= order@.len(),
            forall|k: int| 0 <= k < order@.len() ==> #[trigger] order@[k] < column@.len(),
            expected == reordered(cells_view(column@), row_numbers(order@)),
            cells_view(out@) == expected.subrange(0, i as int),
        decreases order@.len() - i,
    {
        let ghost before = out@;
        let cell = match &column[order[i]] {
            Some(v) => Some(v.clone()),
            None => None,
        };
        out.push(cell);
        i += 1;
        assert(cells_view(out@) =~= cells_view(before).push(cell_view(cell)));
        assert(cells_view(out@) =~= expected.subrange(0, i as int));
    }
    assert(expected.subrange(0, i as int) =~= expected);
    out
}

impl View for Tablet {
    type V = TabletView;

    closed spec fn view(&self) -> TabletView {
        TabletView {
            target: self.target@,
            measurements: texts(self.measurements@),
            types: self.types@,
            timestamps: self.timestamps@,
            values: columns_view(self.values@),
            column_categories: categories_view(self.column_categories),
            aligned: self.aligned,
        }
    }
}

/// A copy of a list of strings.
pub(crate) fn copy_texts(list: &[String]) -> (copy: Vec<String>)
    ensures
        texts(copy@) == texts(list@),
{
    let mut copy: Vec<String> = Vec::new();
    let mut i: usize = 0;
    while i < list.len()
        invariant
            i <= list@.len(),
            copy@ == list@.subrange(0, i as int),
        decreases list@.len() - i,
    {
        copy.push(list[i].clone());
        i += 1;
        assert(copy@ =~= list@.subrange(0, i as int));
    }
    assert(copy@ =~= list@);
    copy
}

fn copy_cells(cells: &Vec<Option<Value>>) -> (copy: Vec<Option<Value>>)
    ensures
        cells_view(copy@) == cells_view(cells@),
{
    let mut copy: Vec<Option<Value>> = Vec::new();
    let mut i: usize = 0;
    while i < cells.len()
        invariant
            i == copy@.len() <= cells@.len(),
            forall|k: int| 0 <= k < i ==> cell_view(#[trigger] copy@[k]) == cell_view(cells@[k]),
        decreases cells@.len() - i,
    {
        let cell = match &cells[i] {
            Some(v) => Some(v.clone()),
            None => None,
        };
        copy.push(cell);
        i += 1;
    }
    assert(cells_view(copy@) =~= cells_view(cells@));
    copy
}

impl Clone for Tablet {
    fn clone(&self) -> (copy: Tablet)
        ensures
            copy@ == self@,
    {
        let mut values: Vec<Vec<Option<Value>>> = Vec::new();
        let mut c: usize = 0;
        while c < self.values.len()
            invariant
                c == values@.len() <= self.values@.len(),
                forall|k: int|
                    0 <= k < c ==> cells_view((#[trigger] values@[k])@) == cells_view(
                        self.values@[k]@,
                    ),
            decreases self.values@.len() - c,
        {
            values.push(copy_cells(&self.values[c]));
            c += 1;
        }
        assert(columns_view(values@) =~= columns_view(self.values@));
        let types = self.types.clone();
        assert(types@ =~= self.types@);
        let timestamps = self.timestamps.clone();
        assert(timestamps@ =~= self.timestamps@);
        let column_categories = match &self.column_categories {
            Some(categories) => {
                let copy = categories.clone();
                assert(copy@ =~= categories@);
                Some(copy)
            },
            None => None,
        };
        Tablet {
            target: self.target.clone(),
            measurements: copy_texts(self.measurements.as_slice()),
            types,
            timestamps,
            values,
            column_categories,
            aligned: self.aligned,
        }
    }
}

/// A tablet without rows.
pub open spec fn empty_tablet(
    target: Seq<char>,
    measurements: Seq<Seq<char>>,
    types: Seq<TSDataType>,
    column_categories: Option<Seq<ColumnCategory>>,
    aligned: bool,
) -> TabletView {
    TabletView {
        target,
        measurements,
        types,
        timestamps: Seq::empty(),
        values: Seq::new(types.len(), |c: int| Seq::empty()),
        column_categories,
        aligned,
    }
}

/// The complaint about two lists of different lengths.
pub open spec fn count_mismatch(what: Seq<char>, count: nat, types: nat) -> Seq<char> {
    what + " count ("@ + decimal(count) + ") != type count ("@ + decimal(types) + ")"@
}

fn count_mismatch_error(what: &str, count: usize, types: usize) -> (e: Error)
    ensures
        e@ == ErrorView::Client(count_mismatch(what@, count as nat, types as nat)),
{
    let mut m = what.to_owned();
    m.append(" count (");
    push_decimal(&mut m, count as u64);
    m.append(") != type count (");
    push_decimal(&mut m, types as u64);
    m.append(")");
    Error::Client(m)
}

impl Tablet {
    /// Creates an empty tree-model tablet for `device_id`.
    pub fn new(device_id: &str, measurements: Vec<String>, types: Vec<TSDataType>) -> (tablet:
        Result<Tablet>)
        ensures
            match tablet {
                Ok(t) => {
                    &&& measurements@.len() == types@.len()
                    &&& t@ == empty_tablet(
                        device_id@,
                        texts(measurements@),
                        types@,
                        None,
                        false,
                    )
                    &&& t@.wf()
                },
                Err(e) => {
                    &&& measurements@.len() != types@.len()
                    &&& e@ == ErrorView::Client(
                        count_mismatch("measurement"@, measurements@.len(), types@.len()),
                    )
                },
            },
    {
        if measurements.len() != types.len() {
            return Err(count_mismatch_error("measurement", measurements.len(), types.len()));
        }
        let columns: usize = measurements.len();
        let mut values: Vec<Vec<Option<Value>>> = Vec::new();
        let mut c: usize = 0;
        assert(columns_view(values@) =~= Seq::new(0, |k: int| Seq::empty()));
        while c < columns
            invariant
                c <= columns,
                columns_view(values@) == Seq::new(c as nat, |k: int| Seq::<Option<ValueView>>::empty()),
            decreases columns - c,
        {
            let ghost before = values@;
            let column: Vec<Option<Value>> = Vec::new();
            values.push(column);
            c += 1;
            assert(cells_view(column@) =~= Seq::empty());
            assert(columns_view(values@) =~= columns_view(before).push(cells_view(column@)));
            assert(columns_view(values@) =~= Seq::new(
                c as nat,
                |k: int| Seq::<Option<ValueView>>::empty(),
            ));
        }
        let tablet = Tablet {
            target: device_id.to_owned(),
            measurements,
            types,
            timestamps: Vec::new(),
            values,
            column_categories: None,
            aligned: false,
        };
        assert(tablet@ =~= empty_tablet(
            device_id@,
            texts(measurements@),
            types@,
            None,
            false,
        ));
        Ok(tablet)
    }

    /// Creates an empty tree-model tablet for an **aligned** device.
    pub fn new_aligned(device_id: &str, measurements: Vec<String>, types: Vec<TSDataType>) -> (tablet:
        Result<Tablet>)
        ensures
            match tablet {
                Ok(t) => {
                    &&& measurements@.len() == types@.len()
                    &&& t@ == empty_tablet(device_id@, texts(measurements@), types@, None, true)
                    &&& t@.wf()
                },
                Err(e) => {
                    &&& measurements@.len() != types@.len()
                    &&& e@ == ErrorView::Client(
                        count_mismatch("measurement"@, measurements@.len(), types@.len()),
                    )
                },
            },
    {
        match Tablet::new(device_id, measurements, types) {
            Ok(mut tablet) => {
                tablet.aligned = true;
                Ok(tablet)
            },
            Err(e) => Err(e),
        }
    }

    /// Creates an empty table-model tablet for `table_name` with one
    /// [`ColumnCategory`] per column.
    pub fn new_table(
        table_name: &str,
        column_names: Vec<String>,
        types: Vec<TSDataType>,
        column_categories: Vec<ColumnCategory>,
    ) -> (tablet: Result<Tablet>)
        ensures
            match tablet {
                Ok(t) => {
                    &&& column_categories@.len() == types@.len() == column_names@.len()
                    &&& t@ == empty_tablet(
                        table_name@,
                        texts(column_names@),
                        types@,
                        Some(column_categories@),
                        false,
                    )
                    &&& t@.wf()
                },
                Err(e) => if column_categories@.len() != types@.len() {
                    e@ == ErrorView::Client(
                        count_mismatch("category"@, column_categories@.len(), types@.len()),
                    )
                } else {
                    &&& column_names@.len() != types@.len()
                    &&& e@ == ErrorView::Client(
                        count_mismatch("measurement"@, column_names@.len(), types@.len()),
                    )
                },
            },
    {
        if column_categories.len() != types.len() {
            return Err(count_mismatch_error("category", column_categories.len(), types.len()));
        }
        match Tablet::new(table_name, column_names, types) {
            Ok(mut tablet) => {
                tablet.column_categories = Some(column_categories);
                Ok(tablet)
            },
            Err(e) => Err(e),
        }
    }

    /// Device id (tree model) or table name (table model).
    pub fn target(&self) -> (target: &str)
        ensures
            target@ == self@.target,
    {
        self.target.as_str()
    }

    /// Table name — alias of [`Tablet::target`] for table-model tablets.
    pub fn table_name(&self) -> (name: &str)
        ensures
            name@ == self@.target,
    {
        self.target.as_str()
    }

    /// Measurement names (tree model) or column names (table model).
    pub fn measurements(&self) -> (names: &[String])
        ensures
            texts(names@) == self@.measurements,
    {
        self.measurements.as_slice()
    }

    /// The column types.
    pub fn types(&self) -> (types: &[TSDataType])
        ensures
            types@ == self@.types,
    {
        self.types.as_slice()
    }

    /// The timestamps, one per row.
    pub fn timestamps(&self) -> (timestamps: &[i64])
        ensures
            timestamps@ == self@.timestamps,
    {
        self.timestamps.as_slice()
    }

    /// The timestamps, one per row, for changing in place.
    pub fn timestamps_mut(&mut self) -> (timestamps: &mut [i64])
        ensures
            timestamps@ == old(self)@.timestamps,
            final(self)@ == (TabletView { timestamps: final(timestamps)@, ..old(self)@ }),
    {
        self.timestamps.as_mut_slice()
    }

    /// The columns: `values()[col][row]`, `None` = null cell.
    pub fn values(&self) -> (values: &[Vec<Option<Value>>])
        ensures
            columns_view(values@) == self@.values,
    {
        self.values.as_slice()
    }

    /// `Some` iff this is a table-model tablet.
    pub fn column_categories(&self) -> (categories: Option<&[ColumnCategory]>)
        ensures
            match (categories, self@.column_categories) {
                (Some(c), Some(expected)) => c@ == expected,
                (None, None) => true,
                _ => false,
            },
    {
        match &self.column_categories {
            Some(c) => Some(c.as_slice()),
            None => None,
        }
    }

    /// True for aligned-device tree-model tablets.
    /// Always `false` for table-model tablets.
    pub fn is_aligned(&self) -> (aligned: bool)
        ensures
            aligned == self@.aligned,
    {
        self.aligned
    }

    /// The number of rows.
    pub fn row_count(&self) -> (rows: usize)
        ensures
            rows == self@.timestamps.len(),
    {
        self.timestamps.len()
    }

    /// Whether every column carries a category.
    pub fn is_table_model(&self) -> (table: bool)
        ensures
            table == (self@.column_categories is Some),
    {
        self.column_categories.is_some()
    }

    /// Whether the tablet can be serialized: no column of a tablet with rows
    /// may be of type `Vector` or `Unknown`.
    pub fn is_serializable(&self) -> (serializable: bool)
        ensures
            serializable == self@.serializable(),
    {
        if self.timestamps.len() == 0 {
            return true;
        }
        let mut c: usize = 0;
        while c < self.types.len()
            invariant
                c <= self.types@.len(),
                self.timestamps@.len() > 0,
                forall|k: int| 0 <= k < c ==> insertable(#[trigger] self.types@[k]),
            decreases self.types@.len() - c,
        {
            match self.types[c] {
                TSDataType::Vector | TSDataType::Unknown => {
                    assert(!insertable(self@.types[c as int]));
                    return false;
                },
                _ => {},
            }
            c += 1;
        }
        true
    }

    /// Appends one row. `row[i]` must be `None` (null) or a [`Value`] whose
    /// type matches `types[i]`.
    pub fn add_row(&mut self, timestamp: i64, row: Vec<Option<Value>>) -> (added: Result<()>)
        requires
            old(self)@.wf(),
        ensures
            final(self)@.wf(),
            match (added, old(self)@.row_complaint(cells_view(row@))) {
                (Ok(_), None) => final(self)@ == old(self)@.with_row(timestamp, cells_view(row@)),
                (Err(e), Some(m)) => e@ == ErrorView::Client(m) && final(self)@ == old(self)@,
                _ => false,
            },
            added is Ok ==> final(self)@.values.len() == row@.len() && forall|c: int|
                0 <= c < row@.len() ==> (#[trigger] final(self)@.values[c]).last()
                    == match row@[c] {
                    None => None,
                    Some(Value::Null) => None,
                    Some(v) => Some(v@),
                },
    {
        let ghost start = self@;
        let ghost given = row@;
        let ghost cells = cells_view(row@);
        if row.len() != self.types.len() {
            let mut m = "row has ".to_owned();
            push_decimal(&mut m, row.len() as u64);
            m.append(" cells, tablet has ");
            push_decimal(&mut m, self.types.len() as u64);
            m.append(" columns");
            return Err(Error::Client(m));
        }
        let mut i: usize = 0;
        while i < row.len()
            invariant
                i <= row@.len(),
                *self == *old(self),
                start == self@,
                start.wf(),
                cells == cells_view(row@),
                row@.len() == start.types.len(),
                start.first_misfit(cells, i as nat) is None,
                forall|k: int| 0 <= k < i ==> cell_fits(start.types[k], #[trigger] cells[k]),
            decreases row@.len() - i,
        {
            let fits = match &row[i] {
                None => true,
                Some(v) => match v.data_type() {
                    None => true,
                    Some(ty) => ty == self.types[i],
                },
            };
            assert(cells[i as int] == cell_view(row@[i as int]));
            assert(fits == cell_fits(start.types[i as int], cells[i as int]));
            if !fits {
                proof {
                    lemma_misfit_stays(start, cells, (i + 1) as nat, row@.len());
                }
                let mut m = "column ".to_owned();
                push_decimal(&mut m, i as u64);
                m.append(" (");
                m.append(self.measurements[i].as_str());
                m.append(") expects ");
                m.append(self.types[i].name());
                m.append(", got ");
                match &row[i] {
                    Some(v) => m.append(v.describe().as_str()),
                    None => {},
                }
                return Err(Error::Client(m));
            }
            i += 1;
        }
        self.timestamps.push(timestamp);
        let mut row = row;
        let mut c: usize = row.len();
        assert(cells_view(row@) =~= cells.subrange(0, c as int));
        while c > 0
            invariant
                c == row@.len() <= start.types.len(),
                start.wf(),
                start == old(self)@,
                cells.len() == start.types.len(),
                cells_view(row@) == cells.subrange(0, c as int),
                self.target@ == start.target,
                texts(self.measurements@) == start.measurements,
                self.types@ == start.types,
                self.timestamps@ == start.timestamps.push(timestamp),
                categories_view(self.column_categories) == start.column_categories,
                self.aligned == start.aligned,
                self.values@.len() == start.values.len(),
                forall|k: int|
                    0 <= k < c ==> cells_view((#[trigger] self.values@[k])@) == start.values[k],
                forall|k: int|
                    c <= k < self.values@.len() ==> cells_view((#[trigger] self.values@[k])@)
                        == start.values[k].push(plain_cell(cells[k])),
            decreases c,
        {
            c -= 1;
            let ghost before = self.values@;
            let ghost full_row = row@;
            match row.pop() {
                Some(cell) => {
                    assert(cells_view(full_row)[c as int] == cell_view(cell));
                    assert(cells[c as int] == cell_view(cell));
                    // Normalize Some(Null) to None so null detection is uniform.
                    let plain = match cell {
                        Some(Value::Null) => None,
                        other => other,
                    };
                    assert(cell_view(plain) == plain_cell(cells[c as int]));
                    self.values[c].push(plain);
                    assert(cells_view(self.values@[c as int]@) =~= cells_view(
                        before[c as int]@,
                    ).push(cell_view(plain)));
                    assert(cells_view(row@) =~= cells.subrange(0, c as int));
                },
                None => {},
            }
        }
        proof {
            assert(self@.values =~= start.with_row(timestamp, cells).values);
            assert(self@ =~= start.with_row(timestamp, cells));
            lemma_with_row_wf(start, timestamp, cells);
            assert forall|c: int| 0 <= c < given.len() implies (#[trigger] self@.values[c]).last()
                == match given[c] {
                None => None,
                Some(Value::Null) => None,
                Some(v) => Some(v@),
            } by {
                assert(cells[c] == cell_view(given[c]));
            }
        }
        Ok(())
    }

    /// Stably sorts rows by timestamp, reordering all value columns in step.
    pub fn sort_by_timestamp(&mut self)
        requires
            old(self)@.wf(),
        ensures
            final(self)@ == old(self)@.sorted(),
            final(self)@.wf(),
    {
        let ghost start = self@;
        let order = timestamp_order(&self.timestamps);
        let ghost ord = stable_order(start.timestamps);
        let mut values: Vec<Vec<Option<Value>>> = Vec::new();
        let mut c: usize = 0;
        while c < self.values.len()
            invariant
                c == values@.len() <= self.values@.len(),
                *self == *old(self),
                start == self@,
                start.wf(),
                row_numbers(order@) == ord,
                ord == stable_order(start.timestamps),
                order@.len() == start.timestamps.len(),
                forall|i: int|
                    0 <= i < order@.len() ==> #[trigger] order@[i] < start.timestamps.len(),
                forall|k: int|
                    0 <= k < c ==> cells_view((#[trigger] values@[k])@) == reordered(
                        start.values[k],
                        ord,
                    ),
            decreases self.values@.len() - c,
        {
            assert(start.values[c as int].len() == self.values@[c as int]@.len());
            let column = reorder_column(&self.values[c], &order);
            values.push(column);
            c += 1;
        }
        self.timestamps = reorder_timestamps(&self.timestamps, &order);
        self.values = values;
        proof {
            assert(self@.values =~= start.sorted().values);
            assert(self@ =~= start.sorted());
            law_sorted_tablet_is_wf(start);
        }
    }

    /// Serializes the value buffer: all columns column-major (nulls occupy
    /// placeholder slots), then one trailing bitmap entry per column — a flag
    /// byte (1 = column has nulls) followed, when flagged, by a
    /// `rows/8 + 1`-byte LSB-first bitmap with bit=1 for null rows (the
    /// server's `BitMap` always allocates — and reads — `size/8 + 1`
    /// bytes, one extra padding byte when `rows % 8 == 0`).
    /// All multi-byte values big-endian.
    ///
    /// Sorts rows by timestamp first.
    pub fn serialize_values(&mut self) -> (buf: Vec<u8>)
        requires
            old(self)@.wf(),
            old(self)@.serializable(),
        ensures
            final(self)@ == old(self)@.sorted(),
            final(self)@.wf(),
            buf@ == old(self)@.sorted().value_bytes(),
    {
        self.sort_by_timestamp();
        let ghost view = self@;
        proof {
            law_stable_order(old(self)@.timestamps);
        }
        let rows: usize = self.row_count();
        let mut buf: Vec<u8> = Vec::new();
        let mut c: usize = 0;
        while c < self.values.len()
            invariant
                c <= self.values@.len(),
                view == self@,
                view == old(self)@.sorted(),
                view.wf(),
                view.serializable(),
                buf@ == columns_bytes(view.types, view.values, c as nat),
            decreases self.values@.len() - c,
        {
            assert(view.values[c as int] == cells_view(self.values@[c as int]@));
            assert forall|r: int| 0 <= r < self.values@[c as int]@.len() implies (cell_view(
                #[trigger] self.values@[c as int]@[r],
            ) matches Some(v) ==> value_type(v) == Some(self.types@[c as int])) by {
                assert(view.values[c as int][r] == cell_view(self.values@[c as int]@[r]));
            }
            write_column(&mut buf, self.types[c], &self.values[c]);
            c += 1;
        }
        // Trailing per-column null bitmap section.
        let ghost head = buf@;
        c = 0;
        assert(buf@ =~= head + null_sections(view.values, rows as nat, 0));
        while c < self.values.len()
            invariant
                c <= self.values@.len(),
                view == self@,
                view == old(self)@.sorted(),
                view.wf(),
                rows == view.timestamps.len(),
                head == columns_bytes(view.types, view.values, view.values.len()),
                buf@ == head + null_sections(view.values, rows as nat, c as nat),
            decreases self.values@.len() - c,
        {
            assert(view.values[c as int] == cells_view(self.values@[c as int]@));
            write_null_section(&mut buf, &self.values[c], rows);
            c += 1;
            assert(buf@ =~= head + null_sections(view.values, rows as nat, c as nat));
        }
        buf
    }

    /// Serializes the timestamp buffer: `row_count` contiguous i64 big-endian
    /// values, no count prefix.
    ///
    /// Sorts rows by timestamp first.
    pub fn serialize_timestamps(&mut self) -> (buf: Vec<u8>)
        requires
            old(self)@.wf(),
        ensures
            final(self)@ == old(self)@.sorted(),
            final(self)@.wf(),
            buf@ == old(self)@.sorted().timestamp_bytes(),
    {
        self.sort_by_timestamp();
        let mut buf: Vec<u8> = Vec::new();
        let mut r: usize = 0;
        while r < self.timestamps.len()
            invariant
                r <= self.timestamps@.len(),
                self@ == old(self)@.sorted(),
                self@.wf(),
                buf@ == times_bytes(self.timestamps@.subrange(0, r as int)),
            decreases self.timestamps@.len() - r,
        {
            push_i64(&mut buf, self.timestamps[r]);
            proof {
                let times = self.timestamps@;
                assert(times.subrange(0, r + 1).drop_last() =~= times.subrange(0, r as int));
            }
            r += 1;
        }
        assert(self.timestamps@.subrange(0, r as int) =~= self.timestamps@);
        buf
    }

    /// Frames one OBJECT segment: `[1 byte isEOF][8 byte big-endian
    /// offset][content]`.
    pub fn build_object_value(is_eof: bool, offset: i64, content: &[u8]) -> (segment: Vec<u8>)
        ensures
            segment@ == object_segment(is_eof, offset as int, content@),
    {
        let mut segment: Vec<u8> = Vec::new();
        let flag: u8 = if is_eof {
            1
        } else {
            0
        };
        segment.push(flag);
        assert(segment@ =~= seq![flag]);
        push_i64(&mut segment, offset);
        segment.extend_from_slice(content);
        assert(segment@ =~= object_segment(is_eof, offset as int, content@));
        segment
    }

    /// Puts an OBJECT segment into the cell of `column` in `row`; the column
    /// must be an OBJECT column.
    pub fn set_object_value_at(
        &mut self,
        is_eof: bool,
        offset: i64,
        content: &[u8],
        column: usize,
        row: usize,
    ) -> (set: Result<()>)
        requires
            old(self)@.wf(),
        ensures
            final(self)@.wf(),
            match (set, old(self)@.object_cell_complaint(column as int, row as int)) {
                (Ok(_), None) => final(self)@ == old(self)@.with_cell(
                    column as int,
                    row as int,
                    ValueView::Object(object_segment(is_eof, offset as int, content@)),
                ),
                (Err(e), Some(m)) => e@ == ErrorView::Client(m) && final(self)@ == old(self)@,
                _ => false,
            },
    {
        let ghost start = self@;
        if column >= self.types.len() {
            let mut m = "column ".to_owned();
            push_decimal(&mut m, column as u64);
            m.append(" is out of range, tablet has ");
            push_decimal(&mut m, self.types.len() as u64);
            m.append(" columns");
            return Err(Error::Client(m));
        }
        if row >= self.timestamps.len() {
            let mut m = "row ".to_owned();
            push_decimal(&mut m, row as u64);
            m.append(" is out of range, tablet has ");
            push_decimal(&mut m, self.timestamps.len() as u64);
            m.append(" rows");
            return Err(Error::Client(m));
        }
        if self.types[column] != TSDataType::Object {
            let mut m = "column ".to_owned();
            push_decimal(&mut m, column as u64);
            m.append(" (");
            m.append(self.measurements[column].as_str());
            m.append(") expects ");
            m.append(self.types[column].name());
            m.append(", got an OBJECT segment");
            return Err(Error::Client(m));
        }
        let segment = Tablet::build_object_value(is_eof, offset, content);
        let ghost before = self.values@;
        assert(start.values[column as int] == cells_view(before[column as int]@));
        let cell = Some(Value::Object(segment));
        self.values[column][row] = cell;
        proof {
            assert(cells_view(self.values@[column as int]@) =~= start.values[column as int].update(
                row as int,
                cell_view(cell),
            ));
            assert(self@.values =~= start.with_cell(
                column as int,
                row as int,
                ValueView::Object(object_segment(is_eof, offset as int, content@)),
            ).values);
            assert(self@ =~= start.with_cell(
                column as int,
                row as int,
                ValueView::Object(object_segment(is_eof, offset as int, content@)),
            ));
        }
        Ok(())
    }
}

impl TabletView {
    /// The complaint about setting an OBJECT cell.
    pub open spec fn object_cell_complaint(self, column: int, row: int) -> Option<Seq<char>> {
        if column >= self.types.len() {
            Some(
                "column "@ + decimal(column as nat) + " is out of range, tablet has "@ + decimal(
                    self.types.len(),
                ) + " columns"@,
            )
        } else if row >= self.timestamps.len() {
            Some(
                "row "@ + decimal(row as nat) + " is out of range, tablet has "@ + decimal(
                    self.timestamps.len(),
                ) + " rows"@,
            )
        } else if self.types[column] != TSDataType::Object {
            Some(
                "column "@ + decimal(column as nat) + " ("@ + self.measurements[column]
                    + ") expects "@ + data_type_name(self.types[column])
                    + ", got an OBJECT segment"@,
            )
        } else {
            None
        }
    }

    /// The tablet with one cell replaced.
    pub open spec fn with_cell(self, column: int, row: int, value: ValueView) -> TabletView {
        TabletView {
            values: self.values.update(column, self.values[column].update(row, Some(value))),
            ..self
        }
    }
}

proof fn lemma_misfit_stays(t: TabletView, row: Seq<Option<ValueView>>, i: nat, n: nat)
    requires
        i <= n,
        t.first_misfit(row, i) is Some,
    ensures
        t.first_misfit(row, n) == t.first_misfit(row, i),
    decreases n,
{
    if i < n {
        lemma_misfit_stays(t, row, i, (n - 1) as nat);
    }
}

proof fn lemma_with_row_wf(t: TabletView, timestamp: i64, row: Seq<Option<ValueView>>)
    requires
        t.wf(),
        row.len() == t.types.len(),
        forall|k: int| 0 <= k < row.len() ==> cell_fits(t.types[k], #[trigger] row[k]),
    ensures
        t.with_row(timestamp, row).wf(),
{
    let after = t.with_row(timestamp, row);
    assert forall|c: int, r: int|
        0 <= c < after.values.len() && 0 <= r < after.timestamps.len() implies (
    #[trigger] after.values[c][r] matches Some(v) ==> value_type(v) == Some(after.types[c])) by {
        if r < t.timestamps.len() {
            assert(after.values[c][r] == t.values[c][r]);
        } else {
            assert(cell_fits(t.types[c], row[c]));
        }
    }
}

/// Sorting keeps a tablet well formed: every column still has one cell per
/// row, of its own type.
pub proof fn law_sorted_tablet_is_wf(t: TabletView)
    requires
        t.wf(),
    ensures
        t.sorted().wf(),
        t.sorted().timestamps.len() == t.timestamps.len(),
        forall|i: int, j: int|
            0 <= i < j < t.timestamps.len() ==> t.sorted().timestamps[i]
                <= t.sorted().timestamps[j],
{
    law_stable_order(t.timestamps);
    let order = stable_order(t.timestamps);
    let s = t.sorted();
    assert forall|c: int, r: int|
        0 <= c < s.values.len() && 0 <= r < s.timestamps.len() implies (
    #[trigger] s.values[c][r] matches Some(v) ==> value_type(v) == Some(s.types[c])) by {
        assert(s.values[c][r] == t.values[c][order[r]]);
    }
}

/// Sorting moves whole rows: the cell at each place of the sorted tablet is
/// the cell of the row whose timestamp stands there.
pub proof fn law_sorting_moves_whole_rows(t: TabletView, c: int, r: int)
    requires
        t.wf(),
        0 <= c < t.types.len(),
        0 <= r < t.timestamps.len(),
    ensures
        0 <= stable_order(t.timestamps)[r] < t.timestamps.len(),
        t.sorted().timestamps[r] == t.timestamps[stable_order(t.timestamps)[r]],
        t.sorted().values[c][r] == t.values[c][stable_order(t.timestamps)[r]],
{
    law_stable_order(t.timestamps);
}

/// Sorting a sorted tablet changes nothing, so serializing one buffer after the
/// other gives buffers for the same row order.
pub proof fn law_sorting_is_idempotent(t: TabletView)
    requires
        t.wf(),
    ensures
        t.sorted().sorted() == t.sorted(),
{
    law_ordering_is_idempotent(t.timestamps);
    law_sorted_tablet_is_wf(t);
    let s = t.sorted();
    let identity = rows(0, t.timestamps.len() as int);
    assert(s.sorted().values =~= s.values) by {
        assert forall|c: int| 0 <= c < s.values.len() implies reordered(
            #[trigger] s.values[c],
            identity,
        ) == s.values[c] by {
            assert(reordered(s.values[c], identity) =~= s.values[c]);
        }
    }
    assert(s.sorted() =~= s);
}

} // verus!
