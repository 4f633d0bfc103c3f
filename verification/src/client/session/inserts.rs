//! Assembly of insert requests.

use vstd::prelude::*;
use vstd::string::*;

use super::insert_laws::law_no_value_is_lost;
use crate::connection::tls::byte_strings;
use crate::data::record::{record_bytes, serialize_record_values, values_view};
use crate::data::tablet::{copy_texts, texts, TabletView};
use crate::data::value::{quoted, quoted_text, ValueView};
use crate::data::{category_code_of, type_code_of, ColumnCategory, TSDataType, Tablet, Value};
use crate::error::{Error, ErrorView, Result};
use crate::order::{
    reorder_timestamps, reordered, row_numbers, stable_order, timestamp_order,
};
use crate::protocol::{
    TSInsertRecordReq, TSInsertRecordsOfOneDeviceReq, TSInsertRecordsReq, TSInsertTabletReq,
    TSInsertTabletsReq,
};
use crate::text::{decimal, push_decimal};
use crate::wire::{pattern32, signed32};

verus! {

/// The texts of several lists of strings.
pub open spec fn text_lists(lists: Seq<Vec<String>>) -> Seq<Seq<Seq<char>>> {
    lists.map_values(|l: Vec<String>| texts(l@))
}

/// The values of several rows.
pub open spec fn value_lists(lists: Seq<Vec<Value>>) -> Seq<Seq<ValueView>> {
    lists.map_values(|l: Vec<Value>| values_view(l@))
}

/// The complaint about a row whose values do not pair with its measurements.
pub open spec fn arity_complaint(measurements: nat, values: nat) -> Option<Seq<char>> {
    if measurements == values {
        None
    } else {
        Some(
            "record has "@ + decimal(values) + " values for "@ + decimal(measurements)
                + " measurements"@,
        )
    }
}

/// The measurements of the cells that are not null.
pub open spec fn kept_names(names: Seq<Seq<char>>, values: Seq<ValueView>) -> Seq<Seq<char>>
    decreases values.len(),
{
    if values.len() == 0 {
        Seq::empty()
    } else {
        let before = kept_names(names.drop_last(), values.drop_last());
        if values.last() is Null {
            before
        } else {
            before.push(names.last())
        }
    }
}

/// The cells that are not null.
pub open spec fn kept_values(values: Seq<ValueView>) -> Seq<ValueView>
    decreases values.len(),
{
    if values.len() == 0 {
        Seq::empty()
    } else {
        let before = kept_values(values.drop_last());
        if values.last() is Null {
            before
        } else {
            before.push(values.last())
        }
    }
}

/// Among the first `k` rows those that keep a cell, or the complaint about the
/// first of them whose values do not pair with its measurements.
pub open spec fn kept_rows(
    names: Seq<Seq<Seq<char>>>,
    values: Seq<Seq<ValueView>>,
    k: nat,
) -> std::result::Result<Seq<int>, Seq<char>>
    decreases k,
{
    if k == 0 {
        Ok(Seq::empty())
    } else {
        match kept_rows(names, values, (k - 1) as nat) {
            Err(m) => Err(m),
            Ok(kept) => match arity_complaint(names[k - 1].len(), values[k - 1].len()) {
                Some(m) => Err(m),
                None => if kept_values(values[k - 1]).len() == 0 {
                    Ok(kept)
                } else {
                    Ok(kept.push(k - 1))
                },
            },
        }
    }
}

/// The measurement lists that the given rows send.
pub open spec fn sent_names(
    names: Seq<Seq<Seq<char>>>,
    values: Seq<Seq<ValueView>>,
    rows: Seq<int>,
) -> Seq<Seq<Seq<char>>> {
    rows.map_values(|i: int| kept_names(names[i], values[i]))
}

/// The value buffers that the given rows send.
pub open spec fn sent_buffers(values: Seq<Seq<ValueView>>, rows: Seq<int>) -> Seq<Seq<u8>> {
    rows.map_values(|i: int| record_bytes(kept_values(values[i])))
}

/// Dropping null cells keeps measurements and values paired, keeps their
/// order, and leaves no null.
pub proof fn law_kept_cells_stay_paired(names: Seq<Seq<char>>, values: Seq<ValueView>)
    requires
        names.len() == values.len(),
    ensures
        kept_names(names, values).len() == kept_values(values).len(),
        kept_values(values).len() <= values.len(),
        forall|i: int|
            0 <= i < kept_values(values).len() ==> !((#[trigger] kept_values(values)[i]) is Null),
        forall|i: int|
            #![trigger kept_values(values)[i]]
            0 <= i < kept_values(values).len() ==> exists|k: int|
                0 <= k < values.len() && #[trigger] values[k] == kept_values(values)[i] && names[k]
                    == kept_names(names, values)[i],
    decreases values.len(),
{
    if values.len() > 0 {
        let n0 = names.drop_last();
        let v0 = values.drop_last();
        law_kept_cells_stay_paired(n0, v0);
        assert forall|i: int| 0 <= i < kept_values(values).len() implies exists|k: int|
            0 <= k < values.len() && #[trigger] values[k] == (#[trigger] kept_values(values)[i])
                && names[k] == kept_names(names, values)[i] by {
            if i < kept_values(v0).len() {
                assert(kept_values(values)[i] == kept_values(v0)[i]);
                let k = choose|k: int|
                    0 <= k < v0.len() && #[trigger] v0[k] == kept_values(v0)[i] && n0[k]
                        == kept_names(n0, v0)[i];
                assert(values[k] == v0[k] && names[k] == n0[k]);
            } else {
                assert(values[values.len() - 1] == kept_values(values)[i]);
            }
        }
    }
}

/// A row without null cells is sent whole.
pub proof fn law_rows_without_nulls_are_sent_whole(
    names: Seq<Seq<char>>,
    values: Seq<ValueView>,
)
    requires
        names.len() == values.len(),
        forall|i: int| 0 <= i < values.len() ==> !((#[trigger] values[i]) is Null),
    ensures
        kept_names(names, values) == names,
        kept_values(values) == values,
    decreases values.len(),
{
    if values.len() > 0 {
        assert forall|i: int| 0 <= i < values.drop_last().len() implies !((
        #[trigger] values.drop_last()[i]) is Null) by {
            assert(values[i] == values.drop_last()[i]);
        }
        law_rows_without_nulls_are_sent_whole(names.drop_last(), values.drop_last());
        assert(!(values[values.len() - 1] is Null));
        assert(names.drop_last().push(names.last()) =~= names);
        assert(values.drop_last().push(values.last()) =~= values);
    } else {
        assert(names =~= Seq::empty());
        assert(values =~= Seq::empty());
    }
}

/// The rows that are sent stand in their given order, lie within the batch, and
/// are exactly those that keep a cell.
pub proof fn law_sent_rows(names: Seq<Seq<Seq<char>>>, values: Seq<Seq<ValueView>>, k: nat)
    ensures
        kept_rows(names, values, k) matches Ok(kept) ==> {
            &&& kept.len() <= k
            &&& forall|a: int| 0 <= a < kept.len() ==> 0 <= #[trigger] kept[a] < k
            &&& forall|a: int, b: int| 0 <= a < b < kept.len() ==> kept[a] < kept[b]
            &&& forall|a: int|
                0 <= a < kept.len() ==> kept_values(values[#[trigger] kept[a]]).len() > 0
            &&& forall|i: int|
                0 <= i < k && kept_values(#[trigger] values[i]).len() > 0 ==> kept.contains(i)
            &&& forall|i: int| 0 <= i < k ==> names[i].len() == (#[trigger] values[i]).len()
        },
    decreases k,
{
    if k > 0 {
        law_sent_rows(names, values, (k - 1) as nat);
        if let Ok(kept) = kept_rows(names, values, k) {
            let before = kept_rows(names, values, (k - 1) as nat)->Ok_0;
            assert forall|i: int| 0 <= i < k && kept_values(#[trigger] values[i]).len() > 0 implies
                kept.contains(i) by {
                if i < k - 1 {
                    let a = choose|a: int| 0 <= a < before.len() && before[a] == i;
                    assert(kept[a] == i);
                } else {
                    assert(kept[kept.len() - 1] == i);
                }
            }
        }
    }
}

proof fn lemma_rows_fail_early(
    names: Seq<Seq<Seq<char>>>,
    values: Seq<Seq<ValueView>>,
    i: nat,
    n: nat,
)
    requires
        i <= n,
        kept_rows(names, values, i) is Err,
    ensures
        kept_rows(names, values, n) == kept_rows(names, values, i),
    decreases n,
{
    if i < n {
        lemma_rows_fail_early(names, values, i, (n - 1) as nat);
    }
}

/// One record row must pair each measurement with exactly one value.
pub fn check_record_arity(measurements: &[String], values: &[Value]) -> (checked: Result<()>)
    ensures
        match (checked, arity_complaint(measurements@.len(), values@.len())) {
            (Ok(_), None) => true,
            (Err(e), Some(m)) => e@ == ErrorView::Client(m),
            _ => false,
        },
{
    if measurements.len() != values.len() {
        let mut m = "record has ".to_owned();
        push_decimal(&mut m, values.len() as u64);
        m.append(" values for ");
        push_decimal(&mut m, measurements.len() as u64);
        m.append(" measurements");
        return Err(Error::Client(m));
    }
    Ok(())
}

/// Drops [`Value::Null`] cells together with their measurements: the server
/// rejects a null cell against a registered series, and its bare `-2` marker
/// carries no type to auto-create one — omitting the measurement is the
/// protocol's way of writing "no value".
pub fn filter_null_cells(measurements: Vec<String>, values: &[Value]) -> (kept: (
    Vec<String>,
    Vec<Value>,
))
    requires
        measurements@.len() == values@.len(),
    ensures
        texts(kept.0@) == kept_names(texts(measurements@), values_view(values@)),
        values_view(kept.1@) == kept_values(values_view(values@)),
        exists|at: Seq<int>|
            {
                &&& kept.0@.len() == kept.1@.len() == #[trigger] at.len()
                &&& forall|a: int| 0 <= a < at.len() ==> 0 <= #[trigger] at[a] < values@.len()
                &&& forall|a: int, b: int|
                    0 <= a < b < at.len() ==> #[trigger] at[a] < #[trigger] at[b]
                &&& forall|a: int|
                    0 <= a < at.len() ==> {
                        &&& values@[#[trigger] at[a]]@ != ValueView::Null
                        &&& kept.0@[a]@ == measurements@[at[a]]@
                        &&& kept.1@[a]@ == values@[at[a]]@
                    }
                &&& forall|k: int|
                    0 <= k < values@.len() && (#[trigger] values@[k])@ != ValueView::Null
                        ==> at.contains(k)
            },
{
    let ghost names = texts(measurements@);
    let ghost cells = values_view(values@);
    let mut kept: Vec<String> = Vec::new();
    let mut out: Vec<Value> = Vec::new();
    let mut i: usize = 0;
    assert(texts(kept@) =~= Seq::empty());
    assert(values_view(out@) =~= Seq::empty());
    while i < values.len()
        invariant
            i <= values@.len() == measurements@.len(),
            names == texts(measurements@),
            cells == values_view(values@),
            texts(kept@) == kept_names(
                names.subrange(0, i as int),
                cells.subrange(0, i as int),
            ),
            values_view(out@) == kept_values(cells.subrange(0, i as int)),
        decreases values@.len() - i,
    {
        let ghost kept_before = kept@;
        let ghost out_before = out@;
        proof {
            assert(names.subrange(0, i + 1).drop_last() =~= names.subrange(0, i as int));
            assert(cells.subrange(0, i + 1).drop_last() =~= cells.subrange(0, i as int));
        }
        if !values[i].is_null() {
            let name = measurements[i].clone();
            let value = values[i].clone();
            kept.push(name);
            out.push(value);
            assert(texts(kept@) =~= texts(kept_before).push(name@));
            assert(values_view(out@) =~= values_view(out_before).push(value@));
        }
        i += 1;
    }
    assert(names.subrange(0, i as int) =~= names);
    assert(cells.subrange(0, i as int) =~= cells);
    proof {
        let at = law_no_value_is_lost(names, cells);
        assert(texts(kept@).len() == kept@.len());
        assert(values_view(out@).len() == out@.len());
        assert forall|a: int| 0 <= a < at.len() implies {
            &&& values@[#[trigger] at[a]]@ != ValueView::Null
            &&& kept@[a]@ == measurements@[at[a]]@
            &&& out@[a]@ == values@[at[a]]@
        } by {
            assert(cells[at[a]] == values@[at[a]]@);
            assert(texts(kept@)[a] == names[at[a]]);
            assert(values_view(out@)[a] == cells[at[a]]);
        }
        assert forall|k: int|
            0 <= k < values@.len() && (#[trigger] values@[k])@ != ValueView::Null implies at.contains(
            k,
        ) by {
            assert(cells[k] == values@[k]@);
        }
        assert(at.len() == out@.len());
    }
    (kept, out)
}

/// Stably sorts one-device record rows by timestamp — reordering the
/// measurement lists in step and serializing each row's value buffer in the
/// sorted order (the server requires ascending time).
pub fn sort_one_device_rows(
    timestamps: Vec<i64>,
    measurements_list: Vec<Vec<String>>,
    values_list: &[Vec<Value>],
) -> (sorted: (Vec<i64>, Vec<Vec<String>>, Vec<Vec<u8>>))
    requires
        measurements_list@.len() == timestamps@.len(),
        values_list@.len() == timestamps@.len(),
    ensures
        sorted.0@ == reordered(timestamps@, stable_order(timestamps@)),
        text_lists(sorted.1@) == reordered(
            text_lists(measurements_list@),
            stable_order(timestamps@),
        ),
        byte_strings(sorted.2@) == reordered(
            value_lists(values_list@),
            stable_order(timestamps@),
        ).map_values(|v: Seq<ValueView>| record_bytes(v)),
{
    let order = timestamp_order(&timestamps);
    let ghost ord = stable_order(timestamps@);
    let mut names: Vec<Vec<String>> = Vec::new();
    let mut buffers: Vec<Vec<u8>> = Vec::new();
    let mut i: usize = 0;
    while i < order.len()
        invariant
            i == names@.len() == buffers@.len(),
            i <= order@.len(),
            ord == row_numbers(order@),
            forall|k: int| 0 <= k < order@.len() ==> #[trigger] order@[k] < timestamps@.len(),
            measurements_list@.len() == timestamps@.len(),
            values_list@.len() == timestamps@.len(),
            forall|k: int|
                0 <= k < i ==> texts((#[trigger] names@[k])@) == texts(
                    measurements_list@[ord[k]]@,
                ),
            forall|k: int|
                0 <= k < i ==> (#[trigger] buffers@[k])@ == record_bytes(
                    values_view(values_list@[ord[k]]@),
                ),
        decreases order@.len() - i,
    {
        let row: usize = order[i];
        names.push(copy_texts(measurements_list[row].as_slice()));
        buffers.push(serialize_record_values(values_list[row].as_slice()));
        i += 1;
    }
    let times = reorder_timestamps(&timestamps, &order);
    proof {
        assert(text_lists(names@) =~= reordered(text_lists(measurements_list@), ord));
        assert(byte_strings(buffers@) =~= reordered(value_lists(values_list@), ord).map_values(
            |v: Seq<ValueView>| record_bytes(v),
        ));
    }
    (times, names, buffers)
}

/// The low 32 bits of a count as a signed number, as the wire carries it.
pub open spec fn wire_count(n: nat) -> int {
    signed32(pattern32(n as int))
}

fn count_i32(n: usize) -> (count: i32)
    ensures
        count == wire_count(n as nat),
{
    let low: u64 = (n as u64) % 0x1_0000_0000;
    if low < 0x8000_0000 {
        low as i32
    } else {
        (low as i64 - 0x1_0000_0000) as i32
    }
}

/// The wire codes of a list of types.
pub open spec fn type_codes(types: Seq<TSDataType>) -> Seq<int> {
    types.map_values(|t: TSDataType| type_code_of(t))
}

/// A list of 32-bit numbers as mathematical integers.
pub open spec fn ints(codes: Seq<i32>) -> Seq<int> {
    codes.map_values(|c: i32| c as int)
}

fn codes_of(types: &[TSDataType]) -> (codes: Vec<i32>)
    ensures
        ints(codes@) == type_codes(types@),
{
    let mut codes: Vec<i32> = Vec::new();
    let mut i: usize = 0;
    while i < types.len()
        invariant
            i == codes@.len() <= types@.len(),
            forall|k: int| 0 <= k < i ==> #[trigger] codes@[k] == type_code_of(types@[k]),
        decreases types@.len() - i,
    {
        codes.push(types[i].code());
        i += 1;
    }
    assert(ints(codes@) =~= type_codes(types@));
    codes
}

fn category_codes(categories: &[ColumnCategory]) -> (codes: Vec<i8>)
    ensures
        codes@.len() == categories@.len(),
        forall|k: int|
            0 <= k < codes@.len() ==> #[trigger] codes@[k] == category_code_of(categories@[k]),
{
    let mut codes: Vec<i8> = Vec::new();
    let mut i: usize = 0;
    while i < categories.len()
        invariant
            i == codes@.len() <= categories@.len(),
            forall|k: int|
                0 <= k < i ==> #[trigger] codes@[k] == category_code_of(categories@[k]),
        decreases categories@.len() - i,
    {
        codes.push(categories[i].code());
        i += 1;
    }
    codes
}

/// Whether `req` inserts the tablet: its rows sorted by timestamp, and for a
/// table-model tablet the table flag and the column categories.
pub open spec fn inserts_tablet(req: TSInsertTabletReq, session_id: i64, t: TabletView) -> bool {
    &&& req.session_id == session_id
    &&& req.prefix_path@ == t.target
    &&& texts(req.measurements@) == t.measurements
    &&& ints(req.types@) == type_codes(t.types)
    &&& req.values@ == t.sorted().value_bytes()
    &&& req.timestamps@ == t.sorted().timestamp_bytes()
    &&& req.size == wire_count(t.timestamps.len())
    &&& req.is_aligned == Some(t.aligned)
    &&& match t.column_categories {
        None => req.write_to_table is None && req.column_categories is None,
        Some(categories) => {
            &&& req.write_to_table == Some(true)
            &&& req.column_categories matches Some(codes) && codes@.len() == categories.len()
                && forall|k: int|
                0 <= k < codes@.len() ==> #[trigger] codes@[k] == category_code_of(categories[k])
        },
    }
}

/// Assembles the request that inserts one tablet. The caller's tablet keeps
/// its row order: a copy is sorted and serialized.
pub fn build_insert_tablet_req(session_id: i64, tablet: &Tablet) -> (req: TSInsertTabletReq)
    requires
        tablet@.wf(),
        tablet@.serializable(),
    ensures
        inserts_tablet(req, session_id, tablet@),
{
    let mut sorted = tablet.clone();
    let values = sorted.serialize_values();
    proof {
        crate::data::tablet::law_sorting_is_idempotent(tablet@);
        crate::data::tablet::law_sorted_tablet_is_wf(tablet@);
    }
    let timestamps = sorted.serialize_timestamps();
    let (write_to_table, column_categories) = match sorted.column_categories() {
        Some(categories) => (Some(true), Some(category_codes(categories))),
        None => (None, None),
    };
    TSInsertTabletReq {
        session_id,
        prefix_path: sorted.target().to_owned(),
        measurements: copy_texts(sorted.measurements()),
        values,
        timestamps,
        types: codes_of(sorted.types()),
        size: count_i32(sorted.row_count()),
        is_aligned: Some(sorted.is_aligned()),
        write_to_table,
        column_categories,
    }
}

/// The tablets of a batch.
pub open spec fn tablets_view(tablets: Seq<Tablet>) -> Seq<TabletView> {
    tablets.map_values(|t: Tablet| t@)
}

/// Where the first table-model tablet among the first `k` stands.
pub open spec fn first_table_tablet(tablets: Seq<TabletView>, k: nat) -> Option<int>
    decreases k,
{
    if k == 0 {
        None
    } else {
        match first_table_tablet(tablets, (k - 1) as nat) {
            Some(i) => Some(i),
            None => if tablets[k - 1].column_categories is Some {
                Some(k - 1)
            } else {
                None
            },
        }
    }
}

/// The complaint about a batch of tablets.
pub open spec fn batch_complaint(tablets: Seq<TabletView>) -> Option<Seq<char>> {
    if tablets.len() == 0 {
        Some("insert_tablets called with no tablets"@)
    } else {
        match first_table_tablet(tablets, tablets.len()) {
            Some(i) => Some(
                "insert_tablets is tree-model only; tablet for table "@ + quoted_text(
                    tablets[i].target,
                ) + " must go through insert_tablet"@,
            ),
            None => None,
        }
    }
}

/// Whether `req` inserts the tablets: entry `i` of each list is what the
/// single-tablet request carries for tablet `i`.
pub open spec fn inserts_tablets(
    req: TSInsertTabletsReq,
    session_id: i64,
    tablets: Seq<TabletView>,
    is_aligned: bool,
) -> bool {
    &&& req.session_id == session_id
    &&& req.is_aligned == Some(is_aligned)
    &&& texts(req.prefix_paths@) == tablets.map_values(|t: TabletView| t.target)
    &&& text_lists(req.measurements_list@) == tablets.map_values(|t: TabletView| t.measurements)
    &&& byte_strings(req.values_list@) == tablets.map_values(
        |t: TabletView| t.sorted().value_bytes(),
    )
    &&& byte_strings(req.timestamps_list@) == tablets.map_values(
        |t: TabletView| t.sorted().timestamp_bytes(),
    )
    &&& req.types_list@.map_values(|c: Vec<i32>| ints(c@)) == tablets.map_values(
        |t: TabletView| type_codes(t.types),
    )
    &&& ints(req.size_list@) == tablets.map_values(
        |t: TabletView| wire_count(t.timestamps.len()),
    )
}

proof fn lemma_first_table_stays(tablets: Seq<TabletView>, i: nat, n: nat)
    requires
        i <= n,
        first_table_tablet(tablets, i) is Some,
    ensures
        first_table_tablet(tablets, n) == first_table_tablet(tablets, i),
    decreases n,
{
    if i < n {
        lemma_first_table_stays(tablets, i, (n - 1) as nat);
    }
}

/// Whether every tablet that a batch request has to serialize can be: those
/// before the first table-model tablet.
pub open spec fn batch_serializable(tablets: Seq<TabletView>) -> bool {
    forall|i: int|
        0 <= i < tablets.len() && first_table_tablet(tablets, (i + 1) as nat) is None ==> (
        #[trigger] tablets[i]).serializable()
}

/// Assembles a `TSInsertTabletsReq`: one entry per tablet in each parallel
/// list, every buffer serialized exactly like the single-tablet path. Rejects
/// empty batches and table-model tablets (the batch RPC has no table-model
/// fields).
pub fn build_insert_tablets_req(session_id: i64, tablets: &[Tablet], is_aligned: bool) -> (req:
    Result<TSInsertTabletsReq>)
    requires
        forall|i: int| 0 <= i < tablets@.len() ==> (#[trigger] tablets@[i])@.wf(),
        batch_serializable(tablets_view(tablets@)),
    ensures
        match (req, batch_complaint(tablets_view(tablets@))) {
            (Ok(r), None) => inserts_tablets(r, session_id, tablets_view(tablets@), is_aligned),
            (Err(e), Some(m)) => e@ == ErrorView::Client(m),
            _ => false,
        },
{
    if tablets.len() == 0 {
        return Err(Error::Client("insert_tablets called with no tablets".to_owned()));
    }
    let ghost view = tablets_view(tablets@);
    let mut prefix_paths: Vec<String> = Vec::new();
    let mut measurements_list: Vec<Vec<String>> = Vec::new();
    let mut values_list: Vec<Vec<u8>> = Vec::new();
    let mut timestamps_list: Vec<Vec<u8>> = Vec::new();
    let mut types_list: Vec<Vec<i32>> = Vec::new();
    let mut size_list: Vec<i32> = Vec::new();
    let mut i: usize = 0;
    while i < tablets.len()
        invariant
            i <= tablets@.len(),
            view == tablets_view(tablets@),
            view.len() > 0,
            forall|k: int| 0 <= k < tablets@.len() ==> (#[trigger] tablets@[k])@.wf(),
            batch_serializable(view),
            first_table_tablet(view, i as nat) is None,
            prefix_paths@.len() == i,
            measurements_list@.len() == i,
            values_list@.len() == i,
            timestamps_list@.len() == i,
            types_list@.len() == i,
            size_list@.len() == i,
            forall|k: int| 0 <= k < i ==> (#[trigger] prefix_paths@[k])@ == view[k].target,
            forall|k: int|
                0 <= k < i ==> texts((#[trigger] measurements_list@[k])@) == view[k].measurements,
            forall|k: int|
                0 <= k < i ==> (#[trigger] values_list@[k])@ == view[k].sorted().value_bytes(),
            forall|k: int|
                0 <= k < i ==> (#[trigger] timestamps_list@[k])@
                    == view[k].sorted().timestamp_bytes(),
            forall|k: int|
                0 <= k < i ==> ints((#[trigger] types_list@[k])@) == type_codes(view[k].types),
            forall|k: int|
                0 <= k < i ==> #[trigger] size_list@[k] == wire_count(view[k].timestamps.len()),
        decreases tablets@.len() - i,
    {
        assert(view[i as int] == tablets@[i as int]@);
        if tablets[i].is_table_model() {
            proof {
                lemma_first_table_stays(view, (i + 1) as nat, view.len());
            }
            let mut m = "insert_tablets is tree-model only; tablet for table ".to_owned();
            m.append(quoted(tablets[i].target()).as_str());
            m.append(" must go through insert_tablet");
            return Err(Error::Client(m));
        }
        assert(first_table_tablet(view, (i + 1) as nat) is None);
        let req = build_insert_tablet_req(session_id, &tablets[i]);
        prefix_paths.push(req.prefix_path);
        measurements_list.push(req.measurements);
        values_list.push(req.values);
        timestamps_list.push(req.timestamps);
        types_list.push(req.types);
        size_list.push(req.size);
        i += 1;
    }
    let req = TSInsertTabletsReq {
        session_id,
        prefix_paths,
        measurements_list,
        values_list,
        timestamps_list,
        types_list,
        size_list,
        is_aligned: Some(is_aligned),
    };
    proof {
        assert(texts(req.prefix_paths@) =~= view.map_values(|t: TabletView| t.target));
        assert(text_lists(req.measurements_list@) =~= view.map_values(
            |t: TabletView| t.measurements,
        ));
        assert(byte_strings(req.values_list@) =~= view.map_values(
            |t: TabletView| t.sorted().value_bytes(),
        ));
        assert(byte_strings(req.timestamps_list@) =~= view.map_values(
            |t: TabletView| t.sorted().timestamp_bytes(),
        ));
        assert(req.types_list@.map_values(|c: Vec<i32>| ints(c@)) =~= view.map_values(
            |t: TabletView| type_codes(t.types),
        ));
        assert(ints(req.size_list@) =~= view.map_values(
            |t: TabletView| wire_count(t.timestamps.len()),
        ));
    }
    Ok(req)
}

/// The complaint about a single row: its arity, or that it keeps no cell.
pub open spec fn record_complaint(names: Seq<Seq<char>>, values: Seq<ValueView>) -> Option<
    Seq<char>,
> {
    match arity_complaint(names.len(), values.len()) {
        Some(m) => Some(m),
        None => if kept_values(values).len() == 0 {
            Some("all insert values are null"@)
        } else {
            None
        },
    }
}

/// Whether `req` inserts the row without its null cells.
pub open spec fn inserts_record(
    req: TSInsertRecordReq,
    session_id: i64,
    device: Seq<char>,
    timestamp: i64,
    names: Seq<Seq<char>>,
    values: Seq<ValueView>,
    is_aligned: bool,
) -> bool {
    &&& req.session_id == session_id
    &&& req.prefix_path@ == device
    &&& texts(req.measurements@) == kept_names(names, values)
    &&& req.values@ == record_bytes(kept_values(values))
    &&& req.timestamp == timestamp
    &&& req.is_aligned == Some(is_aligned)
}

/// Assembles the request that inserts one row for one device.
pub fn build_insert_record_req(
    session_id: i64,
    device_id: &str,
    timestamp: i64,
    measurements: Vec<String>,
    values: &[Value],
    is_aligned: bool,
) -> (req: Result<TSInsertRecordReq>)
    ensures
        match (req, record_complaint(texts(measurements@), values_view(values@))) {
            (Ok(r), None) => inserts_record(
                r,
                session_id,
                device_id@,
                timestamp,
                texts(measurements@),
                values_view(values@),
                is_aligned,
            ),
            (Err(e), Some(m)) => e@ == ErrorView::Client(m),
            _ => false,
        },
{
    match check_record_arity(measurements.as_slice(), values) {
        Ok(_) => {},
        Err(e) => return Err(e),
    }
    let (kept_measurements, kept) = filter_null_cells(measurements, values);
    if kept.len() == 0 {
        return Err(Error::Client("all insert values are null".to_owned()));
    }
    Ok(
        TSInsertRecordReq {
            session_id,
            prefix_path: device_id.to_owned(),
            measurements: kept_measurements,
            values: serialize_record_values(kept.as_slice()),
            timestamp,
            is_aligned: Some(is_aligned),
        },
    )
}

/// The complaint about the lengths of the lists of a multi-device batch.
pub open spec fn records_mismatch(devices: nat, timestamps: nat, names: nat, values: nat) -> Seq<
    char,
> {
    "insert_records length mismatch: "@ + decimal(devices) + " devices, "@ + decimal(timestamps)
        + " timestamps, "@ + decimal(names) + " measurement lists, "@ + decimal(values)
        + " value lists"@
}

/// The rows that a multi-device batch sends, or the complaint about it.
pub open spec fn records_to_send(
    devices: nat,
    timestamps: nat,
    names: Seq<Seq<Seq<char>>>,
    values: Seq<Seq<ValueView>>,
) -> std::result::Result<Seq<int>, Seq<char>> {
    if timestamps != devices || names.len() != devices || values.len() != devices {
        Err(records_mismatch(devices, timestamps, names.len(), values.len()))
    } else {
        match kept_rows(names, values, devices) {
            Err(m) => Err(m),
            Ok(kept) => if kept.len() == 0 {
                Err("all insert values are null"@)
            } else {
                Ok(kept)
            },
        }
    }
}

/// Whether `req` inserts the given rows of a multi-device batch.
pub open spec fn inserts_records(
    req: TSInsertRecordsReq,
    session_id: i64,
    devices: Seq<Seq<char>>,
    timestamps: Seq<i64>,
    names: Seq<Seq<Seq<char>>>,
    values: Seq<Seq<ValueView>>,
    is_aligned: bool,
    kept: Seq<int>,
) -> bool {
    &&& req.session_id == session_id
    &&& texts(req.prefix_paths@) == reordered(devices, kept)
    &&& req.timestamps@ == reordered(timestamps, kept)
    &&& text_lists(req.measurements_list@) == sent_names(names, values, kept)
    &&& byte_strings(req.values_list@) == sent_buffers(values, kept)
    &&& req.is_aligned == Some(is_aligned)
}

fn length_mismatch(
    head: &str,
    timestamps: usize,
    names: usize,
    values: usize,
) -> (e: Error)
    ensures
        e@ == ErrorView::Client(
            head@ + decimal(timestamps as nat) + " timestamps, "@ + decimal(names as nat)
                + " measurement lists, "@ + decimal(values as nat) + " value lists"@,
        ),
{
    let mut m = head.to_owned();
    push_decimal(&mut m, timestamps as u64);
    m.append(" timestamps, ");
    push_decimal(&mut m, names as u64);
    m.append(" measurement lists, ");
    push_decimal(&mut m, values as u64);
    m.append(" value lists");
    Error::Client(m)
}

/// The rows of a batch that keep a cell: their numbers, measurements and
/// values without the null cells.
struct KeptRows {
    rows: Vec<usize>,
    names: Vec<Vec<String>>,
    values: Vec<Vec<Value>>,
}

/// Drops the null cells of every row and the rows that keep none.
fn keep_rows(measurements_list: &Vec<Vec<String>>, values_list: &[Vec<Value>]) -> (kept: Result<
    KeptRows,
>)
    requires
        measurements_list@.len() == values_list@.len(),
    ensures
        match (
            kept,
            kept_rows(
                text_lists(measurements_list@),
                value_lists(values_list@),
                values_list@.len(),
            ),
        ) {
            (Ok(k), Ok(expected)) => {
                &&& row_numbers(k.rows@) == expected
                &&& forall|i: int|
                    0 <= i < k.rows@.len() ==> (#[trigger] k.rows@[i]) < values_list@.len()
                &&& text_lists(k.names@) == sent_names(
                    text_lists(measurements_list@),
                    value_lists(values_list@),
                    expected,
                )
                &&& value_lists(k.values@) == expected.map_values(
                    |i: int| kept_values(value_lists(values_list@)[i]),
                )
            },
            (Err(e), Err(m)) => e@ == ErrorView::Client(m),
            _ => false,
        },
{
    let ghost names_view = text_lists(measurements_list@);
    let ghost values_seq = value_lists(values_list@);
    let ghost pick = |i: int| kept_values(values_seq[i]);
    let mut rows: Vec<usize> = Vec::new();
    let mut names: Vec<Vec<String>> = Vec::new();
    let mut values: Vec<Vec<Value>> = Vec::new();
    let mut i: usize = 0;
    assert(row_numbers(rows@) =~= Seq::empty());
    assert(text_lists(names@) =~= sent_names(names_view, values_seq, row_numbers(rows@)));
    assert(value_lists(values@) =~= row_numbers(rows@).map_values(pick));
    while i < values_list.len()
        invariant
            i <= values_list@.len() == measurements_list@.len(),
            names_view == text_lists(measurements_list@),
            values_seq == value_lists(values_list@),
            pick == (|i: int| kept_values(values_seq[i])),
            forall|k: int| 0 <= k < rows@.len() ==> (#[trigger] rows@[k]) < values_list@.len(),
            kept_rows(names_view, values_seq, i as nat) == Ok::<Seq<int>, Seq<char>>(
                row_numbers(rows@),
            ),
            text_lists(names@) == sent_names(names_view, values_seq, row_numbers(rows@)),
            value_lists(values@) == row_numbers(rows@).map_values(pick),
        decreases values_list@.len() - i,
    {
        assert(names_view[i as int] == texts(measurements_list@[i as int]@));
        assert(values_seq[i as int] == values_view(values_list@[i as int]@));
        match check_record_arity(measurements_list[i].as_slice(), values_list[i].as_slice()) {
            Ok(_) => {},
            Err(e) => {
                proof {
                    lemma_rows_fail_early(names_view, values_seq, (i + 1) as nat, values_seq.len());
                }
                return Err(e);
            },
        }
        let (kept_measurements, kept) = filter_null_cells(
            copy_texts(measurements_list[i].as_slice()),
            values_list[i].as_slice(),
        );
        if kept.len() > 0 {
            let ghost rows_before = rows@;
            let ghost names_before = names@;
            let ghost values_before = values@;
            rows.push(i);
            names.push(kept_measurements);
            values.push(kept);
            proof {
                assert(row_numbers(rows@) =~= row_numbers(rows_before).push(i as int));
                assert(text_lists(names@) =~= text_lists(names_before).push(
                    texts(kept_measurements@),
                ));
                assert(text_lists(names@) =~= sent_names(
                    names_view,
                    values_seq,
                    row_numbers(rows@),
                ));
                assert(value_lists(values@) =~= value_lists(values_before).push(
                    values_view(kept@),
                ));
                assert(value_lists(values@) =~= row_numbers(rows@).map_values(pick));
            }
        }
        // A fully-null row is dropped.
        i += 1;
    }
    proof {
        assert(row_numbers(rows@).map_values(pick) =~= row_numbers(rows@).map_values(
            |i: int| kept_values(value_lists(values_list@)[i]),
        ));
    }
    Ok(KeptRows { rows, names, values })
}

/// Assembles the request that inserts one row for each of several devices.
pub fn build_insert_records_req(
    session_id: i64,
    device_ids: Vec<String>,
    timestamps: Vec<i64>,
    measurements_list: Vec<Vec<String>>,
    values_list: &[Vec<Value>],
    is_aligned: bool,
) -> (req: Result<TSInsertRecordsReq>)
    ensures
        match (
            req,
            records_to_send(
                device_ids@.len(),
                timestamps@.len(),
                text_lists(measurements_list@),
                value_lists(values_list@),
            ),
        ) {
            (Ok(r), Ok(kept)) => inserts_records(
                r,
                session_id,
                texts(device_ids@),
                timestamps@,
                text_lists(measurements_list@),
                value_lists(values_list@),
                is_aligned,
                kept,
            ),
            (Err(e), Err(m)) => e@ == ErrorView::Client(m),
            _ => false,
        },
{
    let n: usize = device_ids.len();
    if timestamps.len() != n || measurements_list.len() != n || values_list.len() != n {
        let mut head = "insert_records length mismatch: ".to_owned();
        push_decimal(&mut head, n as u64);
        head.append(" devices, ");
        return Err(
            length_mismatch(
                head.as_str(),
                timestamps.len(),
                measurements_list.len(),
                values_list.len(),
            ),
        );
    }
    let kept = match keep_rows(&measurements_list, values_list) {
        Ok(kept) => kept,
        Err(e) => return Err(e),
    };
    if kept.rows.len() == 0 {
        return Err(Error::Client("all insert values are null".to_owned()));
    }
    let ghost rows = row_numbers(kept.rows@);
    let ghost values_seq = value_lists(values_list@);
    let mut prefix_paths: Vec<String> = Vec::new();
    let mut values_out: Vec<Vec<u8>> = Vec::new();
    let mut i: usize = 0;
    proof {
        assert(value_lists(kept.values@).len() == rows.len());
    }
    while i < kept.rows.len()
        invariant
            i <= kept.rows@.len() == kept.values@.len(),
            n == device_ids@.len() == values_list@.len(),
            rows == row_numbers(kept.rows@),
            values_seq == value_lists(values_list@),
            value_lists(kept.values@) == rows.map_values(
                |i: int| kept_values(value_lists(values_list@)[i]),
            ),
            forall|k: int| 0 <= k < kept.rows@.len() ==> (#[trigger] kept.rows@[k]) < n,
            prefix_paths@.len() == i,
            values_out@.len() == i,
            forall|k: int|
                0 <= k < i ==> (#[trigger] prefix_paths@[k])@ == device_ids@[rows[k]]@,
            forall|k: int|
                0 <= k < i ==> (#[trigger] values_out@[k])@ == record_bytes(
                    kept_values(values_seq[rows[k]]),
                ),
        decreases kept.rows@.len() - i,
    {
        prefix_paths.push(device_ids[kept.rows[i]].clone());
        assert(value_lists(kept.values@)[i as int] == values_view(kept.values@[i as int]@));
        values_out.push(serialize_record_values(kept.values[i].as_slice()));
        i += 1;
    }
    let times = reorder_timestamps(&timestamps, &kept.rows);
    proof {
        assert(texts(prefix_paths@) =~= reordered(texts(device_ids@), rows));
        assert(byte_strings(values_out@) =~= sent_buffers(values_seq, rows));
    }
    Ok(
        TSInsertRecordsReq {
            session_id,
            prefix_paths,
            measurements_list: kept.names,
            values_list: values_out,
            timestamps: times,
            is_aligned: Some(is_aligned),
        },
    )
}

/// The rows that a one-device batch keeps, or the complaint about it.
pub open spec fn one_device_rows_to_send(
    timestamps: nat,
    names: Seq<Seq<Seq<char>>>,
    values: Seq<Seq<ValueView>>,
) -> std::result::Result<Seq<int>, Seq<char>> {
    if names.len() != timestamps || values.len() != timestamps {
        Err(
            "insert_records_of_one_device length mismatch: "@ + decimal(timestamps)
                + " timestamps, "@ + decimal(names.len()) + " measurement lists, "@ + decimal(
                values.len(),
            ) + " value lists"@,
        )
    } else {
        match kept_rows(names, values, timestamps) {
            Err(m) => Err(m),
            Ok(kept) => if kept.len() == 0 {
                Err("all insert values are null"@)
            } else {
                Ok(kept)
            },
        }
    }
}

/// The kept rows of a one-device batch in the order in which they are sent:
/// by timestamp, and in the given order among equal timestamps.
pub open spec fn send_order(timestamps: Seq<i64>, kept: Seq<int>) -> Seq<int> {
    reordered(kept, stable_order(reordered(timestamps, kept)))
}

/// Whether `req` inserts the given rows of a one-device batch, in that order.
pub open spec fn inserts_one_device(
    req: TSInsertRecordsOfOneDeviceReq,
    session_id: i64,
    device: Seq<char>,
    timestamps: Seq<i64>,
    names: Seq<Seq<Seq<char>>>,
    values: Seq<Seq<ValueView>>,
    is_aligned: bool,
    rows: Seq<int>,
) -> bool {
    &&& req.session_id == session_id
    &&& req.prefix_path@ == device
    &&& req.timestamps@ == reordered(timestamps, rows)
    &&& text_lists(req.measurements_list@) == sent_names(names, values, rows)
    &&& byte_strings(req.values_list@) == sent_buffers(values, rows)
    &&& req.is_aligned == Some(is_aligned)
}

/// Assembles the request that inserts several rows for one device.
pub fn build_insert_records_of_one_device_req(
    session_id: i64,
    device_id: &str,
    timestamps: Vec<i64>,
    measurements_list: Vec<Vec<String>>,
    values_list: &[Vec<Value>],
    is_aligned: bool,
) -> (req: Result<TSInsertRecordsOfOneDeviceReq>)
    ensures
        match (
            req,
            one_device_rows_to_send(
                timestamps@.len(),
                text_lists(measurements_list@),
                value_lists(values_list@),
            ),
        ) {
            (Ok(r), Ok(kept)) => inserts_one_device(
                r,
                session_id,
                device_id@,
                timestamps@,
                text_lists(measurements_list@),
                value_lists(values_list@),
                is_aligned,
                send_order(timestamps@, kept),
            ),
            (Err(e), Err(m)) => e@ == ErrorView::Client(m),
            _ => false,
        },
{
    let n: usize = timestamps.len();
    if measurements_list.len() != n || values_list.len() != n {
        return Err(
            length_mismatch(
                "insert_records_of_one_device length mismatch: ",
                n,
                measurements_list.len(),
                values_list.len(),
            ),
        );
    }
    let kept = match keep_rows(&measurements_list, values_list) {
        Ok(kept) => kept,
        Err(e) => return Err(e),
    };
    if kept.rows.len() == 0 {
        return Err(Error::Client("all insert values are null".to_owned()));
    }
    let ghost rows = row_numbers(kept.rows@);
    let ghost names_view = text_lists(measurements_list@);
    let ghost values_seq = value_lists(values_list@);
    let kept_times = reorder_timestamps(&timestamps, &kept.rows);
    proof {
        assert(text_lists(kept.names@).len() == rows.len());
        assert(value_lists(kept.values@).len() == rows.len());
    }
    let (times, names, buffers) = sort_one_device_rows(
        kept_times,
        kept.names,
        kept.values.as_slice(),
    );
    proof {
        let order = stable_order(kept_times@);
        crate::order::law_stable_order(kept_times@);
        let sent = send_order(timestamps@, rows);
        assert(times@ =~= reordered(timestamps@, sent));
        assert(text_lists(names@) =~= sent_names(names_view, values_seq, sent));
        assert(byte_strings(buffers@) =~= sent_buffers(values_seq, sent));
    }
    Ok(
        TSInsertRecordsOfOneDeviceReq {
            session_id,
            prefix_path: device_id.to_owned(),
            measurements_list: names,
            values_list: buffers,
            timestamps: times,
            is_aligned: Some(is_aligned),
        },
    )
}

/// The rows of a one-device batch are sent in ascending time, each of them
/// once.
pub proof fn law_one_device_rows_are_sent_in_time_order(timestamps: Seq<i64>, kept: Seq<int>)
    ensures
        send_order(timestamps, kept).len() == kept.len(),
        send_order(timestamps, kept).to_multiset() == kept.to_multiset(),
        forall|a: int, b: int|
            0 <= a < b < kept.len() ==> timestamps[send_order(timestamps, kept)[a]]
                <= timestamps[send_order(timestamps, kept)[b]],
{
    let keys = reordered(timestamps, kept);
    let order = stable_order(keys);
    crate::order::law_stable_order(keys);
    crate::order::lemma_reordered_multiset(kept, order);
}

} // verus!
