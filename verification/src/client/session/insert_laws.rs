//! What insert requests hand to the server.

use vstd::prelude::*;

use super::inserts::{
    arity_complaint, batch_complaint, first_table_tablet, inserts_one_device, inserts_record,
    inserts_records, inserts_tablet, inserts_tablets, ints, kept_names, kept_rows, kept_values,
    law_one_device_rows_are_sent_in_time_order, law_sent_rows, one_device_rows_to_send,
    record_complaint, records_to_send, send_order, sent_buffers, sent_names, text_lists,
    type_codes, wire_count,
};
use crate::connection::tls::byte_strings;
use crate::data::insert_format::{
    cells_in, cells_short_enough, law_record_reads_back, law_tablet_values_read_back,
    law_timestamps_read_back, record_at, short_enough, times_in,
};
use crate::data::record::record_bytes;
use crate::data::tablet::{law_sorted_tablet_is_wf, texts, TabletView};
use crate::data::value::{quoted_text, ValueView};
use crate::data::{law_type_of_code_inverts_code, type_of_code};
use crate::order::{law_stable_order, reordered, stable_order};
use crate::protocol::{
    TSInsertRecordReq, TSInsertRecordsOfOneDeviceReq, TSInsertRecordsReq, TSInsertTabletReq,
    TSInsertTabletsReq,
};
use crate::text::decimal;

verus! {

/// Whether `at` lists, in ascending order, all positions at which a row has a
/// value, and no other.
pub open spec fn are_value_positions(at: Seq<int>, values: Seq<ValueView>) -> bool {
    &&& forall|a: int| 0 <= a < at.len() ==> 0 <= #[trigger] at[a] < values.len()
    &&& forall|a: int, b: int| 0 <= a < b < at.len() ==> #[trigger] at[a] < #[trigger] at[b]
    &&& forall|a: int| 0 <= a < at.len() ==> values[#[trigger] at[a]] != ValueView::Null
    &&& forall|k: int|
        0 <= k < values.len() && #[trigger] values[k] != ValueView::Null ==> at.contains(k)
}

/// No value of a row is lost: at the positions of its values, in ascending
/// order, stand the names and values that are kept, in order. There are as many
/// of them as the row has cells that are not null.
pub proof fn law_no_value_is_lost(names: Seq<Seq<char>>, values: Seq<ValueView>) -> (at: Seq<int>)
    requires
        names.len() == values.len(),
    ensures
        are_value_positions(at, values),
        kept_values(values).len() == at.len(),
        kept_names(names, values).len() == at.len(),
        forall|a: int|
            0 <= a < at.len() ==> #[trigger] kept_values(values)[a] == values[at[a]],
        forall|a: int|
            0 <= a < at.len() ==> #[trigger] kept_names(names, values)[a] == names[at[a]],
        at.to_set() == Set::new(
            |k: int| 0 <= k < values.len() && values[k] != ValueView::Null,
        ),
        Set::new(|k: int| 0 <= k < values.len() && values[k] != ValueView::Null).len()
            == kept_values(values).len(),
    decreases values.len(),
{
    if values.len() == 0 {
        let at = Seq::<int>::empty();
        assert(at.to_set() =~= Set::new(
            |k: int| 0 <= k < values.len() && values[k] != ValueView::Null,
        ));
        at.unique_seq_to_set();
        at
    } else {
        let n0 = names.drop_last();
        let v0 = values.drop_last();
        let before = law_no_value_is_lost(n0, v0);
        let last = values.len() - 1;
        assert forall|k: int| 0 <= k < last implies v0[k] == #[trigger] values[k] by {}
        let at = if values.last() is Null {
            before
        } else {
            before.push(last)
        };
        assert forall|k: int|
            0 <= k < values.len() && #[trigger] values[k] != ValueView::Null implies at.contains(
            k,
        ) by {
            if k < last {
                assert(v0[k] == values[k]);
                assert(before.contains(k));
                let a = choose|a: int| 0 <= a < before.len() && before[a] == k;
                assert(at[a] == k);
            } else {
                assert(at[at.len() - 1] == k);
            }
        }
        assert forall|a: int| 0 <= a < at.len() implies values[#[trigger] at[a]]
            != ValueView::Null by {
            if a < before.len() {
                assert(v0[before[a]] != ValueView::Null);
            }
        }
        assert(at.to_set() =~= Set::new(
            |k: int| 0 <= k < values.len() && values[k] != ValueView::Null,
        ));
        at.unique_seq_to_set();
        at
    }
}

/// A single row is refused if and only if it does not pair each measurement
/// with one value or has no value that is not null, for the first of these
/// reasons that holds.
pub proof fn law_single_rows_are_accepted(names: Seq<Seq<char>>, values: Seq<ValueView>)
    ensures
        record_complaint(names, values) is None <==> names.len() == values.len() && exists|k: int|
            0 <= k < values.len() && #[trigger] values[k] != ValueView::Null,
        names.len() != values.len() ==> record_complaint(names, values) == Some(
            "record has "@ + decimal(values.len()) + " values for "@ + decimal(names.len())
                + " measurements"@,
        ),
        names.len() == values.len() && (forall|k: int|
            0 <= k < values.len() ==> #[trigger] values[k] == ValueView::Null)
            ==> record_complaint(names, values) == Some("all insert values are null"@),
{
    lemma_keeps_a_value(values);
}

proof fn lemma_keeps_a_value(values: Seq<ValueView>)
    ensures
        kept_values(values).len() > 0 <==> exists|k: int|
            0 <= k < values.len() && #[trigger] values[k] != ValueView::Null,
{
    let at = law_no_value_is_lost(
        Seq::new(values.len(), |k: int| Seq::<char>::empty()),
        values,
    );
    if kept_values(values).len() > 0 {
        assert(values[at[0]] != ValueView::Null);
    }
    if exists|k: int| 0 <= k < values.len() && #[trigger] values[k] != ValueView::Null {
        let k = choose|k: int| 0 <= k < values.len() && #[trigger] values[k] != ValueView::Null;
        assert(at.contains(k));
    }
}

/// Whether a row has a cell that is not null.
pub open spec fn has_value(values: Seq<ValueView>) -> bool {
    exists|k: int| 0 <= k < values.len() && #[trigger] values[k] != ValueView::Null
}

proof fn lemma_kept_rows(names: Seq<Seq<Seq<char>>>, values: Seq<Seq<ValueView>>, k: nat)
    ensures
        kept_rows(names, values, k) is Ok <==> forall|i: int|
            0 <= i < k ==> names[i].len() == (#[trigger] values[i]).len(),
        kept_rows(names, values, k) matches Ok(kept) ==> {
            &&& forall|a: int| 0 <= a < kept.len() ==> 0 <= #[trigger] kept[a] < k
            &&& forall|a: int, b: int| 0 <= a < b < kept.len() ==> #[trigger] kept[a]
                < #[trigger] kept[b]
            &&& forall|a: int| 0 <= a < kept.len() ==> has_value(values[#[trigger] kept[a]])
            &&& forall|i: int| 0 <= i < k && has_value(#[trigger] values[i]) ==> kept.contains(i)
        },
        kept_rows(names, values, k) matches Err(m) ==> exists|i: int|
            {
                &&& 0 <= i < k
                &&& names[i].len() != (#[trigger] values[i]).len()
                &&& forall|j: int| 0 <= j < i ==> names[j].len() == (#[trigger] values[j]).len()
                &&& m == arity_complaint(names[i].len(), values[i].len())->0
            },
    decreases k,
{
    law_sent_rows(names, values, k);
    assert forall|i: int| 0 <= i < k implies (kept_values(#[trigger] values[i]).len() > 0
        <==> has_value(values[i])) by {
        lemma_keeps_a_value(values[i]);
    }
    if k > 0 {
        lemma_kept_rows(names, values, (k - 1) as nat);
        assert(values[k - 1] == values[k - 1]);
    }
}

/// A batch for several devices is accepted if and only if its lists have one
/// entry per device, every row pairs its measurements with its values, and some
/// row has a value. The rows sent are then those that have a value, all of them
/// and in the order given.
pub proof fn law_batches_are_accepted(
    devices: nat,
    timestamps: nat,
    names: Seq<Seq<Seq<char>>>,
    values: Seq<Seq<ValueView>>,
)
    ensures
        records_to_send(devices, timestamps, names, values) is Ok <==> {
            &&& timestamps == devices
            &&& names.len() == devices
            &&& values.len() == devices
            &&& forall|i: int|
                0 <= i < devices ==> names[i].len() == (#[trigger] values[i]).len()
            &&& exists|i: int| 0 <= i < devices && has_value(#[trigger] values[i])
        },
        records_to_send(devices, timestamps, names, values) matches Ok(kept) ==> {
            &&& forall|a: int| 0 <= a < kept.len() ==> 0 <= #[trigger] kept[a] < devices
            &&& forall|a: int, b: int| 0 <= a < b < kept.len() ==> #[trigger] kept[a]
                < #[trigger] kept[b]
            &&& forall|a: int| 0 <= a < kept.len() ==> has_value(values[#[trigger] kept[a]])
            &&& forall|i: int|
                0 <= i < devices && has_value(#[trigger] values[i]) ==> kept.contains(i)
        },
{
    lemma_kept_rows(names, values, devices);
    if let Ok(kept) = kept_rows(names, values, devices) {
        if kept.len() > 0 {
            assert(has_value(values[kept[0]]));
        }
        if exists|i: int| 0 <= i < devices && has_value(#[trigger] values[i]) {
            let i = choose|i: int| 0 <= i < devices && has_value(#[trigger] values[i]);
            assert(kept.contains(i));
        }
    }
}

/// A batch for several devices is refused for lists of different lengths before
/// anything else, then for its first row whose values do not pair with its
/// measurements, and last because all its values are null.
pub proof fn law_batches_are_refused(
    devices: nat,
    timestamps: nat,
    names: Seq<Seq<Seq<char>>>,
    values: Seq<Seq<ValueView>>,
    i: int,
)
    ensures
        timestamps != devices || names.len() != devices || values.len() != devices
            ==> records_to_send(devices, timestamps, names, values) == Err::<Seq<int>, Seq<char>>(
            "insert_records length mismatch: "@ + decimal(devices) + " devices, "@ + decimal(
                timestamps,
            ) + " timestamps, "@ + decimal(names.len()) + " measurement lists, "@ + decimal(
                values.len(),
            ) + " value lists"@,
        ),
        timestamps == devices && names.len() == devices && values.len() == devices && 0 <= i
            < devices && names[i].len() != values[i].len() && (forall|j: int|
            0 <= j < i ==> names[j].len() == (#[trigger] values[j]).len()) ==> records_to_send(
            devices,
            timestamps,
            names,
            values,
        ) == Err::<Seq<int>, Seq<char>>(
            "record has "@ + decimal(values[i].len()) + " values for "@ + decimal(names[i].len())
                + " measurements"@,
        ),
        timestamps == devices && names.len() == devices && values.len() == devices && (forall|
            j: int,
        |
            0 <= j < devices ==> names[j].len() == (#[trigger] values[j]).len() && !has_value(
                values[j],
            )) ==> records_to_send(devices, timestamps, names, values) == Err::<
            Seq<int>,
            Seq<char>,
        >("all insert values are null"@),
{
    lemma_kept_rows(names, values, devices);
    lemma_first_bad_row(names, values, devices, i);
    if let Ok(kept) = kept_rows(names, values, devices) {
        if kept.len() > 0 {
            assert(has_value(values[kept[0]]));
        }
    }
}

proof fn lemma_first_bad_row(
    names: Seq<Seq<Seq<char>>>,
    values: Seq<Seq<ValueView>>,
    k: nat,
    i: int,
)
    ensures
        0 <= i < k && names[i].len() != values[i].len() && (forall|j: int|
            0 <= j < i ==> names[j].len() == (#[trigger] values[j]).len()) ==> kept_rows(
            names,
            values,
            k,
        ) == Err::<Seq<int>, Seq<char>>(
            "record has "@ + decimal(values[i].len()) + " values for "@ + decimal(names[i].len())
                + " measurements"@,
        ),
{
    lemma_kept_rows(names, values, k);
    if 0 <= i < k && names[i].len() != values[i].len() && (forall|j: int|
        0 <= j < i ==> names[j].len() == (#[trigger] values[j]).len()) {
        assert(values[i] == values[i]);
        let m = kept_rows(names, values, k)->Err_0;
        let f = choose|f: int|
            {
                &&& 0 <= f < k
                &&& names[f].len() != (#[trigger] values[f]).len()
                &&& forall|j: int| 0 <= j < f ==> names[j].len() == (#[trigger] values[j]).len()
                &&& m == arity_complaint(names[f].len(), values[f].len())->0
            };
        if f < i {
            assert(names[f].len() == values[f].len());
        }
        if i < f {
            assert(names[i].len() == values[i].len());
        }
    }
}

/// A batch for one device is accepted on the same terms as one for several
/// devices, with one entry per timestamp in each list, and keeps the same rows.
/// Other than about the lengths of the lists it is refused alike.
pub proof fn law_one_device_batches_are_accepted_alike(
    timestamps: nat,
    names: Seq<Seq<Seq<char>>>,
    values: Seq<Seq<ValueView>>,
)
    ensures
        names.len() == timestamps && values.len() == timestamps ==> one_device_rows_to_send(
            timestamps,
            names,
            values,
        ) == records_to_send(timestamps, timestamps, names, values),
        names.len() != timestamps || values.len() != timestamps ==> one_device_rows_to_send(
            timestamps,
            names,
            values,
        ) == Err::<Seq<int>, Seq<char>>(
            "insert_records_of_one_device length mismatch: "@ + decimal(timestamps)
                + " timestamps, "@ + decimal(names.len()) + " measurement lists, "@ + decimal(
                values.len(),
            ) + " value lists"@,
        ),
{
}

/// What a single-row request says: the session, the device, the time and the
/// alignment as given, and the row's values that are not null, each under its
/// own name and readable from the buffer.
pub proof fn law_record_request_carries_the_row(
    req: TSInsertRecordReq,
    session_id: i64,
    device: Seq<char>,
    timestamp: i64,
    names: Seq<Seq<char>>,
    values: Seq<ValueView>,
    is_aligned: bool,
) -> (at: Seq<int>)
    requires
        inserts_record(req, session_id, device, timestamp, names, values, is_aligned),
        names.len() == values.len(),
        forall|k: int| 0 <= k < values.len() ==> short_enough(#[trigger] values[k]),
    ensures
        are_value_positions(at, values),
        req.session_id == session_id,
        req.prefix_path@ == device,
        req.timestamp == timestamp,
        req.is_aligned == Some(is_aligned),
        req.measurements@.len() == at.len(),
        forall|a: int|
            0 <= a < at.len() ==> (#[trigger] req.measurements@[a])@ == names[at[a]],
        record_at(req.values@, 0, at.len()) == Some(
            (Seq::new(at.len(), |a: int| values[at[a]]), req.values@.len() as int),
        ),
{
    let at = law_no_value_is_lost(names, values);
    assert forall|a: int| 0 <= a < at.len() implies (#[trigger] req.measurements@[a])@
        == names[at[a]] by {
        assert(texts(req.measurements@)[a] == kept_names(names, values)[a]);
    }
    assert(texts(req.measurements@).len() == req.measurements@.len());
    lemma_buffer_reads_back(values, at);
    at
}

proof fn lemma_buffer_reads_back(values: Seq<ValueView>, at: Seq<int>)
    requires
        are_value_positions(at, values),
        kept_values(values).len() == at.len(),
        forall|a: int|
            0 <= a < at.len() ==> #[trigger] kept_values(values)[a] == values[at[a]],
        forall|k: int| 0 <= k < values.len() ==> short_enough(#[trigger] values[k]),
    ensures
        record_at(record_bytes(kept_values(values)), 0, at.len()) == Some(
            (
                Seq::new(at.len(), |a: int| values[at[a]]),
                record_bytes(kept_values(values)).len() as int,
            ),
        ),
{
    let kept = kept_values(values);
    let b = record_bytes(kept);
    assert(kept =~= Seq::new(at.len(), |a: int| values[at[a]]));
    assert forall|a: int| 0 <= a < kept.len() implies short_enough(#[trigger] kept[a]) by {
        assert(short_enough(values[at[a]]));
    }
    assert(b.subrange(0, b.len() as int) =~= b);
    law_record_reads_back(kept, b, 0);
}

/// What entry `e` of a request for several devices says, where row `rows[e]` of
/// the batch stands there: the device and the time of that row, and its values
/// that are not null, each under its own name and readable from the buffer. All
/// lists of the request have one entry per row sent.
pub proof fn law_records_request_carries_the_rows(
    req: TSInsertRecordsReq,
    session_id: i64,
    devices: Seq<Seq<char>>,
    timestamps: Seq<i64>,
    names: Seq<Seq<Seq<char>>>,
    values: Seq<Seq<ValueView>>,
    is_aligned: bool,
    rows: Seq<int>,
    e: int,
) -> (at: Seq<int>)
    requires
        inserts_records(req, session_id, devices, timestamps, names, values, is_aligned, rows),
        0 <= e < rows.len(),
        names[rows[e]].len() == values[rows[e]].len(),
        forall|k: int|
            0 <= k < values[rows[e]].len() ==> short_enough(#[trigger] values[rows[e]][k]),
    ensures
        req.session_id == session_id,
        req.is_aligned == Some(is_aligned),
        req.prefix_paths@.len() == rows.len(),
        req.timestamps@.len() == rows.len(),
        req.measurements_list@.len() == rows.len(),
        req.values_list@.len() == rows.len(),
        req.prefix_paths@[e]@ == devices[rows[e]],
        req.timestamps@[e] == timestamps[rows[e]],
        are_value_positions(at, values[rows[e]]),
        req.measurements_list@[e]@.len() == at.len(),
        forall|a: int|
            0 <= a < at.len() ==> (#[trigger] req.measurements_list@[e]@[a])@
                == names[rows[e]][at[a]],
        record_at(req.values_list@[e]@, 0, at.len()) == Some(
            (
                Seq::new(at.len(), |a: int| values[rows[e]][at[a]]),
                req.values_list@[e]@.len() as int,
            ),
        ),
{
    let r = rows[e];
    let at = law_no_value_is_lost(names[r], values[r]);
    assert(texts(req.prefix_paths@).len() == req.prefix_paths@.len());
    assert(texts(req.prefix_paths@)[e] == reordered(devices, rows)[e]);
    assert(text_lists(req.measurements_list@).len() == req.measurements_list@.len());
    assert(byte_strings(req.values_list@).len() == req.values_list@.len());
    lemma_entry(req.measurements_list@, req.values_list@, names, values, rows, e, at);
    at
}

proof fn lemma_entry(
    measurements_list: Seq<Vec<String>>,
    values_list: Seq<Vec<u8>>,
    names: Seq<Seq<Seq<char>>>,
    values: Seq<Seq<ValueView>>,
    rows: Seq<int>,
    e: int,
    at: Seq<int>,
)
    requires
        text_lists(measurements_list) == sent_names(names, values, rows),
        byte_strings(values_list) == sent_buffers(values, rows),
        0 <= e < rows.len(),
        are_value_positions(at, values[rows[e]]),
        kept_values(values[rows[e]]).len() == at.len(),
        kept_names(names[rows[e]], values[rows[e]]).len() == at.len(),
        forall|a: int|
            0 <= a < at.len() ==> #[trigger] kept_values(values[rows[e]])[a]
                == values[rows[e]][at[a]],
        forall|a: int|
            0 <= a < at.len() ==> #[trigger] kept_names(names[rows[e]], values[rows[e]])[a]
                == names[rows[e]][at[a]],
        forall|k: int|
            0 <= k < values[rows[e]].len() ==> short_enough(#[trigger] values[rows[e]][k]),
    ensures
        measurements_list[e]@.len() == at.len(),
        forall|a: int|
            0 <= a < at.len() ==> (#[trigger] measurements_list[e]@[a])@ == names[rows[e]][at[a]],
        record_at(values_list[e]@, 0, at.len()) == Some(
            (Seq::new(at.len(), |a: int| values[rows[e]][at[a]]), values_list[e]@.len() as int),
        ),
{
    let r = rows[e];
    assert(text_lists(measurements_list).len() == measurements_list.len());
    assert(byte_strings(values_list).len() == values_list.len());
    assert(text_lists(measurements_list)[e] == texts(measurements_list[e]@));
    assert(sent_names(names, values, rows)[e] == kept_names(names[r], values[r]));
    assert forall|a: int| 0 <= a < at.len() implies (#[trigger] measurements_list[e]@[a])@
        == names[r][at[a]] by {
        assert(texts(measurements_list[e]@)[a] == kept_names(names[r], values[r])[a]);
    }
    assert(texts(measurements_list[e]@).len() == measurements_list[e]@.len());
    assert(byte_strings(values_list)[e] == sent_buffers(values, rows)[e]);
    assert(values_list[e]@ == record_bytes(kept_values(values[r])));
    lemma_buffer_reads_back(values[r], at);
}

/// What entry `e` of a request for one device says, where row `rows[e]` of the
/// batch stands there: the time of that row, and its values that are not null,
/// each under its own name and readable from the buffer. All lists of the
/// request have one entry per row sent.
pub proof fn law_one_device_request_carries_the_rows(
    req: TSInsertRecordsOfOneDeviceReq,
    session_id: i64,
    device: Seq<char>,
    timestamps: Seq<i64>,
    names: Seq<Seq<Seq<char>>>,
    values: Seq<Seq<ValueView>>,
    is_aligned: bool,
    rows: Seq<int>,
    e: int,
) -> (at: Seq<int>)
    requires
        inserts_one_device(req, session_id, device, timestamps, names, values, is_aligned, rows),
        0 <= e < rows.len(),
        names[rows[e]].len() == values[rows[e]].len(),
        forall|k: int|
            0 <= k < values[rows[e]].len() ==> short_enough(#[trigger] values[rows[e]][k]),
    ensures
        req.session_id == session_id,
        req.prefix_path@ == device,
        req.is_aligned == Some(is_aligned),
        req.timestamps@.len() == rows.len(),
        req.measurements_list@.len() == rows.len(),
        req.values_list@.len() == rows.len(),
        req.timestamps@[e] == timestamps[rows[e]],
        are_value_positions(at, values[rows[e]]),
        req.measurements_list@[e]@.len() == at.len(),
        forall|a: int|
            0 <= a < at.len() ==> (#[trigger] req.measurements_list@[e]@[a])@
                == names[rows[e]][at[a]],
        record_at(req.values_list@[e]@, 0, at.len()) == Some(
            (
                Seq::new(at.len(), |a: int| values[rows[e]][at[a]]),
                req.values_list@[e]@.len() as int,
            ),
        ),
{
    let r = rows[e];
    let at = law_no_value_is_lost(names[r], values[r]);
    assert(text_lists(req.measurements_list@).len() == req.measurements_list@.len());
    assert(byte_strings(req.values_list@).len() == req.values_list@.len());
    lemma_entry(req.measurements_list@, req.values_list@, names, values, rows, e, at);
    at
}

/// The rows of a one-device batch are sent by ascending time, those of the same
/// time in the order given: each row kept is sent once, and no other.
pub proof fn law_one_device_order(timestamps: Seq<i64>, kept: Seq<int>, a: int, b: int)
    requires
        0 <= a < b < kept.len(),
        forall|i: int, j: int| 0 <= i < j < kept.len() ==> #[trigger] kept[i] < #[trigger] kept[j],
    ensures
        send_order(timestamps, kept).to_multiset() == kept.to_multiset(),
        ({
            let first = send_order(timestamps, kept)[a];
            let second = send_order(timestamps, kept)[b];
            timestamps[first] < timestamps[second] || timestamps[first] == timestamps[second]
                && first < second
        }),
{
    law_one_device_rows_are_sent_in_time_order(timestamps, kept);
    let keys = reordered(timestamps, kept);
    law_stable_order(keys);
    let order = stable_order(keys);
    assert(keys[order[a]] == timestamps[kept[order[a]]]);
    assert(keys[order[b]] == timestamps[kept[order[b]]]);
    assert(order[a] != order[b]);
    if order[a] < order[b] {
        assert(kept[order[a]] < kept[order[b]]);
    }
}

/// What a tablet request says: the target, the measurements and the alignment
/// of the tablet; types that its codes name; its number of rows; and, readable
/// from the two buffers, its timestamps and cells in time order, nulls as nulls.
/// A table-model tablet, and no other, asks to write to a table and states the
/// category of each column.
pub proof fn law_tablet_request_carries_the_tablet(
    req: TSInsertTabletReq,
    session_id: i64,
    t: TabletView,
)
    requires
        inserts_tablet(req, session_id, t),
        t.wf(),
        t.serializable(),
        cells_short_enough(t),
        t.timestamps.len() < 0x8000_0000,
    ensures
        req.session_id == session_id,
        req.prefix_path@ == t.target,
        req.measurements@.len() == t.measurements.len(),
        forall|c: int|
            0 <= c < t.measurements.len() ==> (#[trigger] req.measurements@[c])@
                == t.measurements[c],
        req.types@.len() == t.types.len(),
        forall|c: int|
            0 <= c < t.types.len() ==> type_of_code(#[trigger] req.types@[c] as int) == Some(
                t.types[c],
            ),
        req.size == t.timestamps.len(),
        req.is_aligned == Some(t.aligned),
        times_in(req.timestamps@, t.timestamps.len()) == Some(
            (t.sorted().timestamps, req.timestamps@.len() as int),
        ),
        cells_in(t.types, t.timestamps.len(), req.values@) == Some(t.sorted().values),
        t.column_categories is None ==> req.write_to_table is None && req.column_categories is None,
        t.column_categories is Some ==> req.write_to_table == Some(true) && req.column_categories
            is Some && req.column_categories->0@.len() == t.types.len(),
        t.column_categories matches Some(categories) ==> forall|c: int|
            0 <= c < t.types.len() ==> {
                let code = #[trigger] req.column_categories->0@[c];
                &&& code == 0 <==> categories[c] is Tag
                &&& code == 1 <==> categories[c] is Field
                &&& code == 2 <==> categories[c] is Attribute
            },
{
    let s = t.sorted();
    law_sorted_tablet_is_wf(t);
    law_stable_order(t.timestamps);
    law_timestamps_read_back(s);
    assert(cells_short_enough(s)) by {
        assert forall|c: int, r: int|
            0 <= c < s.values.len() && 0 <= r < s.timestamps.len() implies (
        #[trigger] s.values[c][r] matches Some(v) ==> short_enough(v)) by {
            assert(s.values[c][r] == t.values[c][stable_order(t.timestamps)[r]]);
        }
    }
    law_tablet_values_read_back(s);
    assert(texts(req.measurements@).len() == req.measurements@.len());
    assert forall|c: int| 0 <= c < t.measurements.len() implies (#[trigger] req.measurements@[c])@
        == t.measurements[c] by {
        assert(texts(req.measurements@)[c] == t.measurements[c]);
    }
    assert(ints(req.types@).len() == req.types@.len());
    assert forall|c: int| 0 <= c < t.types.len() implies type_of_code(
        #[trigger] req.types@[c] as int,
    ) == Some(t.types[c]) by {
        assert(ints(req.types@)[c] == type_codes(t.types)[c]);
        law_type_of_code_inverts_code(t.types[c]);
    }
}

/// Entry `i` of a batch of tablets carries what the single-tablet request for
/// tablet `i` would; the alignment is that of the batch. All lists of the
/// request have one entry per tablet.
pub proof fn law_batch_carries_each_tablet(
    batch: TSInsertTabletsReq,
    single: TSInsertTabletReq,
    session_id: i64,
    tablets: Seq<TabletView>,
    is_aligned: bool,
    i: int,
)
    requires
        inserts_tablets(batch, session_id, tablets, is_aligned),
        0 <= i < tablets.len(),
        inserts_tablet(single, session_id, tablets[i]),
    ensures
        batch.session_id == single.session_id,
        batch.is_aligned == Some(is_aligned),
        batch.prefix_paths@.len() == tablets.len(),
        batch.measurements_list@.len() == tablets.len(),
        batch.values_list@.len() == tablets.len(),
        batch.timestamps_list@.len() == tablets.len(),
        batch.types_list@.len() == tablets.len(),
        batch.size_list@.len() == tablets.len(),
        batch.prefix_paths@[i]@ == single.prefix_path@,
        batch.measurements_list@[i]@.len() == single.measurements@.len(),
        forall|c: int|
            0 <= c < single.measurements@.len() ==> (#[trigger] batch.measurements_list@[i]@[c])@
                == single.measurements@[c]@,
        batch.values_list@[i]@ == single.values@,
        batch.timestamps_list@[i]@ == single.timestamps@,
        batch.types_list@[i]@ == single.types@,
        batch.size_list@[i] == single.size,
{
    let t = tablets[i];
    assert(texts(batch.prefix_paths@).len() == batch.prefix_paths@.len());
    assert(texts(batch.prefix_paths@)[i] == t.target);
    assert(text_lists(batch.measurements_list@).len() == batch.measurements_list@.len());
    assert(text_lists(batch.measurements_list@)[i] == t.measurements);
    assert(texts(batch.measurements_list@[i]@).len() == batch.measurements_list@[i]@.len());
    assert(texts(single.measurements@).len() == single.measurements@.len());
    assert forall|c: int| 0 <= c < single.measurements@.len() implies (
    #[trigger] batch.measurements_list@[i]@[c])@ == single.measurements@[c]@ by {
        assert(texts(batch.measurements_list@[i]@)[c] == texts(single.measurements@)[c]);
    }
    assert(byte_strings(batch.values_list@).len() == batch.values_list@.len());
    assert(byte_strings(batch.values_list@)[i] == t.sorted().value_bytes());
    assert(byte_strings(batch.timestamps_list@).len() == batch.timestamps_list@.len());
    assert(byte_strings(batch.timestamps_list@)[i] == t.sorted().timestamp_bytes());
    let codes = batch.types_list@.map_values(|c: Vec<i32>| ints(c@));
    assert(codes.len() == batch.types_list@.len());
    assert(codes[i] == type_codes(t.types));
    assert(ints(batch.types_list@[i]@) == ints(single.types@));
    assert(ints(batch.types_list@[i]@).len() == batch.types_list@[i]@.len());
    assert(ints(single.types@).len() == single.types@.len());
    assert forall|c: int| 0 <= c < single.types@.len() implies #[trigger] batch.types_list@[i]@[c]
        == single.types@[c] by {
        assert(ints(batch.types_list@[i]@)[c] == ints(single.types@)[c]);
    }
    assert(batch.types_list@[i]@ =~= single.types@);
    assert(ints(batch.size_list@).len() == batch.size_list@.len());
    assert(ints(batch.size_list@)[i] == batch.size_list@[i]);
}

proof fn lemma_first_table_tablet(tablets: Seq<TabletView>, k: nat)
    ensures
        match first_table_tablet(tablets, k) {
            Some(i) => {
                &&& 0 <= i < k
                &&& tablets[i].column_categories is Some
                &&& forall|j: int|
                    0 <= j < i ==> (#[trigger] tablets[j]).column_categories is None
            },
            None => forall|j: int|
                0 <= j < k ==> (#[trigger] tablets[j]).column_categories is None,
        },
    decreases k,
{
    if k > 0 {
        lemma_first_table_tablet(tablets, (k - 1) as nat);
    }
}

/// A batch of tablets is accepted if and only if there is a tablet in it and
/// none is of the table model; the complaint names the first that is.
pub proof fn law_tablet_batches_are_accepted(tablets: Seq<TabletView>, i: int)
    ensures
        batch_complaint(tablets) is None <==> tablets.len() > 0 && forall|j: int|
            0 <= j < tablets.len() ==> (#[trigger] tablets[j]).column_categories is None,
        tablets.len() == 0 ==> batch_complaint(tablets) == Some(
            "insert_tablets called with no tablets"@,
        ),
        0 <= i < tablets.len() && tablets[i].column_categories is Some && (forall|j: int|
            0 <= j < i ==> (#[trigger] tablets[j]).column_categories is None) ==> batch_complaint(
            tablets,
        ) == Some(
            "insert_tablets is tree-model only; tablet for table "@ + quoted_text(
                tablets[i].target,
            ) + " must go through insert_tablet"@,
        ),
{
    lemma_first_table_tablet(tablets, tablets.len());
    if 0 <= i < tablets.len() && tablets[i].column_categories is Some && (forall|j: int|
        0 <= j < i ==> (#[trigger] tablets[j]).column_categories is None) {
        let found = first_table_tablet(tablets, tablets.len());
        assert(found is Some);
        let f = found->0;
        if f < i {
            assert(tablets[f].column_categories is None);
        }
        if i < f {
            assert(tablets[i].column_categories is None);
        }
    }
}

/// A count goes over the wire as it is while it fits, and otherwise off by whole
/// turns of the 32-bit range.
pub proof fn law_wire_counts(n: nat)
    ensures
        -0x8000_0000 <= wire_count(n) < 0x8000_0000,
        n < 0x8000_0000 ==> wire_count(n) == n,
        (n - wire_count(n)) % 0x1_0000_0000 == 0,
{
}

} // verus!
