//! Row-oriented value-buffer serialization for the `insertRecord(s)` RPC
//! family. Unlike the tablet's column-major layout, a record interleaves type
//! and value per field: each cell is a 1-byte TSDataType marker followed by
//! its big-endian payload.

use vstd::prelude::*;

use super::tablet::{cell_bytes, write_value};
use super::type_code_of;
use super::value::{value_type, Value, ValueView};

verus! {

/// The marker of a null cell (`-2`), which has no payload: the server reads
/// it as null-without-type.
pub const TYPE_NULL: u8 = 0xFE;

/// A record field: the bare null marker, or the type code and the value.
pub open spec fn field_bytes(value: ValueView) -> Seq<u8> {
    match value_type(value) {
        None => seq![TYPE_NULL],
        Some(ty) => seq![type_code_of(ty) as u8] + cell_bytes(ty, Some(value)),
    }
}

/// The fields of a record, one after the other.
pub open spec fn record_bytes(values: Seq<ValueView>) -> Seq<u8>
    decreases values.len(),
{
    if values.len() == 0 {
        Seq::empty()
    } else {
        record_bytes(values.drop_last()) + field_bytes(values.last())
    }
}

/// The views of a list of values.
pub open spec fn values_view(values: Seq<Value>) -> Seq<ValueView> {
    values.map_values(|v: Value| v@)
}

fn write_field(buf: &mut Vec<u8>, value: &Value)
    ensures
        final(buf)@ == old(buf)@ + field_bytes(value@),
{
    match value.data_type() {
        None => {
            buf.push(TYPE_NULL);
        },
        Some(ty) => {
            buf.push(ty.code() as u8);
            write_value(buf, value);
            assert(buf@ == old(buf)@.push(type_code_of(ty) as u8) + cell_bytes(ty, Some(value@)));
        },
    }
    assert(buf@ =~= old(buf)@ + field_bytes(value@));
}

/// Serializes one record row for `insertRecord`/`insertRecords`/
/// `insertRecordsOfOneDevice`: per value a 1-byte type-code marker plus the
/// big-endian payload (TEXT/STRING/BLOB carry a 4-byte BE length prefix;
/// DATE is i32 `yyyyMMdd`; BOOLEAN is one byte). [`Value::Null`] cells are
/// the bare [`TYPE_NULL`] marker. OBJECT uses the same length-prefixed layout
/// as BLOB.
pub fn serialize_record_values(values: &[Value]) -> (buf: Vec<u8>)
    ensures
        buf@ == record_bytes(values_view(values@)),
{
    let mut buf: Vec<u8> = Vec::new();
    let mut i: usize = 0;
    let ghost view = values_view(values@);
    while i < values.len()
        invariant
            i <= values@.len(),
            view == values_view(values@),
            buf@ == record_bytes(view.subrange(0, i as int)),
        decreases values@.len() - i,
    {
        write_field(&mut buf, &values[i]);
        proof {
            assert(view.subrange(0, i + 1).drop_last() =~= view.subrange(0, i as int));
        }
        i += 1;
    }
    assert(view.subrange(0, i as int) =~= view);
    buf
}

/// Records written one after the other are the record of all their fields:
/// fields carry no state from one to the next.
pub proof fn law_records_concatenate(a: Seq<ValueView>, b: Seq<ValueView>)
    ensures
        record_bytes(a + b) == record_bytes(a) + record_bytes(b),
    decreases b.len(),
{
    if b.len() == 0 {
        assert(a + b =~= a);
        assert(record_bytes(a) + record_bytes(b) =~= record_bytes(a));
    } else {
        law_records_concatenate(a, b.drop_last());
        assert((a + b).drop_last() =~= a + b.drop_last());
        assert(record_bytes(a + b) =~= record_bytes(a) + record_bytes(b));
    }
}

} // verus!
