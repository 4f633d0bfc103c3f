//! What values are, how they compare and how they are shown.

use vstd::prelude::*;

use super::record::field_bytes;
use super::value::{
    byte_list_text, double_spacing, float32_eq, float64_eq, hundredths_text, nearest_double,
    object_size_text, object_text, quoted_text, round_half_even, value_text, value_type, ValueView,
};
use super::{category_code_of, type_code_of, ColumnCategory, TSDataType};
use crate::chars::numeral;
use crate::connection::lemma_decimal_reads_back;
use crate::text::{bool_text, decimal, digit, signed_decimal};
use crate::wire::be_nat;

verus! {

/// A value carries the type of its kind, and only a null carries none.
pub proof fn law_value_types(v: ValueView)
    ensures
        value_type(v) is None <==> v is Null,
        value_type(v) == Some(TSDataType::Boolean) <==> v is Boolean,
        value_type(v) == Some(TSDataType::Int32) <==> v is Int32,
        value_type(v) == Some(TSDataType::Int64) <==> v is Int64,
        value_type(v) == Some(TSDataType::Float) <==> v is Float,
        value_type(v) == Some(TSDataType::Double) <==> v is Double,
        value_type(v) == Some(TSDataType::Text) <==> v is Text,
        value_type(v) == Some(TSDataType::Timestamp) <==> v is Timestamp,
        value_type(v) == Some(TSDataType::Date) <==> v is Date,
        value_type(v) == Some(TSDataType::Blob) <==> v is Blob,
        value_type(v) == Some(TSDataType::String) <==> v is String,
        value_type(v) == Some(TSDataType::Object) <==> v is Object,
        !(value_type(v) == Some(TSDataType::Vector)),
        !(value_type(v) == Some(TSDataType::Unknown)),
{
}

/// Each wire code stands for one type: the numbering is that of the file format.
pub proof fn law_type_codes(ty: TSDataType)
    ensures
        type_code_of(ty) == 0 <==> ty is Boolean,
        type_code_of(ty) == 1 <==> ty is Int32,
        type_code_of(ty) == 2 <==> ty is Int64,
        type_code_of(ty) == 3 <==> ty is Float,
        type_code_of(ty) == 4 <==> ty is Double,
        type_code_of(ty) == 5 <==> ty is Text,
        type_code_of(ty) == 6 <==> ty is Vector,
        type_code_of(ty) == 7 <==> ty is Unknown,
        type_code_of(ty) == 8 <==> ty is Timestamp,
        type_code_of(ty) == 9 <==> ty is Date,
        type_code_of(ty) == 10 <==> ty is Blob,
        type_code_of(ty) == 11 <==> ty is String,
        type_code_of(ty) == 12 <==> ty is Object,
        0 <= type_code_of(ty) <= 12,
{
}

/// Each category code stands for one category.
pub proof fn law_category_codes(category: ColumnCategory)
    ensures
        category_code_of(category) == 0 <==> category is Tag,
        category_code_of(category) == 1 <==> category is Field,
        category_code_of(category) == 2 <==> category is Attribute,
        0 <= category_code_of(category) <= 2,
{
}

/// A field of a record begins with the code of its value's type, and a null is
/// a single byte that reads as -2.
pub proof fn law_fields_begin_with_their_type(v: ValueView)
    ensures
        v is Null ==> field_bytes(v).len() == 1 && field_bytes(v)[0] == 256 - 2,
        !(v is Null) ==> field_bytes(v).len() >= 1 && field_bytes(v)[0] == type_code_of(
            value_type(v)->0,
        ),
{
}

/// Floats compare as numbers: not-a-number equals nothing, the two zeros equal
/// each other, and otherwise equal means the same bits.
pub proof fn law_float_equality(a: u32, b: u32)
    ensures
        float32_eq(a, b) == float32_eq(b, a),
        a % 0x8000_0000 > 0x7F80_0000 ==> !float32_eq(a, b),
        a % 0x8000_0000 <= 0x7F80_0000 ==> float32_eq(a, a),
        a % 0x8000_0000 == 0 && b % 0x8000_0000 == 0 ==> float32_eq(a, b),
        float32_eq(a, b) && a % 0x8000_0000 != 0 ==> a == b,
        float32_eq(a, b) && a % 0x8000_0000 == 0 ==> b % 0x8000_0000 == 0,
{
}

/// Doubles compare as numbers: not-a-number equals nothing, the two zeros equal
/// each other, and otherwise equal means the same bits.
pub proof fn law_double_equality(a: u64, b: u64)
    ensures
        float64_eq(a, b) == float64_eq(b, a),
        a % 0x8000_0000_0000_0000 > 0x7FF0_0000_0000_0000 ==> !float64_eq(a, b),
        a % 0x8000_0000_0000_0000 <= 0x7FF0_0000_0000_0000 ==> float64_eq(a, a),
        a % 0x8000_0000_0000_0000 == 0 && b % 0x8000_0000_0000_0000 == 0 ==> float64_eq(a, b),
        float64_eq(a, b) && a % 0x8000_0000_0000_0000 != 0 ==> a == b,
        float64_eq(a, b) && a % 0x8000_0000_0000_0000 == 0 ==> b % 0x8000_0000_0000_0000 == 0,
{
}

/// A rounded quotient is off by half a unit at most, and by just half a unit
/// only where it is even.
pub proof fn law_round_half_even(n: nat, d: nat)
    requires
        d > 0,
    ensures
        2 * (n - round_half_even(n, d) * d) <= d,
        2 * (round_half_even(n, d) * d - n) <= d,
        2 * (n - round_half_even(n, d) * d) == d || 2 * (round_half_even(n, d) * d - n) == d
            ==> round_half_even(n, d) % 2 == 0,
{
    let q = n / d;
    let r = n % d;
    assert(n == q * d + r && r < d) by (nonlinear_arith)
        requires
            d > 0,
            q == n / d,
            r == n % d,
    ;
    assert((q + 1) * d == q * d + d) by (nonlinear_arith);
}

/// Doubles are spaced by a power of two that leaves 53 bits: below 2^53 every
/// integer is one, and each further bit doubles the spacing.
pub proof fn law_double_spacing(n: nat)
    ensures
        n < 0x20_0000_0000_0000 ==> double_spacing(n) == 1,
        n >= 0x20_0000_0000_0000 ==> double_spacing(n) == 2 * double_spacing(n / 2),
        n >= 0x20_0000_0000_0000 ==> double_spacing(n) * 0x10_0000_0000_0000 <= n
            < double_spacing(n) * 0x20_0000_0000_0000,
        double_spacing(n) >= 1,
    decreases n,
{
    if n >= 0x20_0000_0000_0000 {
        law_double_spacing(n / 2);
    }
}

/// An integer as a double is a multiple of the spacing there, off by half the
/// spacing at most; below 2^53 it is exact.
pub proof fn law_nearest_double(n: nat)
    ensures
        n < 0x20_0000_0000_0000 ==> nearest_double(n) == n,
        2 * (n - nearest_double(n)) <= double_spacing(n),
        2 * (nearest_double(n) - n) <= double_spacing(n),
        nearest_double(n) % double_spacing(n) == 0,
{
    law_double_spacing(n);
    let s = double_spacing(n);
    law_round_half_even(n, s);
    let q = round_half_even(n, s);
    assert((q * s) % s == 0) by (nonlinear_arith)
        requires
            s >= 1,
            q >= 0,
    ;
    if s == 1 {
        assert(q * 1 == q);
    }
}

/// A count of hundredths is shown with its units before the point and two
/// digits behind it, which together spell the count.
pub proof fn law_hundredths(h: nat)
    ensures
        ({
            let text = hundredths_text(h);
            let n = text.len() as int;
            &&& n >= 4
            &&& text[n - 3] == '.'
            &&& text.take(n - 3) == decimal(h / 100)
            &&& text[n - 2] as u32 == 48 + h / 10 % 10
            &&& text[n - 1] as u32 == 48 + h % 10
        }),
{
    lemma_decimal_reads_back(h / 100);
    let text = hundredths_text(h);
    assert(text.take(text.len() - 3) =~= decimal(h / 100));
}

/// The size of a stored object, as a double, is shown in bytes below 1024, and
/// above in the largest of kilobytes, megabytes and gigabytes that it reaches,
/// to the nearest hundredth.
pub proof fn law_object_sizes(size: nat, v: nat)
    requires
        v == nearest_double(size),
    ensures
        v < 0x400 ==> object_size_text(size) == "(Object) "@ + decimal(v) + " B"@,
        0x400 <= v < 0x400 * 0x400 ==> exists|h: nat|
            {
                &&& object_size_text(size) == "(Object) "@ + #[trigger] hundredths_text(h) + " KB"@
                &&& 2 * (v * 100 - h * 0x400) <= 0x400
                &&& 2 * (h * 0x400 - v * 100) <= 0x400
            },
        0x400 * 0x400 <= v < 0x400 * 0x400 * 0x400 ==> exists|h: nat|
            {
                &&& object_size_text(size) == "(Object) "@ + #[trigger] hundredths_text(h) + " MB"@
                &&& 2 * (v * 100 - h * (0x400 * 0x400)) <= 0x400 * 0x400
                &&& 2 * (h * (0x400 * 0x400) - v * 100) <= 0x400 * 0x400
            },
        0x400 * 0x400 * 0x400 <= v ==> exists|h: nat|
            {
                &&& object_size_text(size) == "(Object) "@ + #[trigger] hundredths_text(h) + " GB"@
                &&& 2 * (v * 100 - h * (0x400 * 0x400 * 0x400)) <= 0x400 * 0x400 * 0x400
                &&& 2 * (h * (0x400 * 0x400 * 0x400) - v * 100) <= 0x400 * 0x400 * 0x400
            },
{
    if v >= 0x400 {
        let d: nat = if v < 0x10_0000 {
            0x400
        } else if v < 0x4000_0000 {
            0x10_0000
        } else {
            0x4000_0000
        };
        law_round_half_even(v * 100, d);
        assert(hundredths_text(round_half_even(v * 100, d)).len() >= 0);
    }
}

/// A stored object is shown by its size, which its first eight bytes spell; with
/// fewer bytes it is refused, and further bytes do not matter.
pub proof fn law_object_texts(bytes: Seq<u8>, rest: Seq<u8>)
    ensures
        bytes.len() < 8 ==> object_text(bytes) == Err::<Seq<char>, Seq<char>>(
            "invalid OBJECT value: expected at least 8 bytes, got "@ + decimal(bytes.len()),
        ),
        bytes.len() == 8 ==> object_text(bytes) == Ok::<Seq<char>, Seq<char>>(
            object_size_text(be_nat(bytes)),
        ),
        bytes.len() >= 8 ==> object_text(bytes + rest) == object_text(bytes),
{
    if bytes.len() >= 8 {
        assert((bytes + rest).subrange(0, 8) =~= bytes.subrange(0, 8));
        assert(bytes.subrange(0, 8) == bytes || bytes.len() > 8) by {
            if bytes.len() == 8 {
                assert(bytes.subrange(0, 8) =~= bytes);
            }
        }
    }
}

/// Bytes are listed in decimal, in order, with a comma and a blank between them.
pub proof fn law_byte_lists(bytes: Seq<u8>, byte: u8)
    ensures
        byte_list_text(Seq::empty()).len() == 0,
        bytes.len() == 0 ==> byte_list_text(bytes.push(byte)) == decimal(byte as nat),
        bytes.len() > 0 ==> byte_list_text(bytes.push(byte)) == byte_list_text(bytes) + ", "@
            + decimal(byte as nat),
{
    assert(bytes.push(byte).drop_last() =~= bytes);
}

/// A value is shown by the name of its kind around what it holds.
pub proof fn law_value_texts(v: ValueView)
    ensures
        v matches ValueView::Boolean(b) ==> value_text(v) == "Boolean("@ + bool_text(b) + ")"@,
        v matches ValueView::Int32(x) ==> value_text(v) == "Int32("@ + signed_decimal(x as int)
            + ")"@,
        v matches ValueView::Int64(x) ==> value_text(v) == "Int64("@ + signed_decimal(x as int)
            + ")"@,
        v matches ValueView::Timestamp(x) ==> value_text(v) == "Timestamp("@ + signed_decimal(
            x as int,
        ) + ")"@,
        v matches ValueView::Date(x) ==> value_text(v) == "Date("@ + signed_decimal(x as int)
            + ")"@,
        v matches ValueView::Text(s) ==> value_text(v) == "Text("@ + quoted_text(s) + ")"@,
        v matches ValueView::String(s) ==> value_text(v) == "String("@ + quoted_text(s) + ")"@,
        v matches ValueView::Blob(b) ==> value_text(v) == "Blob(["@ + byte_list_text(b) + "])"@,
        v matches ValueView::Object(b) ==> value_text(v) == "Object(["@ + byte_list_text(b) + "])"@,
        v is Null ==> value_text(v) == "Null"@,
{
}

/// A decimal numeral spells its number, in digits alone; a negative number has
/// a minus sign before it.
pub proof fn law_decimals(n: int)
    ensures
        n >= 0 ==> numeral(decimal(n as nat), 10) == Some(n as nat),
        n >= 0 ==> signed_decimal(n) == decimal(n as nat),
        n < 0 ==> signed_decimal(n) == seq!['-'] + decimal((-n) as nat),
        n >= 0 ==> forall|k: int|
            0 <= k < decimal(n as nat).len() ==> 48 <= (#[trigger] decimal(n as nat)[k]) as u32
                <= 57,
        n >= 10 ==> decimal(n as nat).len() == decimal((n / 10) as nat).len() + 1,
        0 <= n < 10 ==> decimal(n as nat).len() == 1 && decimal(n as nat)[0] == digit(n),
{
    if n >= 0 {
        lemma_decimal_reads_back(n as nat);
    }
}

/// Truth values are shown by their names.
pub proof fn law_bool_texts(b: bool)
    ensures
        bool_text(b) == if b {
            "true"@
        } else {
            "false"@
        },
{
}

} // verus!
