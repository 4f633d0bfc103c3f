//! A dynamically-typed IoTDB cell value.

use vstd::prelude::*;
use vstd::string::*;

use super::{type_code_of, TSDataType};
use crate::error::{Error, ErrorView, Result};
use crate::text::{
    bool_text, decimal, digit, digit_char, push_bool, push_decimal, push_signed_decimal,
    signed_decimal, text_and_number,
};
use crate::wire::{be_nat, read_be};

verus! {

/// A 32-bit IEEE 754 number, held by its bit pattern.
#[derive(Debug, Clone, Copy)]
pub struct Float32 {
    pub bits: u32,
}

/// A 64-bit IEEE 754 number, held by its bit pattern.
#[derive(Debug, Clone, Copy)]
pub struct Float64 {
    pub bits: u64,
}

/// IEEE 754 equality of two 32-bit patterns: NaN equals nothing, and the two
/// zeros are equal.
pub open spec fn float32_eq(a: u32, b: u32) -> bool {
    let x = a % 0x8000_0000;
    let y = b % 0x8000_0000;
    x <= 0x7F80_0000 && y <= 0x7F80_0000 && (a == b || (x == 0 && y == 0))
}

/// IEEE 754 equality of two 64-bit patterns: NaN equals nothing, and the two
/// zeros are equal.
pub open spec fn float64_eq(a: u64, b: u64) -> bool {
    let x = a % 0x8000_0000_0000_0000;
    let y = b % 0x8000_0000_0000_0000;
    x <= 0x7FF0_0000_0000_0000 && y <= 0x7FF0_0000_0000_0000 && (a == b || (x == 0 && y == 0))
}

impl PartialEq for Float32 {
    fn eq(&self, other: &Float32) -> (same: bool) {
        let x: u32 = self.bits % 0x8000_0000;
        let y: u32 = other.bits % 0x8000_0000;
        x <= 0x7F80_0000 && y <= 0x7F80_0000 && (self.bits == other.bits || (x == 0 && y == 0))
    }
}

impl vstd::std_specs::cmp::PartialEqSpecImpl for Float32 {
    open spec fn obeys_eq_spec() -> bool {
        true
    }

    open spec fn eq_spec(&self, other: &Float32) -> bool {
        float32_eq(self.bits, other.bits)
    }
}

impl PartialEq for Float64 {
    fn eq(&self, other: &Float64) -> (same: bool) {
        let x: u64 = self.bits % 0x8000_0000_0000_0000;
        let y: u64 = other.bits % 0x8000_0000_0000_0000;
        x <= 0x7FF0_0000_0000_0000 && y <= 0x7FF0_0000_0000_0000 && (self.bits == other.bits || (x
            == 0 && y == 0))
    }
}

impl vstd::std_specs::cmp::PartialEqSpecImpl for Float64 {
    open spec fn obeys_eq_spec() -> bool {
        true
    }

    open spec fn eq_spec(&self, other: &Float64) -> bool {
        float64_eq(self.bits, other.bits)
    }
}

/// One cell of an IoTDB row: a typed scalar or `Null`.
///
/// `Date` carries an `i32` in `yyyyMMdd` form (e.g. 2026-07-10 →
/// `20260710`), as on the wire. `Timestamp` is epoch milliseconds.
#[derive(Debug, PartialEq)]
pub enum Value {
    Boolean(bool),
    Int32(i32),
    Int64(i64),
    Float(Float32),
    Double(Float64),
    Text(String),
    Timestamp(i64),
    /// Date as i32 `yyyyMMdd` (e.g. `20260710`).
    Date(i32),
    Blob(Vec<u8>),
    String(String),
    /// Table-model OBJECT cell. The bytes are the **already-framed OBJECT
    /// segment**: `[1 byte isEOF][8 byte big-endian offset][content]`
    /// (see `Tablet::build_object_value` / `Tablet::set_object_value_at`).
    Object(Vec<u8>),
    Null,
}

/// A cell value with its text and bytes as sequences.
#[verifier::ext_equal]
pub enum ValueView {
    Boolean(bool),
    Int32(i32),
    Int64(i64),
    Float(u32),
    Double(u64),
    Text(Seq<char>),
    Timestamp(i64),
    Date(i32),
    Blob(Seq<u8>),
    String(Seq<char>),
    Object(Seq<u8>),
    Null,
}

impl View for Value {
    type V = ValueView;

    open spec fn view(&self) -> ValueView {
        match *self {
            Value::Boolean(b) => ValueView::Boolean(b),
            Value::Int32(v) => ValueView::Int32(v),
            Value::Int64(v) => ValueView::Int64(v),
            Value::Float(v) => ValueView::Float(v.bits),
            Value::Double(v) => ValueView::Double(v.bits),
            Value::Text(s) => ValueView::Text(s@),
            Value::Timestamp(v) => ValueView::Timestamp(v),
            Value::Date(v) => ValueView::Date(v),
            Value::Blob(b) => ValueView::Blob(b@),
            Value::String(s) => ValueView::String(s@),
            Value::Object(b) => ValueView::Object(b@),
            Value::Null => ValueView::Null,
        }
    }
}

/// The data type a value carries; `Null` carries none.
pub open spec fn value_type(v: ValueView) -> Option<TSDataType> {
    match v {
        ValueView::Boolean(_) => Some(TSDataType::Boolean),
        ValueView::Int32(_) => Some(TSDataType::Int32),
        ValueView::Int64(_) => Some(TSDataType::Int64),
        ValueView::Float(_) => Some(TSDataType::Float),
        ValueView::Double(_) => Some(TSDataType::Double),
        ValueView::Text(_) => Some(TSDataType::Text),
        ValueView::Timestamp(_) => Some(TSDataType::Timestamp),
        ValueView::Date(_) => Some(TSDataType::Date),
        ValueView::Blob(_) => Some(TSDataType::Blob),
        ValueView::String(_) => Some(TSDataType::String),
        ValueView::Object(_) => Some(TSDataType::Object),
        ValueView::Null => None,
    }
}

/// What std's `Debug` prints for a string: the text in double quotes, with
/// quotes, backslashes and unprintable characters escaped.
pub uninterp spec fn quoted_text(s: Seq<char>) -> Seq<char>;

/// The `Debug` rendering of `str`: quoted and escaped, as `quoted_text` names it.
#[verifier::external_body]
pub(crate) fn quoted(s: &str) -> (q: String)
    ensures
        q@ == quoted_text(s@),
{
    format!("{:?}", s)
}

/// The bytes as a comma-separated list of decimal numbers.
pub open spec fn byte_list_text(bytes: Seq<u8>) -> Seq<char>
    decreases bytes.len(),
{
    if bytes.len() == 0 {
        Seq::empty()
    } else if bytes.len() == 1 {
        decimal(bytes[0] as nat)
    } else {
        byte_list_text(bytes.drop_last()) + ", "@ + decimal(bytes.last() as nat)
    }
}

/// A value as it appears in error messages: the variant's name around its
/// content. Floating-point content appears as its bit pattern.
pub open spec fn value_text(v: ValueView) -> Seq<char> {
    match v {
        ValueView::Boolean(b) => "Boolean("@ + bool_text(b) + ")"@,
        ValueView::Int32(x) => "Int32("@ + signed_decimal(x as int) + ")"@,
        ValueView::Int64(x) => "Int64("@ + signed_decimal(x as int) + ")"@,
        ValueView::Float(x) => "Float(bits "@ + decimal(x as nat) + ")"@,
        ValueView::Double(x) => "Double(bits "@ + decimal(x as nat) + ")"@,
        ValueView::Text(s) => "Text("@ + quoted_text(s) + ")"@,
        ValueView::Timestamp(x) => "Timestamp("@ + signed_decimal(x as int) + ")"@,
        ValueView::Date(x) => "Date("@ + signed_decimal(x as int) + ")"@,
        ValueView::Blob(b) => "Blob(["@ + byte_list_text(b) + "])"@,
        ValueView::String(s) => "String("@ + quoted_text(s) + ")"@,
        ValueView::Object(b) => "Object(["@ + byte_list_text(b) + "])"@,
        ValueView::Null => "Null"@,
    }
}

/// Appends the bytes as a comma-separated list of decimal numbers.
fn push_byte_list(s: &mut String, bytes: &Vec<u8>)
    ensures
        final(s)@ == old(s)@ + byte_list_text(bytes@),
{
    let mut i: usize = 0;
    while i < bytes.len()
        invariant
            i <= bytes@.len(),
            s@ == old(s)@ + byte_list_text(bytes@.subrange(0, i as int)),
        decreases bytes@.len() - i,
    {
        proof {
            assert(bytes@.subrange(0, i + 1).drop_last() =~= bytes@.subrange(0, i as int));
        }
        if i > 0 {
            s.append(", ");
        }
        push_decimal(s, bytes[i] as u64);
        i += 1;
        assert(s@ =~= old(s)@ + byte_list_text(bytes@.subrange(0, i as int)));
    }
    assert(bytes@.subrange(0, i as int) =~= bytes@);
}

fn wrapped_signed(head: &str, x: i64) -> (s: String)
    ensures
        s@ == head@ + signed_decimal(x as int) + ")"@,
{
    let mut s = head.to_owned();
    push_signed_decimal(&mut s, x);
    s.append(")");
    s
}

fn wrapped_number(head: &str, x: u64) -> (s: String)
    ensures
        s@ == head@ + decimal(x as nat) + ")"@,
{
    let mut s = head.to_owned();
    push_decimal(&mut s, x);
    s.append(")");
    s
}

fn wrapped_quoted(head: &str, text: &String) -> (s: String)
    ensures
        s@ == head@ + quoted_text(text@) + ")"@,
{
    let mut s = head.to_owned();
    s.append(quoted(text.as_str()).as_str());
    s.append(")");
    s
}

fn wrapped_bytes(head: &str, bytes: &Vec<u8>) -> (s: String)
    ensures
        s@ == head@ + byte_list_text(bytes@) + "])"@,
{
    let mut s = head.to_owned();
    push_byte_list(&mut s, bytes);
    s.append("])");
    s
}

impl Clone for Value {
    fn clone(&self) -> (copy: Value)
        ensures
            copy@ == self@,
    {
        match self {
            Value::Boolean(b) => Value::Boolean(*b),
            Value::Int32(v) => Value::Int32(*v),
            Value::Int64(v) => Value::Int64(*v),
            Value::Float(v) => Value::Float(*v),
            Value::Double(v) => Value::Double(*v),
            Value::Text(s) => Value::Text(s.clone()),
            Value::Timestamp(v) => Value::Timestamp(*v),
            Value::Date(v) => Value::Date(*v),
            Value::Blob(b) => {
                let copy = b.clone();
                assert(copy@ =~= b@);
                Value::Blob(copy)
            },
            Value::String(s) => Value::String(s.clone()),
            Value::Object(b) => {
                let copy = b.clone();
                assert(copy@ =~= b@);
                Value::Object(copy)
            },
            Value::Null => Value::Null,
        }
    }
}

impl Value {
    /// The [`TSDataType`] this value carries, or `None` for [`Value::Null`].
    pub fn data_type(&self) -> (ty: Option<TSDataType>)
        ensures
            ty == value_type(self@),
    {
        match self {
            Value::Boolean(_) => Some(TSDataType::Boolean),
            Value::Int32(_) => Some(TSDataType::Int32),
            Value::Int64(_) => Some(TSDataType::Int64),
            Value::Float(_) => Some(TSDataType::Float),
            Value::Double(_) => Some(TSDataType::Double),
            Value::Text(_) => Some(TSDataType::Text),
            Value::Timestamp(_) => Some(TSDataType::Timestamp),
            Value::Date(_) => Some(TSDataType::Date),
            Value::Blob(_) => Some(TSDataType::Blob),
            Value::String(_) => Some(TSDataType::String),
            Value::Object(_) => Some(TSDataType::Object),
            Value::Null => None,
        }
    }

    /// The wire type code, or `None` for `Null`.
    pub fn type_code(&self) -> (code: Option<i32>)
        ensures
            match (code, value_type(self@)) {
                (Some(c), Some(ty)) => c == type_code_of(ty),
                (None, None) => true,
                _ => false,
            },
    {
        match self.data_type() {
            Some(ty) => Some(ty.code()),
            None => None,
        }
    }

    /// True iff this is [`Value::Null`].
    pub fn is_null(&self) -> (null: bool)
        ensures
            null == (self@ is Null),
    {
        matches!(self, Value::Null)
    }

    /// The value as it appears in error messages.
    pub fn describe(&self) -> (text: String)
        ensures
            text@ == value_text(self@),
    {
        match self {
            Value::Boolean(b) => {
                let mut s = "Boolean(".to_owned();
                push_bool(&mut s, *b);
                s.append(")");
                s
            },
            Value::Int32(x) => wrapped_signed("Int32(", *x as i64),
            Value::Int64(x) => wrapped_signed("Int64(", *x),
            Value::Float(x) => wrapped_number("Float(bits ", x.bits as u64),
            Value::Double(x) => wrapped_number("Double(bits ", x.bits),
            Value::Text(t) => wrapped_quoted("Text(", t),
            Value::Timestamp(x) => wrapped_signed("Timestamp(", *x),
            Value::Date(x) => wrapped_signed("Date(", *x as i64),
            Value::Blob(b) => wrapped_bytes("Blob([", b),
            Value::String(t) => wrapped_quoted("String(", t),
            Value::Object(b) => wrapped_bytes("Object([", b),
            Value::Null => "Null".to_owned(),
        }
    }
}

/// `n / d` rounded to the nearest integer, ties to the even one.
pub open spec fn round_half_even(n: nat, d: nat) -> nat {
    let q = n / d;
    let r = n % d;
    if 2 * r > d || (2 * r == d && q % 2 == 1) {
        q + 1
    } else {
        q
    }
}

/// The spacing of 64-bit floating-point numbers just above `n`, for integers
/// that may need more than 53 bits.
pub open spec fn double_spacing(n: nat) -> nat
    decreases n,
{
    if n < 0x20_0000_0000_0000 {
        1
    } else {
        2 * double_spacing(n / 2)
    }
}

/// `n` as the nearest 64-bit floating-point number, ties to the even one.
pub open spec fn nearest_double(n: nat) -> nat {
    round_half_even(n, double_spacing(n)) * double_spacing(n)
}

/// A count of hundredths as a decimal number with two places.
pub open spec fn hundredths_text(h: nat) -> Seq<char> {
    decimal(h / 100) + seq!['.', digit((h / 10 % 10) as int), digit((h % 10) as int)]
}

/// A stored object's size for display, in the largest unit that it reaches.
pub open spec fn object_size_text(size: nat) -> Seq<char> {
    let v = nearest_double(size);
    if v < 0x400 {
        "(Object) "@ + decimal(v) + " B"@
    } else if v < 0x10_0000 {
        "(Object) "@ + hundredths_text(round_half_even(v * 100, 0x400)) + " KB"@
    } else if v < 0x4000_0000 {
        "(Object) "@ + hundredths_text(round_half_even(v * 100, 0x10_0000)) + " MB"@
    } else {
        "(Object) "@ + hundredths_text(round_half_even(v * 100, 0x4000_0000)) + " GB"@
    }
}

/// The display text of a stored OBJECT value, or the complaint about it.
pub open spec fn object_text(bytes: Seq<u8>) -> std::result::Result<Seq<char>, Seq<char>> {
    if bytes.len() < 8 {
        Err("invalid OBJECT value: expected at least 8 bytes, got "@ + decimal(bytes.len()))
    } else {
        Ok(object_size_text(be_nat(bytes.subrange(0, 8))))
    }
}

fn rounded_half_even(n: u128, d: u128) -> (q: u128)
    requires
        0 < d <= 0x1_0000_0000_0000_0000,
        n <= 0x100_0000_0000_0000_0000,
    ensures
        q == round_half_even(n as nat, d as nat),
        q <= n / d + 1,
{
    let q: u128 = n / d;
    let r: u128 = n % d;
    proof {
        assert(q <= n) by (nonlinear_arith)
            requires
                q == n / d,
                0 < d,
        ;
        assert(r < d);
    }
    if 2 * r > d || (2 * r == d && q % 2 == 1) {
        q + 1
    } else {
        q
    }
}

fn spacing(n: u64) -> (s: u64)
    ensures
        s == double_spacing(n as nat),
        1 <= s,
        s <= n / 0x10_0000_0000_0000 + 1,
        n >= 0x20_0000_0000_0000 ==> s * 0x10_0000_0000_0000 <= n,
    decreases n,
{
    if n < 0x20_0000_0000_0000 {
        1
    } else {
        let half: u64 = spacing(n / 2);
        2 * half
    }
}

/// `n` as the nearest 64-bit floating-point number.
fn nearest(n: u64) -> (v: u128)
    ensures
        v == nearest_double(n as nat),
        v <= 0x2_0000_0000_0000_0000,
{
    let s: u64 = spacing(n);
    let q: u128 = rounded_half_even(n as u128, s as u128);
    proof {
        let ghost nn = n as int;
        let ghost ss = s as int;
        assert((nn / ss + 1) * ss <= nn + ss) by (nonlinear_arith)
            requires
                ss >= 1,
                nn >= 0,
        ;
        assert(q * ss <= (nn / ss + 1) * ss) by (nonlinear_arith)
            requires
                q <= nn / ss + 1,
                ss >= 1,
        ;
    }
    q * (s as u128)
}

fn push_hundredths(s: &mut String, h: u128)
    requires
        h <= 0x1_0000_0000_0000_0000,
    ensures
        final(s)@ == old(s)@ + hundredths_text(h as nat),
{
    push_decimal(s, (h / 100) as u64);
    s.push('.');
    s.push(digit_char((h / 10 % 10) as u8));
    s.push(digit_char((h % 10) as u8));
    assert(s@ =~= old(s)@ + hundredths_text(h as nat));
}

fn object_size_string(size: u64) -> (text: String)
    ensures
        text@ == object_size_text(size as nat),
{
    let v: u128 = nearest(size);
    let mut text = "(Object) ".to_owned();
    if v < 0x400 {
        push_decimal(&mut text, v as u64);
        text.append(" B");
    } else if v < 0x10_0000 {
        push_hundredths(&mut text, rounded_half_even(v * 100, 0x400));
        text.append(" KB");
    } else if v < 0x4000_0000 {
        push_hundredths(&mut text, rounded_half_even(v * 100, 0x10_0000));
        text.append(" MB");
    } else {
        push_hundredths(&mut text, rounded_half_even(v * 100, 0x4000_0000));
        text.append(" GB");
    }
    text
}

/// Formats the wire representation of a stored OBJECT value for display.
///
/// The server stores OBJECT cells as an 8-byte big-endian file size followed
/// by the internal object path. This renders the size as `(Object) 1023 B` /
/// `(Object) 1.00 KB` / `(Object) 1.00 MB` / `(Object) 1.00 GB`.
pub fn object_bytes_to_string(bytes: &[u8]) -> (text: Result<String>)
    ensures
        match (text, object_text(bytes@)) {
            (Ok(t), Ok(expected)) => t@ == expected,
            (Err(e), Err(message)) => e@ == ErrorView::Decode(message),
            _ => false,
        },
{
    if bytes.len() < 8 {
        return Err(
            Error::Decode(
                text_and_number(
                    "invalid OBJECT value: expected at least 8 bytes, got ",
                    bytes.len() as u64,
                ),
            ),
        );
    }
    let size: u64 = read_be(vstd::slice::slice_subrange(bytes, 0, 8));
    Ok(object_size_string(size))
}

} // verus!
