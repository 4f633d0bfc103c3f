//! Data structures: TSDataType codes, Value, Tablet, TsBlock, bitmap helpers.
//! Data-type codes are those of TSFile (0–12).

use vstd::prelude::*;

pub mod bitmap;
pub mod block_format;
pub mod block_laws;
pub mod decode_laws;
pub mod insert_format;
pub mod placed;
pub mod record;
pub mod tablet;
pub mod tablet_laws;
pub mod tsblock;
pub mod value;
pub mod value_laws;

pub use tablet::Tablet;
pub use tsblock::TsBlock;
pub use value::{object_bytes_to_string, Float32, Float64, Value};

verus! {

/// Official TSFile data type codes.
#[derive(Debug, Clone, Copy, PartialEq, Eq, Structural)]
pub enum TSDataType {
    Boolean,
    Int32,
    Int64,
    Float,
    Double,
    Text,
    Vector,
    Unknown,
    Timestamp,
    Date,
    Blob,
    String,
    /// Table-model OBJECT (IoTDB 2.0.8+). Cells carry the already-framed
    /// segment bytes: `[1 byte isEOF][8 byte big-endian offset][content]`
    /// (see `Tablet::build_object_value` / `Tablet::set_object_value_at`).
    Object,
}

/// The wire code of a data type.
pub open spec fn type_code_of(ty: TSDataType) -> int {
    match ty {
        TSDataType::Boolean => 0,
        TSDataType::Int32 => 1,
        TSDataType::Int64 => 2,
        TSDataType::Float => 3,
        TSDataType::Double => 4,
        TSDataType::Text => 5,
        TSDataType::Vector => 6,
        TSDataType::Unknown => 7,
        TSDataType::Timestamp => 8,
        TSDataType::Date => 9,
        TSDataType::Blob => 10,
        TSDataType::String => 11,
        TSDataType::Object => 12,
    }
}

/// The data type with the given wire code, if there is one.
pub open spec fn type_of_code(code: int) -> Option<TSDataType> {
    if exists|ty: TSDataType| type_code_of(ty) == code {
        Some(choose|ty: TSDataType| type_code_of(ty) == code)
    } else {
        None
    }
}

/// The name of a data type as it appears in messages.
pub open spec fn data_type_name(ty: TSDataType) -> Seq<char> {
    match ty {
        TSDataType::Boolean => "Boolean"@,
        TSDataType::Int32 => "Int32"@,
        TSDataType::Int64 => "Int64"@,
        TSDataType::Float => "Float"@,
        TSDataType::Double => "Double"@,
        TSDataType::Text => "Text"@,
        TSDataType::Vector => "Vector"@,
        TSDataType::Unknown => "Unknown"@,
        TSDataType::Timestamp => "Timestamp"@,
        TSDataType::Date => "Date"@,
        TSDataType::Blob => "Blob"@,
        TSDataType::String => "String"@,
        TSDataType::Object => "Object"@,
    }
}

impl TSDataType {
    /// The wire code as sent in insert `types` lists (i32) and TsBlock
    /// headers (1 byte).
    pub fn code(self) -> (code: i32)
        ensures
            code == type_code_of(self),
            0 <= code <= 12,
    {
        match self {
            TSDataType::Boolean => 0,
            TSDataType::Int32 => 1,
            TSDataType::Int64 => 2,
            TSDataType::Float => 3,
            TSDataType::Double => 4,
            TSDataType::Text => 5,
            TSDataType::Vector => 6,
            TSDataType::Unknown => 7,
            TSDataType::Timestamp => 8,
            TSDataType::Date => 9,
            TSDataType::Blob => 10,
            TSDataType::String => 11,
            TSDataType::Object => 12,
        }
    }

    /// Parses a 1-byte type code as found in TsBlock headers.
    pub fn from_code(code: u8) -> (ty: Option<TSDataType>)
        ensures
            ty == type_of_code(code as int),
            ty is None <==> code > 12,
            ty matches Some(t) ==> type_code_of(t) == code,
    {
        let ty = match code {
            0 => Some(TSDataType::Boolean),
            1 => Some(TSDataType::Int32),
            2 => Some(TSDataType::Int64),
            3 => Some(TSDataType::Float),
            4 => Some(TSDataType::Double),
            5 => Some(TSDataType::Text),
            6 => Some(TSDataType::Vector),
            7 => Some(TSDataType::Unknown),
            8 => Some(TSDataType::Timestamp),
            9 => Some(TSDataType::Date),
            10 => Some(TSDataType::Blob),
            11 => Some(TSDataType::String),
            12 => Some(TSDataType::Object),
            _ => None,
        };
        proof {
            if code <= 12 {
                law_type_of_code_inverts_code(ty->0);
            }
        }
        ty
    }

    /// The name of the data type.
    pub fn name(self) -> (name: &'static str)
        ensures
            name@ == data_type_name(self),
    {
        match self {
            TSDataType::Boolean => "Boolean",
            TSDataType::Int32 => "Int32",
            TSDataType::Int64 => "Int64",
            TSDataType::Float => "Float",
            TSDataType::Double => "Double",
            TSDataType::Text => "Text",
            TSDataType::Vector => "Vector",
            TSDataType::Unknown => "Unknown",
            TSDataType::Timestamp => "Timestamp",
            TSDataType::Date => "Date",
            TSDataType::Blob => "Blob",
            TSDataType::String => "String",
            TSDataType::Object => "Object",
        }
    }
}

/// Parsing the code of a data type gives the data type back: no two types
/// share a code.
pub proof fn law_type_of_code_inverts_code(ty: TSDataType)
    ensures
        type_of_code(type_code_of(ty)) == Some(ty),
{
    let chosen = choose|t: TSDataType| type_code_of(t) == type_code_of(ty);
    assert(type_code_of(ty) == type_code_of(ty));
    assert(chosen == ty);
}

/// The codes that parse are exactly 0 to 12, and each parses to the type that
/// carries it.
pub proof fn law_code_inverts_type_of_code(code: int)
    ensures
        type_of_code(code) is Some <==> 0 <= code <= 12,
        type_of_code(code) matches Some(ty) ==> type_code_of(ty) == code,
{
    if 0 <= code <= 12 {
        let ty = if code == 0 {
            TSDataType::Boolean
        } else if code == 1 {
            TSDataType::Int32
        } else if code == 2 {
            TSDataType::Int64
        } else if code == 3 {
            TSDataType::Float
        } else if code == 4 {
            TSDataType::Double
        } else if code == 5 {
            TSDataType::Text
        } else if code == 6 {
            TSDataType::Vector
        } else if code == 7 {
            TSDataType::Unknown
        } else if code == 8 {
            TSDataType::Timestamp
        } else if code == 9 {
            TSDataType::Date
        } else if code == 10 {
            TSDataType::Blob
        } else if code == 11 {
            TSDataType::String
        } else {
            TSDataType::Object
        };
        assert(type_code_of(ty) == code);
        law_type_of_code_inverts_code(ty);
    }
}

/// Table-model column category, sent as a signed byte in
/// `TSInsertTabletReq.columnCategories`.
///
/// The server also knows an internal `TIME = 3` category, but it is never
/// sent on the wire — the tablet's timestamps travel in the separate
/// `timestamps` buffer.
#[derive(Debug, Clone, Copy, PartialEq, Eq, Structural)]
pub enum ColumnCategory {
    Tag,
    Field,
    Attribute,
}

/// The wire code of a column category.
pub open spec fn category_code_of(category: ColumnCategory) -> int {
    match category {
        ColumnCategory::Tag => 0,
        ColumnCategory::Field => 1,
        ColumnCategory::Attribute => 2,
    }
}

impl ColumnCategory {
    /// The wire code as sent in `columnCategories` (signed byte).
    pub fn code(self) -> (code: i8)
        ensures
            code == category_code_of(self),
            0 <= code <= 2,
    {
        match self {
            ColumnCategory::Tag => 0,
            ColumnCategory::Field => 1,
            ColumnCategory::Attribute => 2,
        }
    }
}

} // verus!
