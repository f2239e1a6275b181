//! The wire type tags of the Bond Compact Binary protocol, the tagged value
//! tree that decoding produces, the decoder's error taxonomy, and the
//! reconstructed 128-bit identifier type.

use vstd::prelude::*;
use vstd::string::StringExecFns;

verus! {

broadcast use vstd::std_specs::vec::axiom_vec_index_decreases, vstd::seq::axiom_seq_index_decreases, vstd::std_specs::vec::axiom_vec_decreases_to_view;

/// One error from the decode taxonomy. Every failure aborts the whole decode.
#[derive(Debug, Clone, Copy, PartialEq, Eq, Structural)]
pub enum MadeleineError {
    /// Fewer bytes were available than a fixed or length-prefixed read needed.
    ReadError,
    /// A five-bit tag value with no defined type mapping.
    TryFromPrimitiveError,
    /// A decoded variable-length integer does not fit its target width.
    TryFromIntError,
    /// The reserved `Unavailable` tag was asked to decode a value.
    UnavailableBondType,
    /// A string payload was not valid UTF-8.
    FromUtf8Error,
    /// A wide string payload was not valid UTF-16.
    FromUtf16Error,
    /// A struct body's measured byte span differed from its declared length:
    /// holds the expected length, then the actual one.
    IncorrectStructLength(u64, u64),
}

/// The closed set of wire type codes. Only the low five bits of a header
/// byte carry a tag, except for the reserved `Unavailable` sentinel.
#[derive(Debug, Clone, Copy, PartialEq, Eq, Structural)]
pub enum BondType {
    Stop,
    StopBase,
    Bool,
    Uint8,
    Uint16,
    Uint32,
    Uint64,
    Float,
    Double,
    String,
    Struct,
    List,
    SetValue,
    MapValue,
    Int8,
    Int16,
    Int32,
    Int64,
    Wstring,
    Unavailable,
}

/// The numeric wire code of each tag.
pub open spec fn tag_code(t: BondType) -> u8 {
    match t {
        BondType::Stop => 0,
        BondType::StopBase => 1,
        BondType::Bool => 2,
        BondType::Uint8 => 3,
        BondType::Uint16 => 4,
        BondType::Uint32 => 5,
        BondType::Uint64 => 6,
        BondType::Float => 7,
        BondType::Double => 8,
        BondType::String => 9,
        BondType::Struct => 10,
        BondType::List => 11,
        BondType::SetValue => 12,
        BondType::MapValue => 13,
        BondType::Int8 => 14,
        BondType::Int16 => 15,
        BondType::Int32 => 16,
        BondType::Int64 => 17,
        BondType::Wstring => 18,
        BondType::Unavailable => 127,
    }
}

/// The tag a numeric code decodes to; codes without a mapping are a hard
/// decode failure.
pub open spec fn spec_tag_from(b: u8) -> Result<BondType, MadeleineError> {
    if b == 0 {
        Ok(BondType::Stop)
    } else if b == 1 {
        Ok(BondType::StopBase)
    } else if b == 2 {
        Ok(BondType::Bool)
    } else if b == 3 {
        Ok(BondType::Uint8)
    } else if b == 4 {
        Ok(BondType::Uint16)
    } else if b == 5 {
        Ok(BondType::Uint32)
    } else if b == 6 {
        Ok(BondType::Uint64)
    } else if b == 7 {
        Ok(BondType::Float)
    } else if b == 8 {
        Ok(BondType::Double)
    } else if b == 9 {
        Ok(BondType::String)
    } else if b == 10 {
        Ok(BondType::Struct)
    } else if b == 11 {
        Ok(BondType::List)
    } else if b == 12 {
        Ok(BondType::SetValue)
    } else if b == 13 {
        Ok(BondType::MapValue)
    } else if b == 14 {
        Ok(BondType::Int8)
    } else if b == 15 {
        Ok(BondType::Int16)
    } else if b == 16 {
        Ok(BondType::Int32)
    } else if b == 17 {
        Ok(BondType::Int64)
    } else if b == 18 {
        Ok(BondType::Wstring)
    } else if b == 127 {
        Ok(BondType::Unavailable)
    } else {
        Err(MadeleineError::TryFromPrimitiveError)
    }
}

impl BondType {
    /// Decodes a numeric wire code to its tag.
    pub fn try_from_u8(b: u8) -> (r: Result<BondType, MadeleineError>)
        ensures
            r == spec_tag_from(b),
    {
        match b {
            0 => Ok(BondType::Stop),
            1 => Ok(BondType::StopBase),
            2 => Ok(BondType::Bool),
            3 => Ok(BondType::Uint8),
            4 => Ok(BondType::Uint16),
            5 => Ok(BondType::Uint32),
            6 => Ok(BondType::Uint64),
            7 => Ok(BondType::Float),
            8 => Ok(BondType::Double),
            9 => Ok(BondType::String),
            10 => Ok(BondType::Struct),
            11 => Ok(BondType::List),
            12 => Ok(BondType::SetValue),
            13 => Ok(BondType::MapValue),
            14 => Ok(BondType::Int8),
            15 => Ok(BondType::Int16),
            16 => Ok(BondType::Int32),
            17 => Ok(BondType::Int64),
            18 => Ok(BondType::Wstring),
            127 => Ok(BondType::Unavailable),
            _ => Err(MadeleineError::TryFromPrimitiveError),
        }
    }
}

/// The hexadecimal digit character for one value in 0..16, upper case.
pub open spec fn hex_char(d: int) -> char {
    if d == 0 {
        '0'
    } else if d == 1 {
        '1'
    } else if d == 2 {
        '2'
    } else if d == 3 {
        '3'
    } else if d == 4 {
        '4'
    } else if d == 5 {
        '5'
    } else if d == 6 {
        '6'
    } else if d == 7 {
        '7'
    } else if d == 8 {
        '8'
    } else if d == 9 {
        '9'
    } else if d == 10 {
        'A'
    } else if d == 11 {
        'B'
    } else if d == 12 {
        'C'
    } else if d == 13 {
        'D'
    } else if d == 14 {
        'E'
    } else {
        'F'
    }
}

/// `v` written as exactly `digits` hexadecimal digits, most significant first.
pub open spec fn hex_seq(v: int, digits: nat) -> Seq<char>
    decreases digits,
{
    if digits == 0 {
        Seq::empty()
    } else {
        hex_seq(v / 16, (digits - 1) as nat) + seq![hex_char(v % 16)]
    }
}

/// The canonical text form of an identifier built from the four parts: the
/// first three rendered as whole numbers, the 64-bit part as its eight
/// little-endian bytes in order, two hex digits each.
pub open spec fn guid_string(d1: u32, d2: u16, d3: u16, d4: u64) -> Seq<char> {
    hex_seq(d1 as int, 8) + seq!['-'] + hex_seq(d2 as int, 4) + seq!['-'] + hex_seq(d3 as int, 4)
        + seq!['-'] + hex_seq((d4 as int) % 256, 2) + hex_seq(((d4 as int) / 256) % 256, 2)
        + seq!['-'] + hex_seq(((d4 as int) / 65536) % 256, 2) + hex_seq(
        ((d4 as int) / 16777216) % 256,
        2,
    ) + hex_seq(((d4 as int) / 4294967296) % 256, 2) + hex_seq(
        ((d4 as int) / 1099511627776) % 256,
        2,
    ) + hex_seq(((d4 as int) / 281474976710656) % 256, 2) + hex_seq(
        ((d4 as int) / 72057594037927936) % 256,
        2,
    )
}

/// A reconstructed 128-bit identifier, kept in its canonical text form.
#[derive(Debug, PartialEq, Eq)]
pub struct Guid(String);

impl View for Guid {
    type V = Seq<char>;

    closed spec fn view(&self) -> Seq<char> {
        self.0@
    }
}

/// The one-character string for a hexadecimal digit, upper case.
fn hex_digit_str(d: u8) -> (r: &'static str)
    requires
        d < 16,
    ensures
        r@ == seq![hex_char(d as int)],
{
    proof {
        reveal_strlit("0");
        reveal_strlit("1");
        reveal_strlit("2");
        reveal_strlit("3");
        reveal_strlit("4");
        reveal_strlit("5");
        reveal_strlit("6");
        reveal_strlit("7");
        reveal_strlit("8");
        reveal_strlit("9");
        reveal_strlit("A");
        reveal_strlit("B");
        reveal_strlit("C");
        reveal_strlit("D");
        reveal_strlit("E");
        reveal_strlit("F");
    }
    let r: &'static str = match d {
        0 => "0",
        1 => "1",
        2 => "2",
        3 => "3",
        4 => "4",
        5 => "5",
        6 => "6",
        7 => "7",
        8 => "8",
        9 => "9",
        10 => "A",
        11 => "B",
        12 => "C",
        13 => "D",
        14 => "E",
        _ => "F",
    };
    proof {
        assert(r@ =~= seq![hex_char(d as int)]);
    }
    r
}

/// Appends `v` to `out` as exactly `digits` hexadecimal digits, most
/// significant first.
fn append_hex(out: &mut String, v: u64, digits: u8)
    ensures
        final(out)@ == old(out)@ + hex_seq(v as int, digits as nat),
    decreases digits,
{
    if digits == 0 {
        proof {
            assert(out@ =~= old(out)@ + hex_seq(v as int, 0));
        }
    } else {
        append_hex(out, v / 16, digits - 1);
        out.append(hex_digit_str((v % 16) as u8));
        proof {
            assert(out@ =~= old(out)@ + hex_seq(v as int, digits as nat));
        }
    }
}

impl Guid {
    /// Builds the identifier from the four adjacent primitive fields that
    /// the reconstruction heuristic matched.
    pub fn from_parts(data1: u32, data2: u16, data3: u16, data4: u64) -> (r: Guid)
        ensures
            r@ == guid_string(data1, data2, data3, data4),
    {
        proof {
            reveal_strlit("-");
        }
        let mut s = String::new();
        append_hex(&mut s, data1 as u64, 8);
        s.append("-");
        append_hex(&mut s, data2 as u64, 4);
        s.append("-");
        append_hex(&mut s, data3 as u64, 4);
        s.append("-");
        append_hex(&mut s, data4 % 256, 2);
        append_hex(&mut s, (data4 / 256) % 256, 2);
        s.append("-");
        append_hex(&mut s, (data4 / 65536) % 256, 2);
        append_hex(&mut s, (data4 / 16777216) % 256, 2);
        append_hex(&mut s, (data4 / 4294967296) % 256, 2);
        append_hex(&mut s, (data4 / 1099511627776) % 256, 2);
        append_hex(&mut s, (data4 / 281474976710656) % 256, 2);
        append_hex(&mut s, (data4 / 72057594037927936) % 256, 2);
        proof {
            assert(("-")@ =~= seq!['-']);
            assert(s@ =~= guid_string(data1, data2, data3, data4));
        }
        Guid(s)
    }

    /// The canonical text of the identifier.
    pub fn as_str(&self) -> (r: &str)
        ensures
            r@ == self@,
    {
        self.0.as_str()
    }
}

/// One decoded unit: a scalar, a string, a container, or a struct level.
/// `Stop` and `StopBase` are control markers consumed during struct
/// decoding; they never appear inside a returned container or struct.
/// Float-typed payloads keep their raw IEEE-754 bit patterns.
#[derive(Debug, PartialEq)]
pub enum BondValue {
    Guid(Guid),
    Bool(bool),
    Uint8(u8),
    Uint16(u16),
    Uint32(u32),
    Uint64(u64),
    Float(u32),
    Double(u64),
    Stop,
    StopBase,
    List(Vec<BondValue>),
    SetValue(Vec<BondValue>),
    MapValue(Vec<(BondValue, BondValue)>),
    String(String),
    Wstring(String),
    Int8(i8),
    Int16(i16),
    Int32(i32),
    Int64(i64),
    Struct { base: Option<Box<BondValue>>, fields: Vec<BondValue> },
}

/// The mathematical shape of a decoded value: strings as character
/// sequences, containers as sequences of models.
#[verifier::ext_equal]
pub enum ValueModel {
    Guid(Seq<char>),
    Bool(bool),
    Uint8(u8),
    Uint16(u16),
    Uint32(u32),
    Uint64(u64),
    Float(u32),
    Double(u64),
    Stop,
    StopBase,
    List(Seq<ValueModel>),
    SetValue(Seq<ValueModel>),
    MapValue(Seq<(ValueModel, ValueModel)>),
    String(Seq<char>),
    Wstring(Seq<char>),
    Int8(i8),
    Int16(i16),
    Int32(i32),
    Int64(i64),
    Struct { base: Option<Box<ValueModel>>, fields: Seq<ValueModel> },
}

/// The model of one decoded value.
pub open spec fn value_model(v: BondValue) -> ValueModel
    decreases v,
{
    match v {
        BondValue::Guid(g) => ValueModel::Guid(g@),
        BondValue::Bool(b) => ValueModel::Bool(b),
        BondValue::Uint8(x) => ValueModel::Uint8(x),
        BondValue::Uint16(x) => ValueModel::Uint16(x),
        BondValue::Uint32(x) => ValueModel::Uint32(x),
        BondValue::Uint64(x) => ValueModel::Uint64(x),
        BondValue::Float(x) => ValueModel::Float(x),
        BondValue::Double(x) => ValueModel::Double(x),
        BondValue::Stop => ValueModel::Stop,
        BondValue::StopBase => ValueModel::StopBase,
        BondValue::List(es) => ValueModel::List(seq_models(es@)),
        BondValue::SetValue(es) => ValueModel::SetValue(seq_models(es@)),
        BondValue::MapValue(ps) => ValueModel::MapValue(pair_models(ps@)),
        BondValue::String(st) => ValueModel::String(st@),
        BondValue::Wstring(st) => ValueModel::Wstring(st@),
        BondValue::Int8(x) => ValueModel::Int8(x),
        BondValue::Int16(x) => ValueModel::Int16(x),
        BondValue::Int32(x) => ValueModel::Int32(x),
        BondValue::Int64(x) => ValueModel::Int64(x),
        BondValue::Struct { base, fields } => ValueModel::Struct {
            base: (match base {
                Option::Some(b) => Option::Some(Box::new(value_model(*b))),
                Option::None => Option::None,
            }),
            fields: seq_models(fields@),
        },
    }
}

/// The models of a sequence of decoded values, in order.
pub open spec fn seq_models(s: Seq<BondValue>) -> Seq<ValueModel>
    decreases s,
{
    Seq::new(
        s.len(),
        |i: int|
            if 0 <= i < s.len() {
                value_model(s[i])
            } else {
                ValueModel::Stop
            },
    )
}

/// The models of a sequence of decoded key-value pairs, in order.
pub open spec fn pair_models(s: Seq<(BondValue, BondValue)>) -> Seq<(ValueModel, ValueModel)>
    decreases s,
{
    Seq::new(
        s.len(),
        |i: int|
            if 0 <= i < s.len() {
                (value_model(s[i].0), value_model(s[i].1))
            } else {
                (ValueModel::Stop, ValueModel::Stop)
            },
    )
}

impl BondValue {
    /// Wraps a base level and a field list as one struct value.
    pub fn new_struct(base: Option<Box<BondValue>>, fields: Vec<BondValue>) -> (r: Self)
        ensures
            r == (BondValue::Struct { base, fields }),
    {
        Self::Struct { base, fields }
    }

    /// The field list of a struct value, and nothing for any other variant.
    pub fn fields(&self) -> (r: Option<&[BondValue]>)
        ensures
            (match self {
                BondValue::Struct { fields, .. } => r matches Some(s) && s@ == fields@,
                _ => r is None,
            }),
    {
        if let Self::Struct { fields, .. } = self {
            Some(fields.as_slice())
        } else {
            None
        }
    }

    /// The base level of a struct value, when it has one.
    pub fn base(&self) -> (r: Option<&BondValue>)
        ensures
            (match self {
                BondValue::Struct { base: Some(b), .. } => r matches Some(v) && v == &**b,
                _ => r is None,
            }),
    {
        if let Self::Struct { base: Some(b), .. } = self {
            Some(&**b)
        } else {
            None
        }
    }
}

} // verus!
