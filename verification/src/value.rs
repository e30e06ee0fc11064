//! The closed set of storable value kinds, the tag strings that select
//! them, and the canonical parse and format function of each kind.

use vstd::prelude::*;
use crate::numtext::{parse_int_in, parse_uint_in, int_literal_val, dec_int, dec_nat};
use crate::numtext::{parse_signed, parse_unsigned, i128_to_string, u128_to_string};
use crate::bignum::{big_literal_ok, big_literal_val, big_canonicalize};
use crate::strutil::{str_eq, char_to_string};

verus! {

/// One storage kind per supported type tag; unrecognized tags fall back to
/// the opaque byte-sequence kind.
#[derive(Clone, Copy, Debug, PartialEq, Eq, Structural)]
pub enum Kind {
    I8,
    I16,
    I32,
    I64,
    I128,
    Isize,
    U8,
    U16,
    U32,
    U64,
    U128,
    Usize,
    F32,
    F64,
    Bool,
    Char,
    Str,
    Big,
    Bytes,
}

/// A stored value: the tagged union owned by a record.  Floating-point
/// values are carried as their IEEE-754 bit patterns; an
/// arbitrary-precision integer is carried as its canonical decimal text.
#[derive(Debug)]
pub enum Value {
    I8(i8),
    I16(i16),
    I32(i32),
    I64(i64),
    I128(i128),
    Isize(isize),
    U8(u8),
    U16(u16),
    U32(u32),
    U64(u64),
    U128(u128),
    Usize(usize),
    F32Bits(u32),
    F64Bits(u64),
    Bool(bool),
    Char(char),
    Str(String),
    Big(String),
    Bytes(Vec<u8>),
}

/// The kind a value belongs to.
pub open spec fn value_kind(v: Value) -> Kind {
    match v {
        Value::I8(_) => Kind::I8,
        Value::I16(_) => Kind::I16,
        Value::I32(_) => Kind::I32,
        Value::I64(_) => Kind::I64,
        Value::I128(_) => Kind::I128,
        Value::Isize(_) => Kind::Isize,
        Value::U8(_) => Kind::U8,
        Value::U16(_) => Kind::U16,
        Value::U32(_) => Kind::U32,
        Value::U64(_) => Kind::U64,
        Value::U128(_) => Kind::U128,
        Value::Usize(_) => Kind::Usize,
        Value::F32Bits(_) => Kind::F32,
        Value::F64Bits(_) => Kind::F64,
        Value::Bool(_) => Kind::Bool,
        Value::Char(_) => Kind::Char,
        Value::Str(_) => Kind::Str,
        Value::Big(_) => Kind::Big,
        Value::Bytes(_) => Kind::Bytes,
    }
}

impl Value {
    /// The kind this value belongs to.
    pub fn kind(&self) -> (k: Kind)
        ensures
            k == value_kind(*self),
    {
        match self {
            Value::I8(_) => Kind::I8,
            Value::I16(_) => Kind::I16,
            Value::I32(_) => Kind::I32,
            Value::I64(_) => Kind::I64,
            Value::I128(_) => Kind::I128,
            Value::Isize(_) => Kind::Isize,
            Value::U8(_) => Kind::U8,
            Value::U16(_) => Kind::U16,
            Value::U32(_) => Kind::U32,
            Value::U64(_) => Kind::U64,
            Value::U128(_) => Kind::U128,
            Value::Usize(_) => Kind::Usize,
            Value::F32Bits(_) => Kind::F32,
            Value::F64Bits(_) => Kind::F64,
            Value::Bool(_) => Kind::Bool,
            Value::Char(_) => Kind::Char,
            Value::Str(_) => Kind::Str,
            Value::Big(_) => Kind::Big,
            Value::Bytes(_) => Kind::Bytes,
        }
    }
}

/// The kind a type tag names; anything unrecognized selects `Bytes`.
pub open spec fn spec_tag_kind(tag: Seq<char>) -> Kind {
    if tag == "i8"@ {
        Kind::I8
    } else if tag == "i16"@ {
        Kind::I16
    } else if tag == "i32"@ {
        Kind::I32
    } else if tag == "i64"@ {
        Kind::I64
    } else if tag == "i128"@ {
        Kind::I128
    } else if tag == "isize"@ {
        Kind::Isize
    } else if tag == "u8"@ {
        Kind::U8
    } else if tag == "u16"@ {
        Kind::U16
    } else if tag == "u32"@ {
        Kind::U32
    } else if tag == "u64"@ {
        Kind::U64
    } else if tag == "u128"@ {
        Kind::U128
    } else if tag == "usize"@ {
        Kind::Usize
    } else if tag == "f32"@ {
        Kind::F32
    } else if tag == "f64"@ {
        Kind::F64
    } else if tag == "bool"@ {
        Kind::Bool
    } else if tag == "char"@ {
        Kind::Char
    } else if tag == "String"@ {
        Kind::Str
    } else if tag == "BigInt"@ {
        Kind::Big
    } else {
        Kind::Bytes
    }
}

/// Resolves a type tag to its kind.
pub fn tag_kind(tag: &str) -> (k: Kind)
    ensures
        k == spec_tag_kind(tag@),
{
    if str_eq(tag, "i8") {
        Kind::I8
    } else if str_eq(tag, "i16") {
        Kind::I16
    } else if str_eq(tag, "i32") {
        Kind::I32
    } else if str_eq(tag, "i64") {
        Kind::I64
    } else if str_eq(tag, "i128") {
        Kind::I128
    } else if str_eq(tag, "isize") {
        Kind::Isize
    } else if str_eq(tag, "u8") {
        Kind::U8
    } else if str_eq(tag, "u16") {
        Kind::U16
    } else if str_eq(tag, "u32") {
        Kind::U32
    } else if str_eq(tag, "u64") {
        Kind::U64
    } else if str_eq(tag, "u128") {
        Kind::U128
    } else if str_eq(tag, "usize") {
        Kind::Usize
    } else if str_eq(tag, "f32") {
        Kind::F32
    } else if str_eq(tag, "f64") {
        Kind::F64
    } else if str_eq(tag, "bool") {
        Kind::Bool
    } else if str_eq(tag, "char") {
        Kind::Char
    } else if str_eq(tag, "String") {
        Kind::Str
    } else if str_eq(tag, "BigInt") {
        Kind::Big
    } else {
        Kind::Bytes
    }
}

/// The name a kind is reported under, as the `TYPE` command and the
/// acknowledgment messages show it.
pub open spec fn spec_kind_name(k: Kind) -> Seq<char> {
    match k {
        Kind::I8 => "i8"@,
        Kind::I16 => "i16"@,
        Kind::I32 => "i32"@,
        Kind::I64 => "i64"@,
        Kind::I128 => "i128"@,
        Kind::Isize => "isize"@,
        Kind::U8 => "u8"@,
        Kind::U16 => "u16"@,
        Kind::U32 => "u32"@,
        Kind::U64 => "u64"@,
        Kind::U128 => "u128"@,
        Kind::Usize => "usize"@,
        Kind::F32 => "f32"@,
        Kind::F64 => "f64"@,
        Kind::Bool => "bool"@,
        Kind::Char => "char"@,
        Kind::Str => "String"@,
        Kind::Big => "BigInt"@,
        Kind::Bytes => "Vec<u8>"@,
    }
}

/// The name a kind is reported under.
pub fn kind_name(k: Kind) -> (r: &'static str)
    ensures
        r@ == spec_kind_name(k),
{
    match k {
        Kind::I8 => "i8",
        Kind::I16 => "i16",
        Kind::I32 => "i32",
        Kind::I64 => "i64",
        Kind::I128 => "i128",
        Kind::Isize => "isize",
        Kind::U8 => "u8",
        Kind::U16 => "u16",
        Kind::U32 => "u32",
        Kind::U64 => "u64",
        Kind::U128 => "u128",
        Kind::Usize => "usize",
        Kind::F32 => "f32",
        Kind::F64 => "f64",
        Kind::Bool => "bool",
        Kind::Char => "char",
        Kind::Str => "String",
        Kind::Big => "BigInt",
        Kind::Bytes => "Vec<u8>",
    }
}

/// Whether the canonical parser of `kind` accepts the text `text` (for the
/// byte kind: any input).  Floating-point kinds are parsed outside the
/// library and accept nothing here.
pub open spec fn parse_ok(kind: Kind, text: Seq<char>) -> bool {
    match kind {
        Kind::I8 => parse_int_in(text, i8::MIN as int, i8::MAX as int) is Some,
        Kind::I16 => parse_int_in(text, i16::MIN as int, i16::MAX as int) is Some,
        Kind::I32 => parse_int_in(text, i32::MIN as int, i32::MAX as int) is Some,
        Kind::I64 => parse_int_in(text, i64::MIN as int, i64::MAX as int) is Some,
        Kind::I128 => parse_int_in(text, i128::MIN as int, i128::MAX as int) is Some,
        Kind::Isize => parse_int_in(text, isize::MIN as int, isize::MAX as int) is Some,
        Kind::U8 => parse_uint_in(text, u8::MAX as int) is Some,
        Kind::U16 => parse_uint_in(text, u16::MAX as int) is Some,
        Kind::U32 => parse_uint_in(text, u32::MAX as int) is Some,
        Kind::U64 => parse_uint_in(text, u64::MAX as int) is Some,
        Kind::U128 => parse_uint_in(text, u128::MAX as int) is Some,
        Kind::Usize => parse_uint_in(text, usize::MAX as int) is Some,
        Kind::F32 => false,
        Kind::F64 => false,
        Kind::Bool => text == "true"@ || text == "false"@,
        Kind::Char => text.len() == 1,
        Kind::Str => true,
        Kind::Big => big_literal_ok(text),
        Kind::Bytes => true,
    }
}

/// `v` is the value that parsing `text` (for the byte kind: the raw bytes
/// `raw`) under `kind` yields.  Only meaningful where `parse_ok` holds.
pub open spec fn is_parsed_value(kind: Kind, text: Seq<char>, raw: Seq<u8>, v: Value) -> bool {
    match kind {
        Kind::I8 => v == Value::I8(int_literal_val(text) as i8),
        Kind::I16 => v == Value::I16(int_literal_val(text) as i16),
        Kind::I32 => v == Value::I32(int_literal_val(text) as i32),
        Kind::I64 => v == Value::I64(int_literal_val(text) as i64),
        Kind::I128 => v == Value::I128(int_literal_val(text) as i128),
        Kind::Isize => v == Value::Isize(int_literal_val(text) as isize),
        Kind::U8 => v == Value::U8(int_literal_val(text) as u8),
        Kind::U16 => v == Value::U16(int_literal_val(text) as u16),
        Kind::U32 => v == Value::U32(int_literal_val(text) as u32),
        Kind::U64 => v == Value::U64(int_literal_val(text) as u64),
        Kind::U128 => v == Value::U128(int_literal_val(text) as u128),
        Kind::Usize => v == Value::Usize(int_literal_val(text) as usize),
        Kind::F32 => false,
        Kind::F64 => false,
        Kind::Bool => v == Value::Bool(text == "true"@),
        Kind::Char => text.len() == 1 && v == Value::Char(text[0]),
        Kind::Str => v matches Value::Str(s) && s@ == text,
        Kind::Big => v matches Value::Big(s) && s@ == dec_int(big_literal_val(text)),
        Kind::Bytes => v matches Value::Bytes(b) && b@ == raw,
    }
}

/// Parses `text` (the lossily decoded form of the raw bytes `raw`) as a
/// value of `kind`: the parsed value exactly when the kind's canonical
/// parser accepts the text, nothing otherwise.
pub fn parse_value(kind: Kind, text: &str, raw: &Vec<u8>) -> (r: Option<Value>)
    requires
        kind != Kind::F32 && kind != Kind::F64,
    ensures
        r is Some <==> parse_ok(kind, text@),
        r matches Some(v) ==> is_parsed_value(kind, text@, raw@, v),
{
    match kind {
        Kind::I8 => match parse_signed(text, i8::MIN as i128, i8::MAX as i128) {
            Some(v) => Some(Value::I8(v as i8)),
            None => None,
        },
        Kind::I16 => match parse_signed(text, i16::MIN as i128, i16::MAX as i128) {
            Some(v) => Some(Value::I16(v as i16)),
            None => None,
        },
        Kind::I32 => match parse_signed(text, i32::MIN as i128, i32::MAX as i128) {
            Some(v) => Some(Value::I32(v as i32)),
            None => None,
        },
        Kind::I64 => match parse_signed(text, i64::MIN as i128, i64::MAX as i128) {
            Some(v) => Some(Value::I64(v as i64)),
            None => None,
        },
        Kind::I128 => match parse_signed(text, i128::MIN, i128::MAX) {
            Some(v) => Some(Value::I128(v)),
            None => None,
        },
        Kind::Isize => match parse_signed(text, isize::MIN as i128, isize::MAX as i128) {
            Some(v) => Some(Value::Isize(v as isize)),
            None => None,
        },
        Kind::U8 => match parse_unsigned(text, u8::MAX as u128) {
            Some(v) => Some(Value::U8(v as u8)),
            None => None,
        },
        Kind::U16 => match parse_unsigned(text, u16::MAX as u128) {
            Some(v) => Some(Value::U16(v as u16)),
            None => None,
        },
        Kind::U32 => match parse_unsigned(text, u32::MAX as u128) {
            Some(v) => Some(Value::U32(v as u32)),
            None => None,
        },
        Kind::U64 => match parse_unsigned(text, u64::MAX as u128) {
            Some(v) => Some(Value::U64(v as u64)),
            None => None,
        },
        Kind::U128 => match parse_unsigned(text, u128::MAX) {
            Some(v) => Some(Value::U128(v)),
            None => None,
        },
        Kind::Usize => match parse_unsigned(text, usize::MAX as u128) {
            Some(v) => Some(Value::Usize(v as usize)),
            None => None,
        },
        Kind::F32 => None,
        Kind::F64 => None,
        Kind::Bool => {
            if str_eq(text, "true") {
                Some(Value::Bool(true))
            } else if str_eq(text, "false") {
                Some(Value::Bool(false))
            } else {
                None
            }
        },
        Kind::Char => {
            if text.unicode_len() == 1 {
                Some(Value::Char(text.get_char(0)))
            } else {
                None
            }
        },
        Kind::Str => Some(Value::Str(text.to_owned())),
        Kind::Big => match big_canonicalize(text) {
            Some(t) => Some(Value::Big(t)),
            None => None,
        },
        Kind::Bytes => {
            let b = raw.clone();
            proof {
                assert(b@ =~= raw@);
            }
            Some(Value::Bytes(b))
        },
    }
}

/// A kind whose values are rendered as text by `GET`; byte values are sent
/// verbatim and floating-point values are rendered outside the library.
pub open spec fn is_text_kind(k: Kind) -> bool {
    !(k == Kind::Bytes || k == Kind::F32 || k == Kind::F64)
}

/// The canonical text rendering of a text-kind value.
pub open spec fn format_text(v: Value) -> Seq<char> {
    match v {
        Value::I8(x) => dec_int(x as int),
        Value::I16(x) => dec_int(x as int),
        Value::I32(x) => dec_int(x as int),
        Value::I64(x) => dec_int(x as int),
        Value::I128(x) => dec_int(x as int),
        Value::Isize(x) => dec_int(x as int),
        Value::U8(x) => dec_nat(x as nat),
        Value::U16(x) => dec_nat(x as nat),
        Value::U32(x) => dec_nat(x as nat),
        Value::U64(x) => dec_nat(x as nat),
        Value::U128(x) => dec_nat(x as nat),
        Value::Usize(x) => dec_nat(x as nat),
        Value::Bool(b) => if b {
            "true"@
        } else {
            "false"@
        },
        Value::Char(c) => seq![c],
        Value::Str(s) => s@,
        Value::Big(s) => s@,
        Value::F32Bits(_) => Seq::empty(),
        Value::F64Bits(_) => Seq::empty(),
        Value::Bytes(_) => Seq::empty(),
    }
}

/// Renders a value of a text kind; byte and floating-point values yield
/// nothing here.
pub fn format_value(v: &Value) -> (r: Option<String>)
    ensures
        r is Some <==> is_text_kind(value_kind(*v)),
        r matches Some(s) ==> s@ == format_text(*v),
{
    match v {
        Value::I8(x) => Some(i128_to_string(*x as i128)),
        Value::I16(x) => Some(i128_to_string(*x as i128)),
        Value::I32(x) => Some(i128_to_string(*x as i128)),
        Value::I64(x) => Some(i128_to_string(*x as i128)),
        Value::I128(x) => Some(i128_to_string(*x)),
        Value::Isize(x) => Some(i128_to_string(*x as i128)),
        Value::U8(x) => Some(u128_to_string(*x as u128)),
        Value::U16(x) => Some(u128_to_string(*x as u128)),
        Value::U32(x) => Some(u128_to_string(*x as u128)),
        Value::U64(x) => Some(u128_to_string(*x as u128)),
        Value::U128(x) => Some(u128_to_string(*x)),
        Value::Usize(x) => Some(u128_to_string(*x as u128)),
        Value::Bool(b) => {
            if *b {
                Some(String::from_str("true"))
            } else {
                Some(String::from_str("false"))
            }
        },
        Value::Char(c) => Some(char_to_string(*c)),
        Value::Str(s) => Some(s.clone()),
        Value::Big(s) => Some(s.clone()),
        Value::F32Bits(_) => None,
        Value::F64Bits(_) => None,
        Value::Bytes(_) => None,
    }
}


/// A machine integer kind.
pub open spec fn is_int_kind(k: Kind) -> bool {
    match k {
        Kind::I8 | Kind::I16 | Kind::I32 | Kind::I64 | Kind::I128 | Kind::Isize => true,
        Kind::U8 | Kind::U16 | Kind::U32 | Kind::U64 | Kind::U128 | Kind::Usize => true,
        _ => false,
    }
}

/// A signed machine integer kind.
pub open spec fn is_signed_kind(k: Kind) -> bool {
    match k {
        Kind::I8 | Kind::I16 | Kind::I32 | Kind::I64 | Kind::I128 | Kind::Isize => true,
        _ => false,
    }
}

/// An unsigned machine integer kind.
pub open spec fn is_unsigned_kind(k: Kind) -> bool {
    match k {
        Kind::U8 | Kind::U16 | Kind::U32 | Kind::U64 | Kind::U128 | Kind::Usize => true,
        _ => false,
    }
}

/// The smallest value of a machine integer kind.
pub open spec fn kind_min(k: Kind) -> int {
    match k {
        Kind::I8 => i8::MIN as int,
        Kind::I16 => i16::MIN as int,
        Kind::I32 => i32::MIN as int,
        Kind::I64 => i64::MIN as int,
        Kind::I128 => i128::MIN as int,
        Kind::Isize => isize::MIN as int,
        _ => 0,
    }
}

/// The largest value of a machine integer kind.
pub open spec fn kind_max(k: Kind) -> int {
    match k {
        Kind::I8 => i8::MAX as int,
        Kind::I16 => i16::MAX as int,
        Kind::I32 => i32::MAX as int,
        Kind::I64 => i64::MAX as int,
        Kind::I128 => i128::MAX as int,
        Kind::Isize => isize::MAX as int,
        Kind::U8 => u8::MAX as int,
        Kind::U16 => u16::MAX as int,
        Kind::U32 => u32::MAX as int,
        Kind::U64 => u64::MAX as int,
        Kind::U128 => u128::MAX as int,
        Kind::Usize => usize::MAX as int,
        _ => 0,
    }
}

/// The integer a stored value denotes: the payload of a machine integer,
/// the denoted value of a well-formed big-integer text, zero otherwise.
pub open spec fn int_value_of(v: Value) -> int {
    match v {
        Value::I8(x) => x as int,
        Value::I16(x) => x as int,
        Value::I32(x) => x as int,
        Value::I64(x) => x as int,
        Value::I128(x) => x as int,
        Value::Isize(x) => x as int,
        Value::U8(x) => x as int,
        Value::U16(x) => x as int,
        Value::U32(x) => x as int,
        Value::U64(x) => x as int,
        Value::U128(x) => x as int,
        Value::Usize(x) => x as int,
        Value::Big(s) => if big_literal_ok(s@) {
            big_literal_val(s@)
        } else {
            0
        },
        _ => 0,
    }
}

/// `v` is the value of `kind` denoting the integer `n`.
pub open spec fn is_sum_value(kind: Kind, n: int, v: Value) -> bool {
    match kind {
        Kind::I8 => v == Value::I8(n as i8),
        Kind::I16 => v == Value::I16(n as i16),
        Kind::I32 => v == Value::I32(n as i32),
        Kind::I64 => v == Value::I64(n as i64),
        Kind::I128 => v == Value::I128(n as i128),
        Kind::Isize => v == Value::Isize(n as isize),
        Kind::U8 => v == Value::U8(n as u8),
        Kind::U16 => v == Value::U16(n as u16),
        Kind::U32 => v == Value::U32(n as u32),
        Kind::U64 => v == Value::U64(n as u64),
        Kind::U128 => v == Value::U128(n as u128),
        Kind::Usize => v == Value::Usize(n as usize),
        Kind::Big => v matches Value::Big(s) && s@ == dec_int(n),
        _ => false,
    }
}

/// The bit pattern a stored floating-point value carries.
pub open spec fn float_bits_of(v: Value) -> u64 {
    match v {
        Value::F32Bits(b) => b as u64,
        Value::F64Bits(b) => b,
        _ => 0,
    }
}


/// The bounds of a signed machine integer kind, as `i128` values.
pub fn signed_bounds(kind: Kind) -> (r: (i128, i128))
    requires
        is_signed_kind(kind),
    ensures
        r.0 == kind_min(kind),
        r.1 == kind_max(kind),
{
    match kind {
        Kind::I8 => (i8::MIN as i128, i8::MAX as i128),
        Kind::I16 => (i16::MIN as i128, i16::MAX as i128),
        Kind::I32 => (i32::MIN as i128, i32::MAX as i128),
        Kind::I64 => (i64::MIN as i128, i64::MAX as i128),
        Kind::I128 => (i128::MIN, i128::MAX),
        Kind::Isize => (isize::MIN as i128, isize::MAX as i128),
        _ => (0, 0),
    }
}

/// The upper bound of an unsigned machine integer kind, as a `u128`.
pub fn unsigned_max(kind: Kind) -> (r: u128)
    requires
        is_unsigned_kind(kind),
    ensures
        r == kind_max(kind),
{
    match kind {
        Kind::U8 => u8::MAX as u128,
        Kind::U16 => u16::MAX as u128,
        Kind::U32 => u32::MAX as u128,
        Kind::U64 => u64::MAX as u128,
        Kind::U128 => u128::MAX,
        Kind::Usize => usize::MAX as u128,
        _ => 0,
    }
}

/// The payload of a signed machine integer value, widened to `i128`.
pub fn signed_payload(v: &Value) -> (r: i128)
    requires
        is_signed_kind(value_kind(*v)),
    ensures
        r as int == int_value_of(*v),
{
    match v {
        Value::I8(x) => *x as i128,
        Value::I16(x) => *x as i128,
        Value::I32(x) => *x as i128,
        Value::I64(x) => *x as i128,
        Value::I128(x) => *x,
        Value::Isize(x) => *x as i128,
        _ => {
            proof {
                assert(false);
            }
            0
        },
    }
}

/// The payload of an unsigned machine integer value, widened to `u128`.
pub fn unsigned_payload(v: &Value) -> (r: u128)
    requires
        is_unsigned_kind(value_kind(*v)),
    ensures
        r as int == int_value_of(*v),
{
    match v {
        Value::U8(x) => *x as u128,
        Value::U16(x) => *x as u128,
        Value::U32(x) => *x as u128,
        Value::U64(x) => *x as u128,
        Value::U128(x) => *x,
        Value::Usize(x) => *x as u128,
        _ => {
            proof {
                assert(false);
            }
            0
        },
    }
}

/// Builds the value of a signed kind denoting `v`.
pub fn make_signed_value(kind: Kind, v: i128) -> (r: Value)
    requires
        is_signed_kind(kind),
        kind_min(kind) <= v <= kind_max(kind),
    ensures
        is_sum_value(kind, v as int, r),
{
    match kind {
        Kind::I8 => Value::I8(v as i8),
        Kind::I16 => Value::I16(v as i16),
        Kind::I32 => Value::I32(v as i32),
        Kind::I64 => Value::I64(v as i64),
        Kind::I128 => Value::I128(v),
        Kind::Isize => Value::Isize(v as isize),
        _ => {
            proof {
                assert(false);
            }
            Value::I8(0)
        },
    }
}

/// Builds the value of an unsigned kind denoting `v`.
pub fn make_unsigned_value(kind: Kind, v: u128) -> (r: Value)
    requires
        is_unsigned_kind(kind),
        v <= kind_max(kind),
    ensures
        is_sum_value(kind, v as int, r),
{
    match kind {
        Kind::U8 => Value::U8(v as u8),
        Kind::U16 => Value::U16(v as u16),
        Kind::U32 => Value::U32(v as u32),
        Kind::U64 => Value::U64(v as u64),
        Kind::U128 => Value::U128(v),
        Kind::Usize => Value::Usize(v as usize),
        _ => {
            proof {
                assert(false);
            }
            Value::U8(0)
        },
    }
}

/// The kind class a tag selects for accumulation.
pub fn kind_class(kind: Kind) -> (r: (bool, bool, bool))
    ensures
        r.0 == is_signed_kind(kind),
        r.1 == is_unsigned_kind(kind),
        r.2 == (kind == Kind::Big),
{
    match kind {
        Kind::I8 | Kind::I16 | Kind::I32 | Kind::I64 | Kind::I128 | Kind::Isize => (
            true,
            false,
            false,
        ),
        Kind::U8 | Kind::U16 | Kind::U32 | Kind::U64 | Kind::U128 | Kind::Usize => (
            false,
            true,
            false,
        ),
        Kind::Big => (false, false, true),
        _ => (false, false, false),
    }
}

} // verus!
