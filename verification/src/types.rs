//! The type system of values: how a value of each type is written, and how it is read.

use vstd::prelude::*;
use vstd::utf8::encode_utf8;
use vstd::utf8::encode_utf8_decode_utf8;
use vstd::utf8::encode_utf8_valid_utf8;
use crate::address::SocketAddress;
use crate::address::SocketAddressView;
use crate::decimal::i64_text;
use crate::decimal::int_text;
use crate::decimal::parse_i64;
use crate::decimal::read_i64;
use crate::decimal::read_i64_undoes_int_text;
use crate::float::below;
use crate::float::largest_display;
use crate::float::largest_text;
use crate::float::smallest_display;
use crate::float::Float64;
use crate::float::Float64View;
use crate::message::copy_bytes;
use crate::text::copy_texts;
use crate::text::find_text;
use crate::text::str_eq;
use crate::text::text_or_empty;
use crate::text::texts_view;
use crate::text::value_text;

verus! {

/// Why a value cannot be written or read.
#[derive(Debug)]
pub enum TypeError {
    InvalidInt(String),
    InvalidFloat(String),
    InvalidBool(String),
    InvalidTimestamp(String),
    InvalidAddress(String),
    /// The value, and the values that it should have been one of.
    InvalidDiscrete(String, Vec<String>),
    /// The value, and the lower and upper bound.
    OutOfRange(String, String, String),
}

/// A type error as mathematics sees it.
#[verifier::ext_equal]
pub enum TypeErrorView {
    InvalidInt(Seq<char>),
    InvalidFloat(Seq<char>),
    InvalidBool(Seq<char>),
    InvalidTimestamp(Seq<char>),
    InvalidAddress(Seq<char>),
    InvalidDiscrete(Seq<char>, Seq<Seq<char>>),
    OutOfRange(Seq<char>, Seq<char>, Seq<char>),
}

impl View for TypeError {
    type V = TypeErrorView;

    open spec fn view(&self) -> TypeErrorView {
        match self {
            TypeError::InvalidInt(s) => TypeErrorView::InvalidInt(s@),
            TypeError::InvalidFloat(s) => TypeErrorView::InvalidFloat(s@),
            TypeError::InvalidBool(s) => TypeErrorView::InvalidBool(s@),
            TypeError::InvalidTimestamp(s) => TypeErrorView::InvalidTimestamp(s@),
            TypeError::InvalidAddress(s) => TypeErrorView::InvalidAddress(s@),
            TypeError::InvalidDiscrete(s, values) => TypeErrorView::InvalidDiscrete(
                s@,
                texts_view(values@),
            ),
            TypeError::OutOfRange(v, lo, hi) => TypeErrorView::OutOfRange(v@, lo@, hi@),
        }
    }
}

/// The type of a value.
#[allow(inconsistent_fields)]
#[derive(Debug)]
pub enum KatcpType {
    Int { min: Option<i64>, max: Option<i64> },
    Float { min: Option<Float64>, max: Option<Float64> },
    Bool,
    Str,
    Discrete { values: Vec<String> },
    Timestamp,
    Address,
    Lru,
}

/// The type of a value as mathematics sees it.
#[allow(inconsistent_fields)]
#[verifier::ext_equal]
pub enum KatcpTypeView {
    Int { min: Option<i64>, max: Option<i64> },
    Float { min: Option<Float64View>, max: Option<Float64View> },
    Bool,
    Str,
    Discrete { values: Seq<Seq<char>> },
    Timestamp,
    Address,
    Lru,
}

/// The number that an optional number holds.
pub open spec fn opt_float(f: Option<Float64>) -> Option<Float64View> {
    match f {
        Some(x) => Some(x@),
        None => None,
    }
}

/// The address that an optional address holds.
pub open spec fn opt_address(a: Option<SocketAddress>) -> Option<SocketAddressView> {
    match a {
        Some(x) => Some(x@),
        None => None,
    }
}

impl View for KatcpType {
    type V = KatcpTypeView;

    open spec fn view(&self) -> KatcpTypeView {
        match self {
            KatcpType::Int { min, max } => KatcpTypeView::Int { min: *min, max: *max },
            KatcpType::Float { min, max } => KatcpTypeView::Float {
                min: opt_float(*min),
                max: opt_float(*max),
            },
            KatcpType::Bool => KatcpTypeView::Bool,
            KatcpType::Str => KatcpTypeView::Str,
            KatcpType::Discrete { values } => KatcpTypeView::Discrete {
                values: texts_view(values@),
            },
            KatcpType::Timestamp => KatcpTypeView::Timestamp,
            KatcpType::Address => KatcpTypeView::Address,
            KatcpType::Lru => KatcpTypeView::Lru,
        }
    }
}

/// Copies an optional number.
fn copy_float(f: &Option<Float64>) -> (copy: Option<Float64>)
    ensures
        opt_float(copy) == opt_float(*f),
{
    match f {
        Some(x) => Some(x.clone()),
        None => None,
    }
}

impl Clone for KatcpType {
    fn clone(&self) -> (copy: KatcpType)
        ensures
            copy@ == self@,
    {
        match self {
            KatcpType::Int { min, max } => KatcpType::Int { min: *min, max: *max },
            KatcpType::Float { min, max } => KatcpType::Float {
                min: copy_float(min),
                max: copy_float(max),
            },
            KatcpType::Bool => KatcpType::Bool,
            KatcpType::Str => KatcpType::Str,
            KatcpType::Discrete { values } => KatcpType::Discrete { values: copy_texts(values) },
            KatcpType::Timestamp => KatcpType::Timestamp,
            KatcpType::Address => KatcpType::Address,
            KatcpType::Lru => KatcpType::Lru,
        }
    }
}

/// A typed value.
#[derive(Debug, PartialEq)]
pub enum KatcpValue {
    Int(i64),
    Float(Float64),
    Bool(bool),
    Str(String),
    Bytes(Vec<u8>),
    Timestamp(Float64),
    Address(SocketAddress),
    /// True stands for nominal, false for error.
    Lru(bool),
}

/// A typed value as mathematics sees it.
#[verifier::ext_equal]
pub enum KatcpValueView {
    Int(i64),
    Float(Float64View),
    Bool(bool),
    Str(Seq<char>),
    Bytes(Seq<u8>),
    Timestamp(Float64View),
    Address(SocketAddressView),
    Lru(bool),
}

impl View for KatcpValue {
    type V = KatcpValueView;

    open spec fn view(&self) -> KatcpValueView {
        match self {
            KatcpValue::Int(v) => KatcpValueView::Int(*v),
            KatcpValue::Float(v) => KatcpValueView::Float(v@),
            KatcpValue::Bool(v) => KatcpValueView::Bool(*v),
            KatcpValue::Str(v) => KatcpValueView::Str(v@),
            KatcpValue::Bytes(v) => KatcpValueView::Bytes(v@),
            KatcpValue::Timestamp(v) => KatcpValueView::Timestamp(v@),
            KatcpValue::Address(v) => KatcpValueView::Address(v@),
            KatcpValue::Lru(v) => KatcpValueView::Lru(*v),
        }
    }
}

impl Clone for KatcpValue {
    fn clone(&self) -> (copy: KatcpValue)
        ensures
            copy@ == self@,
    {
        match self {
            KatcpValue::Int(v) => KatcpValue::Int(*v),
            KatcpValue::Float(v) => KatcpValue::Float(v.clone()),
            KatcpValue::Bool(v) => KatcpValue::Bool(*v),
            KatcpValue::Str(v) => KatcpValue::Str(v.clone()),
            KatcpValue::Bytes(v) => KatcpValue::Bytes(copy_bytes(v)),
            KatcpValue::Timestamp(v) => KatcpValue::Timestamp(v.clone()),
            KatcpValue::Address(v) => KatcpValue::Address(v.clone()),
            KatcpValue::Lru(v) => KatcpValue::Lru(*v),
        }
    }
}

/// What the text of a value reads as, where it is read as a floating-point number and where it is
/// read as a socket address.
pub struct TextReading {
    pub float: Option<Float64>,
    pub address: Option<SocketAddress>,
}

impl TextReading {
    /// The reading of a text that is neither a number nor an address.
    pub fn none() -> (r: TextReading)
        ensures
            r.float is None,
            r.address is None,
    {
        TextReading { float: None, address: None }
    }
}

/// What is wrong with an integer that should lie within bounds.
pub open spec fn int_fault(v: i64, min: Option<i64>, max: Option<i64>) -> Option<TypeErrorView> {
    let lo = match min {
        Some(lo) => lo,
        None => i64::MIN,
    };
    let hi = match max {
        Some(hi) => hi,
        None => i64::MAX,
    };
    if v < lo || v > hi {
        Some(
            TypeErrorView::OutOfRange(int_text(v as int), int_text(lo as int), int_text(hi as int)),
        )
    } else {
        None
    }
}

/// What is wrong with a floating-point number that should lie within bounds.
pub open spec fn float_fault(
    v: Float64View,
    min: Option<Float64View>,
    max: Option<Float64View>,
) -> Option<TypeErrorView> {
    let lo_text = match min {
        Some(lo) => lo.display,
        None => seq!['-'] + largest_text(),
    };
    let hi_text = match max {
        Some(hi) => hi.display,
        None => largest_text(),
    };
    if (min matches Some(lo) && below(v.bits, lo.bits)) || (max matches Some(hi) && below(
        hi.bits,
        v.bits,
    )) {
        Some(TypeErrorView::OutOfRange(v.display, lo_text, hi_text))
    } else {
        None
    }
}

/// What a boolean is written as.
pub open spec fn bool_text(v: bool) -> Seq<char> {
    if v {
        "1"@
    } else {
        "0"@
    }
}

/// What the state of a replaceable unit is written as.
pub open spec fn lru_text(v: bool) -> Seq<char> {
    if v {
        "nominal"@
    } else {
        "error"@
    }
}

/// What a value of a type is written as.
pub open spec fn encoded(t: KatcpTypeView, value: KatcpValueView) -> Result<
    Seq<u8>,
    TypeErrorView,
> {
    match (t, value) {
        (KatcpTypeView::Int { min, max }, KatcpValueView::Int(v)) => match int_fault(v, min, max) {
            Some(e) => Err(e),
            None => Ok(encode_utf8(int_text(v as int))),
        },
        (KatcpTypeView::Float { min, max }, KatcpValueView::Float(v)) => match float_fault(
            v,
            min,
            max,
        ) {
            Some(e) => Err(e),
            None => Ok(encode_utf8(v.scientific)),
        },
        (KatcpTypeView::Bool, KatcpValueView::Bool(v)) => Ok(encode_utf8(bool_text(v))),
        (KatcpTypeView::Str, KatcpValueView::Str(v)) => Ok(encode_utf8(v)),
        (KatcpTypeView::Str, KatcpValueView::Bytes(v)) => Ok(v),
        (KatcpTypeView::Discrete { values }, KatcpValueView::Str(v)) => if values.contains(v) {
            Ok(encode_utf8(v))
        } else {
            Err(TypeErrorView::InvalidDiscrete(v, values))
        },
        (KatcpTypeView::Timestamp, KatcpValueView::Timestamp(v)) => Ok(encode_utf8(v.fixed)),
        (KatcpTypeView::Address, KatcpValueView::Address(v)) => Ok(encode_utf8(v.wire_text())),
        (KatcpTypeView::Lru, KatcpValueView::Lru(v)) => Ok(encode_utf8(lru_text(v))),
        _ => Err(TypeErrorView::InvalidInt("type mismatch"@)),
    }
}

/// What bytes of a type read as, given their text read as a number and as an address.
pub open spec fn decoded(
    t: KatcpTypeView,
    data: Seq<u8>,
    float: Option<Float64View>,
    address: Option<SocketAddressView>,
) -> Result<KatcpValueView, TypeErrorView> {
    let s = text_or_empty(data);
    match t {
        KatcpTypeView::Int { min, max } => match read_i64(s) {
            None => Err(TypeErrorView::InvalidInt(s)),
            Some(v) => match int_fault(v as i64, min, max) {
                Some(e) => Err(e),
                None => Ok(KatcpValueView::Int(v as i64)),
            },
        },
        KatcpTypeView::Float { min, max } => match float {
            None => Err(TypeErrorView::InvalidFloat(s)),
            Some(v) => match float_fault(v, min, max) {
                Some(e) => Err(e),
                None => Ok(KatcpValueView::Float(v)),
            },
        },
        KatcpTypeView::Bool => if s == bool_text(true) {
            Ok(KatcpValueView::Bool(true))
        } else if s == bool_text(false) {
            Ok(KatcpValueView::Bool(false))
        } else {
            Err(TypeErrorView::InvalidBool(s))
        },
        KatcpTypeView::Str => Ok(KatcpValueView::Str(s)),
        KatcpTypeView::Discrete { values } => if values.contains(s) {
            Ok(KatcpValueView::Str(s))
        } else {
            Err(TypeErrorView::InvalidDiscrete(s, values))
        },
        KatcpTypeView::Timestamp => match float {
            None => Err(TypeErrorView::InvalidTimestamp(s)),
            Some(v) => Ok(KatcpValueView::Timestamp(v)),
        },
        KatcpTypeView::Address => match address {
            None => Err(TypeErrorView::InvalidAddress(s)),
            Some(v) => Ok(KatcpValueView::Address(v)),
        },
        KatcpTypeView::Lru => if s == lru_text(true) {
            Ok(KatcpValueView::Lru(true))
        } else if s == lru_text(false) {
            Ok(KatcpValueView::Lru(false))
        } else {
            Err(TypeErrorView::InvalidBool(s))
        },
    }
}

/// Checks an integer against its bounds.
fn check_int(v: i64, min: &Option<i64>, max: &Option<i64>) -> (r: Result<(), TypeError>)
    ensures
        match r {
            Ok(_) => int_fault(v, *min, *max) is None,
            Err(e) => int_fault(v, *min, *max) == Some(e@),
        },
{
    let lo: i64 = match min {
        Some(lo) => *lo,
        None => i64::MIN,
    };
    let hi: i64 = match max {
        Some(hi) => *hi,
        None => i64::MAX,
    };
    if v < lo || v > hi {
        Err(TypeError::OutOfRange(i64_text(v), i64_text(lo), i64_text(hi)))
    } else {
        Ok(())
    }
}

/// Checks a floating-point number against its bounds.
fn check_float(v: &Float64, min: &Option<Float64>, max: &Option<Float64>) -> (r: Result<
    (),
    TypeError,
>)
    ensures
        match r {
            Ok(_) => float_fault(v@, opt_float(*min), opt_float(*max)) is None,
            Err(e) => float_fault(v@, opt_float(*min), opt_float(*max)) == Some(e@),
        },
{
    let under = match min {
        Some(lo) => v.is_below(lo),
        None => false,
    };
    let over = match max {
        Some(hi) => hi.is_below(v),
        None => false,
    };
    if under || over {
        let lo_text = match min {
            Some(lo) => lo.display.clone(),
            None => smallest_display(),
        };
        let hi_text = match max {
            Some(hi) => hi.display.clone(),
            None => largest_display(),
        };
        Err(TypeError::OutOfRange(v.display.clone(), lo_text, hi_text))
    } else {
        Ok(())
    }
}

/// What a boolean is written as.
pub fn bool_bytes(v: bool) -> (bytes: Vec<u8>)
    ensures
        bytes@ == encode_utf8(bool_text(v)),
{
    if v {
        "1".as_bytes_vec()
    } else {
        "0".as_bytes_vec()
    }
}

/// What the state of a replaceable unit is written as.
pub fn lru_bytes(v: bool) -> (bytes: Vec<u8>)
    ensures
        bytes@ == encode_utf8(lru_text(v)),
{
    if v {
        "nominal".as_bytes_vec()
    } else {
        "error".as_bytes_vec()
    }
}

impl KatcpType {
    /// Encode a value to wire format bytes.
    pub fn encode(&self, value: &KatcpValue) -> (r: Result<Vec<u8>, TypeError>)
        ensures
            match r {
                Ok(bytes) => encoded(self@, value@) == Ok::<Seq<u8>, TypeErrorView>(bytes@),
                Err(e) => encoded(self@, value@) == Err::<Seq<u8>, TypeErrorView>(e@),
            },
    {
        match (self, value) {
            (KatcpType::Int { min, max }, KatcpValue::Int(v)) => match check_int(*v, min, max) {
                Ok(_) => Ok(i64_text(*v).as_str().as_bytes_vec()),
                Err(e) => Err(e),
            },
            (KatcpType::Float { min, max }, KatcpValue::Float(v)) => match check_float(
                v,
                min,
                max,
            ) {
                Ok(_) => Ok(v.scientific.as_str().as_bytes_vec()),
                Err(e) => Err(e),
            },
            (KatcpType::Bool, KatcpValue::Bool(v)) => Ok(bool_bytes(*v)),
            (KatcpType::Str, KatcpValue::Str(v)) => Ok(v.as_str().as_bytes_vec()),
            (KatcpType::Str, KatcpValue::Bytes(v)) => Ok(copy_bytes(v)),
            (KatcpType::Discrete { values }, KatcpValue::Str(v)) => match find_text(
                values,
                v.as_str(),
            ) {
                Some(_) => Ok(v.as_str().as_bytes_vec()),
                None => Err(TypeError::InvalidDiscrete(v.clone(), copy_texts(values))),
            },
            (KatcpType::Timestamp, KatcpValue::Timestamp(v)) => Ok(encode_timestamp(v)),
            (KatcpType::Address, KatcpValue::Address(v)) => Ok(v.to_wire()),
            (KatcpType::Lru, KatcpValue::Lru(v)) => Ok(lru_bytes(*v)),
            _ => Err(TypeError::InvalidInt("type mismatch".to_owned())),
        }
    }

    /// Decode wire format bytes into a typed value. `reading` is the text of the bytes, read as a
    /// floating-point number and as a socket address.
    pub fn decode(&self, data: &[u8], reading: TextReading) -> (r: Result<KatcpValue, TypeError>)
        ensures
            match r {
                Ok(v) => decoded(
                    self@,
                    data@,
                    opt_float(reading.float),
                    opt_address(reading.address),
                ) == Ok::<KatcpValueView, TypeErrorView>(v@),
                Err(e) => decoded(
                    self@,
                    data@,
                    opt_float(reading.float),
                    opt_address(reading.address),
                ) == Err::<KatcpValueView, TypeErrorView>(e@),
            },
    {
        let s = value_text(data);
        match self {
            KatcpType::Int { min, max } => match parse_i64(s.as_str()) {
                None => Err(TypeError::InvalidInt(s)),
                Some(v) => match check_int(v, min, max) {
                    Ok(_) => Ok(KatcpValue::Int(v)),
                    Err(e) => Err(e),
                },
            },
            KatcpType::Float { min, max } => match reading.float {
                None => Err(TypeError::InvalidFloat(s)),
                Some(v) => match check_float(&v, min, max) {
                    Ok(_) => Ok(KatcpValue::Float(v)),
                    Err(e) => Err(e),
                },
            },
            KatcpType::Bool => if str_eq(s.as_str(), "1") {
                Ok(KatcpValue::Bool(true))
            } else if str_eq(s.as_str(), "0") {
                Ok(KatcpValue::Bool(false))
            } else {
                Err(TypeError::InvalidBool(s))
            },
            KatcpType::Str => Ok(KatcpValue::Str(s)),
            KatcpType::Discrete { values } => match find_text(values, s.as_str()) {
                Some(_) => Ok(KatcpValue::Str(s)),
                None => Err(TypeError::InvalidDiscrete(s, copy_texts(values))),
            },
            KatcpType::Timestamp => match decode_timestamp(data, reading.float) {
                Ok(v) => Ok(KatcpValue::Timestamp(v)),
                Err(e) => Err(e),
            },
            KatcpType::Address => match reading.address {
                None => Err(TypeError::InvalidAddress(s)),
                Some(v) => Ok(KatcpValue::Address(v)),
            },
            KatcpType::Lru => if str_eq(s.as_str(), "nominal") {
                Ok(KatcpValue::Lru(true))
            } else if str_eq(s.as_str(), "error") {
                Ok(KatcpValue::Lru(false))
            } else {
                Err(TypeError::InvalidBool(s))
            },
        }
    }
}

/// Encode a timestamp as wire format.
pub fn encode_timestamp(secs: &Float64) -> (bytes: Vec<u8>)
    ensures
        bytes@ == encode_utf8(secs@.fixed),
{
    secs.fixed.as_str().as_bytes_vec()
}

/// Decode a timestamp from wire format. `reading` is the text of the bytes, read as a floating-point
/// number.
pub fn decode_timestamp(data: &[u8], reading: Option<Float64>) -> (r: Result<Float64, TypeError>)
    ensures
        match r {
            Ok(v) => reading == Some(v),
            Err(e) => reading is None && e@ == TypeErrorView::InvalidTimestamp(
                text_or_empty(data@),
            ),
        },
{
    match reading {
        Some(v) => Ok(v),
        None => Err(TypeError::InvalidTimestamp(value_text(data))),
    }
}

/// Whether a value of a type is read back from its written form: where it is a number or an address,
/// the reading that is handed in is the value.
pub open spec fn is_readable(
    t: KatcpTypeView,
    value: KatcpValueView,
    float: Option<Float64View>,
    address: Option<SocketAddressView>,
) -> bool {
    match (t, value) {
        (KatcpTypeView::Int { .. }, KatcpValueView::Int(_)) => true,
        (KatcpTypeView::Float { .. }, KatcpValueView::Float(v)) => float == Some(v),
        (KatcpTypeView::Bool, KatcpValueView::Bool(_)) => true,
        (KatcpTypeView::Str, KatcpValueView::Str(_)) => true,
        (KatcpTypeView::Discrete { .. }, KatcpValueView::Str(_)) => true,
        (KatcpTypeView::Timestamp, KatcpValueView::Timestamp(v)) => float == Some(v),
        (KatcpTypeView::Address, KatcpValueView::Address(v)) => address == Some(v),
        (KatcpTypeView::Lru, KatcpValueView::Lru(_)) => true,
        _ => false,
    }
}

/// Decoding what a value was encoded as gives the value back. Of a floating-point number, a timestamp
/// and an address this holds where the text that was written, read as such, is the value.
pub proof fn decode_undoes_encode(
    t: KatcpTypeView,
    value: KatcpValueView,
    float: Option<Float64View>,
    address: Option<SocketAddressView>,
)
    requires
        is_readable(t, value, float, address),
        encoded(t, value) is Ok,
    ensures
        decoded(t, encoded(t, value)->Ok_0, float, address) == Ok::<KatcpValueView, TypeErrorView>(
            value,
        ),
{
    let text = match value {
        KatcpValueView::Int(v) => int_text(v as int),
        KatcpValueView::Bool(v) => bool_text(v),
        KatcpValueView::Str(v) => v,
        KatcpValueView::Lru(v) => lru_text(v),
        _ => seq![],
    };
    encode_utf8_valid_utf8(text);
    encode_utf8_decode_utf8(text);
    if let KatcpValueView::Int(v) = value {
        read_i64_undoes_int_text(v);
    }
    reveal_strlit("1");
    reveal_strlit("0");
    reveal_strlit("nominal");
    reveal_strlit("error");
    assert("0"@[0] != "1"@[0]);
    assert("nominal"@.len() != "error"@.len());
}

/// A decoded integer lies within the bounds of its type.
pub proof fn decoded_integers_are_in_range(
    min: Option<i64>,
    max: Option<i64>,
    data: Seq<u8>,
    float: Option<Float64View>,
    address: Option<SocketAddressView>,
    v: i64,
)
    requires
        decoded(KatcpTypeView::Int { min, max }, data, float, address) == Ok::<
            KatcpValueView,
            TypeErrorView,
        >(KatcpValueView::Int(v)),
    ensures
        min matches Some(lo) ==> lo <= v,
        max matches Some(hi) ==> v <= hi,
{
}

} // verus!
