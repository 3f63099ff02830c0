//! What holds of values and their encodings: numbers are ordered as numbers, what is written or read
//! lies within its bounds, and what lies within them is not refused.

use vstd::prelude::*;
use vstd::utf8::encode_utf8;
use vstd::utf8::encode_utf8_decode_utf8;
use vstd::utf8::encode_utf8_valid_utf8;
use vstd::utf8::decode_utf8;
use vstd::utf8::valid_utf8;
use crate::address::SocketAddressView;
use crate::decimal::int_text;
use crate::decimal::nat_text;
use crate::decimal::read_i64;
use crate::decimal::read_i64_undoes_int_text;
use crate::float::below;
use crate::float::is_nan;
use crate::float::same_number;
use crate::float::Float64View;
use crate::types::decoded;
use crate::types::encoded;
use crate::types::KatcpTypeView;
use crate::types::KatcpValueView;
use crate::types::TypeErrorView;

verus! {

/// Of two numbers either one is below the other or they are equal, and only one of the three holds;
/// what is no number is neither below nor above nor equal to anything.
pub proof fn numbers_are_ordered(a: u64, b: u64)
    ensures
        is_nan(a) || is_nan(b) ==> !below(a, b) && !below(b, a) && !same_number(a, b),
        !is_nan(a) && !is_nan(b) ==> below(a, b) || below(b, a) || same_number(a, b),
        !(below(a, b) && below(b, a)),
        !(below(a, b) && same_number(a, b)),
        same_number(a, b) == same_number(b, a),
{
}

/// What is below a number that is below, or equal to, another is below that other.
pub proof fn order_is_transitive(a: u64, b: u64, c: u64)
    ensures
        below(a, b) && below(b, c) ==> below(a, c),
        below(a, b) && same_number(b, c) ==> below(a, c),
        same_number(a, b) && below(b, c) ==> below(a, c),
{
}

/// Among numbers without a sign the order is that of their bits; a sign turns the order around; every
/// number with a sign, but for zero, is below every number without; and zero has two forms. The bits
/// of infinity are the last that stand for a number.
pub proof fn order_follows_the_bits(a: u64, b: u64)
    requires
        a <= 0x7ff0_0000_0000_0000,
        b <= 0x7ff0_0000_0000_0000,
    ensures
        ({
            let sign: u64 = 0x8000_0000_0000_0000;
            let minus_a = (a + sign) as u64;
            let minus_b = (b + sign) as u64;
            &&& !is_nan(a) && !is_nan(minus_a)
            &&& below(a, b) <==> a < b
            &&& below(minus_b, minus_a) <==> a < b
            &&& below(minus_a, b) <==> !(a == 0 && b == 0)
            &&& !below(a, minus_b)
            &&& same_number(minus_a, b) <==> a == 0 && b == 0
        }),
{
}

/// What lies beyond the bits of infinity is no number.
pub proof fn beyond_infinity_is_no_number(bits: u64)
    ensures
        is_nan(bits) <==> 0x7ff0_0000_0000_0000 < bits < 0x8000_0000_0000_0000 || bits
            > 0xfff0_0000_0000_0000,
{
}

/// Whether a number lies within bounds, of which either may be missing: it is not below the lower and
/// not above the upper.
pub open spec fn float_within(
    v: Float64View,
    min: Option<Float64View>,
    max: Option<Float64View>,
) -> bool {
    &&& min matches Some(lo) ==> !below(v.bits, lo.bits)
    &&& max matches Some(hi) ==> !below(hi.bits, v.bits)
}

/// Whether an integer lies within bounds, of which either may be missing.
pub open spec fn int_within(v: i64, min: Option<i64>, max: Option<i64>) -> bool {
    &&& min matches Some(lo) ==> lo <= v
    &&& max matches Some(hi) ==> v <= hi
}

/// A number is written if and only if it lies within the bounds of its type, and then in scientific
/// form. One that is read is read as it was handed in, if and only if it lies within them.
pub proof fn floats_are_held_to_their_bounds(
    v: Float64View,
    min: Option<Float64View>,
    max: Option<Float64View>,
    data: Seq<u8>,
    address: Option<SocketAddressView>,
)
    ensures
        ({
            let t = KatcpTypeView::Float { min, max };
            let written = encoded(t, KatcpValueView::Float(v));
            let read = decoded(t, data, Some(v), address);
            &&& written is Ok <==> float_within(v, min, max)
            &&& written is Ok ==> written->Ok_0 == encode_utf8(v.scientific)
            &&& read is Ok <==> float_within(v, min, max)
            &&& read is Ok ==> read->Ok_0 == KatcpValueView::Float(v)
        }),
{
}

/// An integer is written if and only if it lies within the bounds of its type, and then as its decimal
/// text. Bytes are read as an integer if and only if their text is that of one within the bounds.
pub proof fn integers_are_held_to_their_bounds(
    v: i64,
    min: Option<i64>,
    max: Option<i64>,
    data: Seq<u8>,
    float: Option<Float64View>,
    address: Option<SocketAddressView>,
)
    requires
        valid_utf8(data),
        read_i64(decode_utf8(data)) == Some(v as int),
    ensures
        ({
            let t = KatcpTypeView::Int { min, max };
            let written = encoded(t, KatcpValueView::Int(v));
            let read = decoded(t, data, float, address);
            &&& written is Ok <==> int_within(v, min, max)
            &&& written is Ok ==> written->Ok_0 == encode_utf8(int_text(v as int))
            &&& read is Ok <==> int_within(v, min, max)
            &&& read is Ok ==> read->Ok_0 == KatcpValueView::Int(v)
        }),
{
}

/// What lies without its bounds is refused with an error that tells the value and both bounds, the
/// least and the greatest 64-bit integer where there is none.
pub proof fn refused_integers_tell_their_bounds(v: i64, min: Option<i64>, max: Option<i64>)
    requires
        !int_within(v, min, max),
    ensures
        encoded(KatcpTypeView::Int { min, max }, KatcpValueView::Int(v)) matches Err(
            TypeErrorView::OutOfRange(value, lo, hi),
        ) && read_i64(value) == Some(v as int) && read_i64(lo) == Some(
            if min is Some {
                min->0 as int
            } else {
                -0x8000_0000_0000_0000
            },
        ) && read_i64(hi) == Some(
            if max is Some {
                max->0 as int
            } else {
                0x7fff_ffff_ffff_ffff
            },
        ),
{
    read_i64_undoes_int_text(v);
    read_i64_undoes_int_text(if min is Some { min->0 } else { i64::MIN });
    read_i64_undoes_int_text(if max is Some { max->0 } else { i64::MAX });
}

/// A number without its bounds is refused with an error that tells the number and both bounds in their
/// shortest forms, the least and the greatest number where there is none.
pub proof fn refused_floats_tell_their_bounds(
    v: Float64View,
    min: Option<Float64View>,
    max: Option<Float64View>,
)
    requires
        !float_within(v, min, max),
    ensures
        encoded(KatcpTypeView::Float { min, max }, KatcpValueView::Float(v)) matches Err(
            TypeErrorView::OutOfRange(value, lo, hi),
        ) && value == v.display && (min matches Some(m) ==> lo == m.display) && (max matches Some(m)
            ==> hi == m.display) && (min is None ==> lo.len() == 310 && lo[0] == '-') && (max is None
            ==> hi.len() == 309),
{
    reveal_strlit("17976931348623157");
}

/// An integer that was refused when it was read is refused as it would be when written.
pub proof fn reading_refuses_as_writing_does(
    v: i64,
    f: Float64View,
    imin: Option<i64>,
    imax: Option<i64>,
    fmin: Option<Float64View>,
    fmax: Option<Float64View>,
    data: Seq<u8>,
    address: Option<SocketAddressView>,
)
    requires
        valid_utf8(data),
        read_i64(decode_utf8(data)) == Some(v as int),
    ensures
        encoded(KatcpTypeView::Int { min: imin, max: imax }, KatcpValueView::Int(v)) matches Err(e)
            ==> decoded(KatcpTypeView::Int { min: imin, max: imax }, data, Some(f), address) == Err::<
            KatcpValueView,
            TypeErrorView,
        >(e),
        encoded(KatcpTypeView::Float { min: fmin, max: fmax }, KatcpValueView::Float(f)) matches Err(
            e,
        ) ==> decoded(KatcpTypeView::Float { min: fmin, max: fmax }, data, Some(f), address)
            == Err::<KatcpValueView, TypeErrorView>(e),
{
}

/// Whether a value is of the kind that a type is for.
pub open spec fn is_of_kind(t: KatcpTypeView, value: KatcpValueView) -> bool {
    match value {
        KatcpValueView::Int(_) => t is Int,
        KatcpValueView::Float(_) => t is Float,
        KatcpValueView::Bool(_) => t is Bool,
        KatcpValueView::Str(_) => t is Str || t is Discrete,
        KatcpValueView::Bytes(_) => t is Str,
        KatcpValueView::Timestamp(_) => t is Timestamp,
        KatcpValueView::Address(_) => t is Address,
        KatcpValueView::Lru(_) => t is Lru,
    }
}

/// A value of another kind than its type is for is never written; of those of the right kind, only
/// numbers without their bounds and texts that are none of a type's values are refused.
pub proof fn only_values_of_the_kind_are_written(t: KatcpTypeView, value: KatcpValueView)
    ensures
        !is_of_kind(t, value) ==> encoded(t, value) is Err,
        is_of_kind(t, value) && !(t is Int) && !(t is Float) && !(t is Discrete) ==> encoded(
            t,
            value,
        ) is Ok,
{
}

/// What is read is of the kind that the type is for.
pub proof fn what_is_read_is_of_the_kind(
    t: KatcpTypeView,
    data: Seq<u8>,
    float: Option<Float64View>,
    address: Option<SocketAddressView>,
)
    ensures
        decoded(t, data, float, address) matches Ok(v) ==> is_of_kind(t, v) && !(v is Bytes),
{
}

/// A text is written, and read, as one of a type's values if and only if it is one of them, and is
/// then written as itself; else the error tells the text and all the values.
pub proof fn discrete_values_are_the_listed_ones(
    values: Seq<Seq<char>>,
    text: Seq<char>,
    float: Option<Float64View>,
    address: Option<SocketAddressView>,
)
    ensures
        ({
            let t = KatcpTypeView::Discrete { values };
            let written = encoded(t, KatcpValueView::Str(text));
            let read = decoded(t, encode_utf8(text), float, address);
            let listed = exists|i: int| 0 <= i < values.len() && values[i] == text;
            &&& written == (if listed {
                Ok(encode_utf8(text))
            } else {
                Err(TypeErrorView::InvalidDiscrete(text, values))
            })
            &&& read == (if listed {
                Ok(KatcpValueView::Str(text))
            } else {
                Err(TypeErrorView::InvalidDiscrete(text, values))
            })
        }),
{
    encode_utf8_valid_utf8(text);
    encode_utf8_decode_utf8(text);
}

/// Texts and bytes are written as they are. A text is read as it is, and bytes that are no text as the
/// empty text.
pub proof fn texts_are_written_as_they_are(
    text: Seq<char>,
    bytes: Seq<u8>,
    float: Option<Float64View>,
    address: Option<SocketAddressView>,
)
    ensures
        encoded(KatcpTypeView::Str, KatcpValueView::Str(text)) == Ok::<Seq<u8>, TypeErrorView>(
            encode_utf8(text),
        ),
        encoded(KatcpTypeView::Str, KatcpValueView::Bytes(bytes)) == Ok::<Seq<u8>, TypeErrorView>(
            bytes,
        ),
        decoded(KatcpTypeView::Str, bytes, float, address) == Ok::<KatcpValueView, TypeErrorView>(
            KatcpValueView::Str(
                if valid_utf8(bytes) {
                    decode_utf8(bytes)
                } else {
                    Seq::empty()
                },
            ),
        ),
{
}

/// A timestamp is written with six digits behind the point, and an address as its IP address, a colon
/// and its port. Both are read as they were handed in.
pub proof fn timestamps_and_addresses(
    time: Float64View,
    addr: SocketAddressView,
    data: Seq<u8>,
    float: Option<Float64View>,
    address: Option<SocketAddressView>,
)
    ensures
        encoded(KatcpTypeView::Timestamp, KatcpValueView::Timestamp(time)) == Ok::<
            Seq<u8>,
            TypeErrorView,
        >(encode_utf8(time.fixed)),
        encoded(KatcpTypeView::Address, KatcpValueView::Address(addr)) == Ok::<
            Seq<u8>,
            TypeErrorView,
        >(encode_utf8(addr.ip + seq![':'] + nat_text(addr.port as nat))),
        decoded(KatcpTypeView::Timestamp, data, Some(time), address) == Ok::<
            KatcpValueView,
            TypeErrorView,
        >(KatcpValueView::Timestamp(time)),
        decoded(KatcpTypeView::Timestamp, data, None, address) is Err,
        decoded(KatcpTypeView::Address, data, float, Some(addr)) == Ok::<
            KatcpValueView,
            TypeErrorView,
        >(KatcpValueView::Address(addr)),
        decoded(KatcpTypeView::Address, data, float, None) is Err,
{
}

/// Booleans and unit states have two written forms each, and no other text reads as one.
pub proof fn booleans_have_two_forms(
    text: Seq<char>,
    float: Option<Float64View>,
    address: Option<SocketAddressView>,
)
    ensures
        decoded(KatcpTypeView::Bool, encode_utf8(text), float, address) == (if text == "1"@ {
            Ok(KatcpValueView::Bool(true))
        } else if text == "0"@ {
            Ok(KatcpValueView::Bool(false))
        } else {
            Err(TypeErrorView::InvalidBool(text))
        }),
        decoded(KatcpTypeView::Lru, encode_utf8(text), float, address) == (if text == "nominal"@ {
            Ok(KatcpValueView::Lru(true))
        } else if text == "error"@ {
            Ok(KatcpValueView::Lru(false))
        } else {
            Err(TypeErrorView::InvalidBool(text))
        }),
{
    encode_utf8_valid_utf8(text);
    encode_utf8_decode_utf8(text);
}

/// A text that is no integer is refused with an error that tells the text, and so is one that is read
/// as a number, a timestamp or an address and is none.
pub proof fn what_cannot_be_read_is_told(
    text: Seq<char>,
    min: Option<i64>,
    max: Option<i64>,
    fmin: Option<Float64View>,
    fmax: Option<Float64View>,
    float: Option<Float64View>,
    address: Option<SocketAddressView>,
)
    ensures
        read_i64(text) is None ==> decoded(
            KatcpTypeView::Int { min, max },
            encode_utf8(text),
            float,
            address,
        ) == Err::<KatcpValueView, TypeErrorView>(TypeErrorView::InvalidInt(text)),
        decoded(KatcpTypeView::Float { min: fmin, max: fmax }, encode_utf8(text), None, address)
            == Err::<KatcpValueView, TypeErrorView>(TypeErrorView::InvalidFloat(text)),
        decoded(KatcpTypeView::Timestamp, encode_utf8(text), None, address) == Err::<
            KatcpValueView,
            TypeErrorView,
        >(TypeErrorView::InvalidTimestamp(text)),
        decoded(KatcpTypeView::Address, encode_utf8(text), float, None) == Err::<
            KatcpValueView,
            TypeErrorView,
        >(TypeErrorView::InvalidAddress(text)),
{
    encode_utf8_valid_utf8(text);
    encode_utf8_decode_utf8(text);
}

} // verus!
