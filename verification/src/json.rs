//! Reading settings out of parsed JSON.

use crate::numeric::Real;
use vstd::prelude::*;

verus! {

/// A parsed JSON value.
#[verifier::external_type_specification]
#[verifier::external_body]
pub struct ExJsonValue(serde_json::Value);

/// The members of a JSON object that are unsigned integers, by their keys. A
/// value that is no object has none.
pub uninterp spec fn json_unsigned(value: serde_json::Value) -> Map<Seq<char>, u64>;

/// The members of a JSON object that are numbers, by their keys: each as the
/// bit pattern of the double-precision number that it reads as. A value that
/// is no object has none.
pub uninterp spec fn json_numbers(value: serde_json::Value) -> Map<Seq<char>, u64>;

/// `serde_json::Value::get` with a string key looks a member of an object up,
/// and `serde_json::Value::as_u64` gives a member that is stored as an unsigned
/// integer. The contract names the members that both succeed on.
#[verifier::external_body]
fn unsigned_member(value: &serde_json::Value, key: &str) -> (r: Option<u64>)
    ensures
        r == (if json_unsigned(*value).contains_key(key@) {
            Some(json_unsigned(*value)[key@])
        } else {
            None
        }),
{
    value.get(key).and_then(|member| member.as_u64())
}

/// `serde_json::Value::get` with a string key looks a member of an object up,
/// and `serde_json::Value::as_f64` reads a member that is a number as a double.
/// The contract names the members that both succeed on, by their bit patterns.
#[verifier::external_body]
fn number_member(value: &serde_json::Value, key: &str) -> (r: Option<u64>)
    ensures
        r == (if json_numbers(*value).contains_key(key@) {
            Some(json_numbers(*value)[key@])
        } else {
            None
        }),
{
    value.get(key).and_then(|member| member.as_f64()).map(|number| number.to_bits())
}

/// The numbers anywhere inside a JSON value, by the JSON pointers that lead to
/// them: each as the bit pattern of the double-precision number that it reads
/// as.
pub uninterp spec fn json_numbers_at(value: serde_json::Value) -> Map<Seq<char>, u64>;

/// `serde_json::Value::pointer` follows a JSON pointer into a value, and
/// `serde_json::Value::as_f64` reads what is there, if it is a number, as a
/// double. The contract names the pointers that both succeed on, by the bit
/// patterns that they lead to.
#[verifier::external_body]
fn number_at(value: &serde_json::Value, pointer: &str) -> (r: Option<u64>)
    ensures
        r == (if json_numbers_at(*value).contains_key(pointer@) {
            Some(json_numbers_at(*value)[pointer@])
        } else {
            None
        }),
{
    value.pointer(pointer).and_then(|member| member.as_f64()).map(|number| number.to_bits())
}

/// An unsigned setting, where it is given as one.
pub open spec fn unsigned_setting(value: serde_json::Value, key: Seq<char>) -> Option<u64> {
    if json_unsigned(value).contains_key(key) {
        Some(json_unsigned(value)[key])
    } else {
        None
    }
}

/// A number setting, where it is given as one.
pub open spec fn number_setting(value: serde_json::Value, key: Seq<char>) -> Option<u64> {
    if json_numbers(value).contains_key(key) {
        Some(json_numbers(value)[key])
    } else {
        None
    }
}

/// A number setting behind a JSON pointer, where it is given as one.
pub open spec fn nested_setting(value: serde_json::Value, pointer: Seq<char>) -> Option<u64> {
    if json_numbers_at(value).contains_key(pointer) {
        Some(json_numbers_at(value)[pointer])
    } else {
        None
    }
}

/// A size out of an optional setting: zero where it is not given.
pub open spec fn size_of(setting: Option<u64>) -> usize {
    match setting {
        Some(n) => n as usize,
        None => 0,
    }
}

/// A real number out of an optional setting: zero where it is not given.
pub open spec fn real_of(setting: Option<u64>) -> Real {
    match setting {
        Some(bits) => Real { bits },
        None => Real { bits: 0 },
    }
}

/// A size out of an optional setting.
pub fn size(setting: Option<u64>) -> (r: usize)
    ensures
        r == size_of(setting),
{
    match setting {
        Some(n) => n as usize,
        None => 0,
    }
}

/// A real number out of an optional setting.
pub fn number(setting: Option<u64>) -> (r: Real)
    ensures
        r == real_of(setting),
{
    match setting {
        Some(bits) => Real { bits },
        None => Real { bits: 0 },
    }
}

/// The number stays positive when it is narrowed to single precision: it lies
/// above half the smallest positive single-precision number.
pub open spec fn narrows_positive(x: Real) -> bool {
    0x3690_0000_0000_0000 < x.bits <= 0x7ff0_0000_0000_0000
}

/// A real number out of an optional setting that has to be positive in single
/// precision, or else `otherwise`.
pub open spec fn positive_of(setting: Option<u64>, otherwise: Real) -> Real {
    if narrows_positive(real_of(setting)) {
        real_of(setting)
    } else {
        otherwise
    }
}

/// A positive real number out of an optional setting, or else `otherwise`.
pub fn positive_or(setting: Option<u64>, otherwise: Real) -> (r: Real)
    ensures
        r == positive_of(setting, otherwise),
{
    let x = number(setting);
    if 0x3690_0000_0000_0000 < x.bits && x.bits <= 0x7ff0_0000_0000_0000 {
        x
    } else {
        otherwise
    }
}

/// Looks an unsigned setting up.
pub fn read_unsigned(value: &serde_json::Value, key: &str) -> (r: Option<u64>)
    ensures
        r == unsigned_setting(*value, key@),
{
    unsigned_member(value, key)
}

/// Looks a number setting up.
pub fn read_number(value: &serde_json::Value, key: &str) -> (r: Option<u64>)
    ensures
        r == number_setting(*value, key@),
{
    number_member(value, key)
}

/// Looks a number setting up behind a JSON pointer.
pub fn read_nested(value: &serde_json::Value, pointer: &str) -> (r: Option<u64>)
    ensures
        r == nested_setting(*value, pointer@),
{
    number_at(value, pointer)
}

} // verus!
