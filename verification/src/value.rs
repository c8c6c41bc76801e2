//! Runtime values: either the absent value `Nil` or a 64-bit IEEE-754 number,
//! carried by its bit pattern so that the arithmetic itself stays behind a
//! small trusted boundary while everything around it is verified.
use vstd::prelude::*;

use rustc_apfloat::Float;

verus! {

/// A runtime scalar: the designated absent value, or a number held as the
/// bit pattern of a 64-bit IEEE-754 float.
#[derive(Debug, Clone, Copy, PartialEq, Eq, Structural)]
pub enum Value {
    Nil,
    Num(u64),
}

/// The bit pattern of the IEEE-754 sum of the numbers with bit patterns `a` and `b`.
pub uninterp spec fn add_bits(a: u64, b: u64) -> u64;

/// The bit pattern of the IEEE-754 difference of the numbers with bit patterns `a` and `b`.
pub uninterp spec fn sub_bits(a: u64, b: u64) -> u64;

/// The bit pattern of the IEEE-754 product of the numbers with bit patterns `a` and `b`.
pub uninterp spec fn mul_bits(a: u64, b: u64) -> u64;

/// The bit pattern of the IEEE-754 quotient of the numbers with bit patterns `a` and `b`.
pub uninterp spec fn div_bits(a: u64, b: u64) -> u64;

/// IEEE-754 negation flips the sign bit and leaves every other bit alone.
pub open spec fn neg_bits(a: u64) -> u64 {
    a ^ 0x8000_0000_0000_0000
}

/// Relies on `rustc_apfloat::ieee::Double` addition: IEEE binary64 arithmetic,
/// a pure function of the two operand bit patterns.
#[verifier::external_body]
pub(crate) fn num_add(a: u64, b: u64) -> (r: u64)
    ensures
        r == add_bits(a, b),
{
    let x = rustc_apfloat::ieee::Double::from_bits(a as u128);
    let y = rustc_apfloat::ieee::Double::from_bits(b as u128);
    (x + y).value.to_bits() as u64
}

/// Relies on `rustc_apfloat::ieee::Double` subtraction: IEEE binary64
/// arithmetic, a pure function of the two operand bit patterns.
#[verifier::external_body]
pub(crate) fn num_sub(a: u64, b: u64) -> (r: u64)
    ensures
        r == sub_bits(a, b),
{
    let x = rustc_apfloat::ieee::Double::from_bits(a as u128);
    let y = rustc_apfloat::ieee::Double::from_bits(b as u128);
    (x - y).value.to_bits() as u64
}

/// Relies on `rustc_apfloat::ieee::Double` multiplication: IEEE binary64
/// arithmetic, a pure function of the two operand bit patterns.
#[verifier::external_body]
pub(crate) fn num_mul(a: u64, b: u64) -> (r: u64)
    ensures
        r == mul_bits(a, b),
{
    let x = rustc_apfloat::ieee::Double::from_bits(a as u128);
    let y = rustc_apfloat::ieee::Double::from_bits(b as u128);
    (x * y).value.to_bits() as u64
}

/// Relies on `rustc_apfloat::ieee::Double` division: IEEE binary64 arithmetic,
/// a pure function of the two operand bit patterns; division by zero follows
/// IEEE-754 and yields an infinity or NaN bit pattern rather than an error.
#[verifier::external_body]
pub(crate) fn num_div(a: u64, b: u64) -> (r: u64)
    ensures
        r == div_bits(a, b),
{
    let x = rustc_apfloat::ieee::Double::from_bits(a as u128);
    let y = rustc_apfloat::ieee::Double::from_bits(b as u128);
    (x / y).value.to_bits() as u64
}

/// Sum of two numeric values.
pub fn value_add(a: Value, b: Value) -> (r: Value)
    requires
        a is Num,
        b is Num,
    ensures
        r == Value::Num(add_bits(a->Num_0, b->Num_0)),
{
    match (a, b) {
        (Value::Num(x), Value::Num(y)) => Value::Num(num_add(x, y)),
        _ => Value::Nil,
    }
}

/// Difference of two numeric values.
pub fn value_sub(a: Value, b: Value) -> (r: Value)
    requires
        a is Num,
        b is Num,
    ensures
        r == Value::Num(sub_bits(a->Num_0, b->Num_0)),
{
    match (a, b) {
        (Value::Num(x), Value::Num(y)) => Value::Num(num_sub(x, y)),
        _ => Value::Nil,
    }
}

/// Product of two numeric values.
pub fn value_mul(a: Value, b: Value) -> (r: Value)
    requires
        a is Num,
        b is Num,
    ensures
        r == Value::Num(mul_bits(a->Num_0, b->Num_0)),
{
    match (a, b) {
        (Value::Num(x), Value::Num(y)) => Value::Num(num_mul(x, y)),
        _ => Value::Nil,
    }
}

/// Quotient of two numeric values.
pub fn value_div(a: Value, b: Value) -> (r: Value)
    requires
        a is Num,
        b is Num,
    ensures
        r == Value::Num(div_bits(a->Num_0, b->Num_0)),
{
    match (a, b) {
        (Value::Num(x), Value::Num(y)) => Value::Num(num_div(x, y)),
        _ => Value::Nil,
    }
}

/// Negation of a numeric value: the sign bit flips, nothing else moves.
pub fn value_neg(a: Value) -> (r: Value)
    requires
        a is Num,
    ensures
        r == Value::Num(neg_bits(a->Num_0)),
{
    match a {
        Value::Num(x) => Value::Num(x ^ 0x8000_0000_0000_0000),
        Value::Nil => Value::Nil,
    }
}


/// The decimal rendering of the IEEE-754 number with bit pattern `bits`, as
/// the trusted formatter below produces it: a pure function of the bits.
pub uninterp spec fn num_text(bits: u64) -> Seq<char>;

/// Relies on `rustc_apfloat::ieee::Double`'s `Display`: a deterministic
/// decimal rendering computed from the bit pattern alone.
#[verifier::external_body]
pub(crate) fn num_to_string(bits: u64) -> (r: String)
    ensures
        r@ == num_text(bits),
{
    format!("{}", rustc_apfloat::ieee::Double::from_bits(bits as u128))
}

/// The textual rendering of a value: `nil` for the absent value, the decimal
/// rendering of the number otherwise.
pub open spec fn value_text(v: Value) -> Seq<char> {
    match v {
        Value::Nil => "nil"@,
        Value::Num(b) => num_text(b),
    }
}

/// Renders a value as text.
pub fn value_to_string(v: &Value) -> (r: String)
    ensures
        r@ == value_text(*v),
{
    match v {
        Value::Nil => "nil".to_owned(),
        Value::Num(b) => num_to_string(*b),
    }
}

} // verus!
