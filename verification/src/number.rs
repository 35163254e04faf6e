//! Numbers of the language are IEEE-754 binary64 values. The library holds
//! each one as its 64-bit pattern; the operations that need rounding
//! (arithmetic, decimal conversion) are delegated to the `rustc_apfloat`
//! software implementation, and the ones that are pure bit logic
//! (sign, negation, zero and NaN tests, equality, ordering) are verified here.
use rustc_apfloat::ieee::Double;
use rustc_apfloat::Float;
use std::str::FromStr;
use vstd::prelude::*;


verus! {

pub const SIGN_BIT: u64 = 0x8000_0000_0000_0000;
pub const INF_BITS: u64 = 0x7FF0_0000_0000_0000;

/// The bits of the value with the sign bit cleared.
pub open spec fn magnitude(b: u64) -> u64 {
    (b % SIGN_BIT) as u64
}

pub open spec fn is_negative(b: u64) -> bool {
    b >= SIGN_BIT
}

pub open spec fn is_nan(b: u64) -> bool {
    magnitude(b) > INF_BITS
}

pub open spec fn is_infinite(b: u64) -> bool {
    magnitude(b) == INF_BITS
}

/// Positive or negative zero.
pub open spec fn is_zero(b: u64) -> bool {
    magnitude(b) == 0
}

/// IEEE negation flips the sign bit.
pub open spec fn negated(b: u64) -> u64 {
    if is_negative(b) { (b - SIGN_BIT) as u64 } else { (b + SIGN_BIT) as u64 }
}

/// For values that are not NaN, the order of the numbers is the order of
/// this key: binary64 encodes magnitudes monotonically, and both zeros map to 0.
pub open spec fn order_key(b: u64) -> int {
    if is_negative(b) { -(magnitude(b) as int) } else { magnitude(b) as int }
}

/// IEEE equality: NaN equals nothing, and the two zeros are equal.
pub open spec fn num_eq(a: u64, b: u64) -> bool {
    !is_nan(a) && !is_nan(b) && order_key(a) == order_key(b)
}

/// Three-way result of comparing two values.
#[derive(PartialEq, Eq, Structural, Clone, Copy, Debug)]
pub enum Order {
    Less,
    Equal,
    Greater,
}

/// IEEE partial order: `None` when either side is NaN.
pub open spec fn num_order(a: u64, b: u64) -> Option<Order> {
    if is_nan(a) || is_nan(b) {
        None
    } else if order_key(a) < order_key(b) {
        Some(Order::Less)
    } else if order_key(a) == order_key(b) {
        Some(Order::Equal)
    } else {
        Some(Order::Greater)
    }
}

pub fn magnitude_of(b: u64) -> (r: u64)
    ensures
        r == magnitude(b),
{
    b % SIGN_BIT
}

pub fn nan_test(b: u64) -> (r: bool)
    ensures
        r == is_nan(b),
{
    b % SIGN_BIT > INF_BITS
}

pub fn zero_test(b: u64) -> (r: bool)
    ensures
        r == is_zero(b),
{
    b % SIGN_BIT == 0
}

/// `-x`
pub fn negate(b: u64) -> (r: u64)
    ensures
        r == negated(b),
{
    if b >= SIGN_BIT { b - SIGN_BIT } else { b + SIGN_BIT }
}

/// `x == y`
pub fn equal_numbers(a: u64, b: u64) -> (r: bool)
    ensures
        r == num_eq(a, b),
{
    if nan_test(a) || nan_test(b) {
        false
    } else {
        let ma = magnitude_of(a);
        let mb = magnitude_of(b);
        if ma == 0 && mb == 0 {
            true
        } else {
            a == b
        }
    }
}

/// `x.partial_cmp(&y)`
pub fn order_numbers(a: u64, b: u64) -> (r: Option<Order>)
    ensures
        r == num_order(a, b),
{
    if nan_test(a) || nan_test(b) {
        return None;
    }
    let ma = magnitude_of(a);
    let mb = magnitude_of(b);
    let na = a >= SIGN_BIT;
    let nb = b >= SIGN_BIT;
    if ma == 0 && mb == 0 {
        Some(Order::Equal)
    } else if !na && !nb {
        if ma < mb { Some(Order::Less) } else if ma == mb { Some(Order::Equal) } else { Some(Order::Greater) }
    } else if na && nb {
        if ma > mb { Some(Order::Less) } else if ma == mb { Some(Order::Equal) } else { Some(Order::Greater) }
    } else if na {
        Some(Order::Less)
    } else {
        Some(Order::Greater)
    }
}

// ---------------------------------------------------------------------
// Rounded operations, computed by rustc_apfloat.
// ---------------------------------------------------------------------

/// The binary64 sum of two values, rounded to nearest, ties to even.
pub uninterp spec fn float_add(a: u64, b: u64) -> u64;
/// The binary64 difference `a - b`, rounded to nearest, ties to even.
pub uninterp spec fn float_sub(a: u64, b: u64) -> u64;
/// The binary64 product, rounded to nearest, ties to even.
pub uninterp spec fn float_mul(a: u64, b: u64) -> u64;
/// The binary64 quotient `a / b`, rounded to nearest, ties to even.
pub uninterp spec fn float_div(a: u64, b: u64) -> u64;
/// The remainder of `a / b` truncated toward zero (C `fmod`, Rust `%`).
pub uninterp spec fn float_rem(a: u64, b: u64) -> u64;
/// The binary64 value nearest to the decimal text (`None` when the text is
/// not a decimal number that rustc_apfloat reads).
pub uninterp spec fn decimal_value(text: Seq<char>) -> Option<u64>;
/// rustc_apfloat's scientific rendering of a value (`Display` with width 0)
/// rounded to `digits` significant digits, such as `1.25E+3`.
pub uninterp spec fn scientific_text(b: u64, digits: nat) -> Seq<char>;

/// `<rustc_apfloat::ieee::Double as Add>::add` on the two values; the
/// contract claims only that the bits of the sum are `float_add(a, b)`.
#[verifier::external_body]
pub(crate) fn add_numbers(a: u64, b: u64) -> (r: u64)
    ensures
        r == float_add(a, b),
{
    (Double::from_bits(a as u128) + Double::from_bits(b as u128)).value.to_bits() as u64
}

/// `<rustc_apfloat::ieee::Double as Sub>::sub` on the two values; the
/// contract claims only that the bits of the difference are `float_sub(a, b)`.
#[verifier::external_body]
pub(crate) fn sub_numbers(a: u64, b: u64) -> (r: u64)
    ensures
        r == float_sub(a, b),
{
    (Double::from_bits(a as u128) - Double::from_bits(b as u128)).value.to_bits() as u64
}

/// `<rustc_apfloat::ieee::Double as Mul>::mul` on the two values; the
/// contract claims only that the bits of the product are `float_mul(a, b)`.
#[verifier::external_body]
pub(crate) fn mul_numbers(a: u64, b: u64) -> (r: u64)
    ensures
        r == float_mul(a, b),
{
    (Double::from_bits(a as u128) * Double::from_bits(b as u128)).value.to_bits() as u64
}

/// `<rustc_apfloat::ieee::Double as Div>::div` on the two values; the
/// contract claims only that the bits of the quotient are `float_div(a, b)`.
#[verifier::external_body]
pub(crate) fn div_numbers(a: u64, b: u64) -> (r: u64)
    ensures
        r == float_div(a, b),
{
    (Double::from_bits(a as u128) / Double::from_bits(b as u128)).value.to_bits() as u64
}

/// `<rustc_apfloat::ieee::Double as Rem>::rem` (its `c_fmod`) on the two
/// values; the contract claims only that the bits are `float_rem(a, b)`.
#[verifier::external_body]
pub(crate) fn rem_numbers(a: u64, b: u64) -> (r: u64)
    ensures
        r == float_rem(a, b),
{
    (Double::from_bits(a as u128) % Double::from_bits(b as u128)).value.to_bits() as u64
}

/// The longest text `parse_decimal` reads: its digit counts must stay
/// within the 32-bit arithmetic of rustc_apfloat's reader.
pub const MAX_NUMBER_TEXT: usize = 0xFF_FFFF;

/// A plain decimal numeral: ASCII digits, beginning with one, with at most
/// one `.` among them.
pub open spec fn plain_decimal(t: Seq<char>) -> bool {
    &&& t.len() >= 1
    &&& '0' <= t[0] && t[0] <= '9'
    &&& forall|k: int| 0 <= k < t.len() ==> ('0' <= #[trigger] t[k] && t[k] <= '9') || t[k] == '.'
    &&& forall|k: int, l: int| 0 <= k < l < t.len() && #[trigger] t[k] == '.' ==> #[trigger] t[l] != '.'
}

/// `<Double as FromStr>::from_str` on the text. The contract claims that
/// the result is a function of the text, and that a plain decimal numeral
/// always reads (`from_str_r` then `from_decimal_string` reject only empty
/// texts, stray characters, a second `.` and malformed exponents). The
/// text must be short: the reader computes with the digit count in `i32`
/// and in `196 * digits`, which longer texts overflow.
#[verifier::external_body]
pub(crate) fn parse_decimal(text: &str) -> (r: Option<u64>)
    requires
        text@.len() <= MAX_NUMBER_TEXT,
    ensures
        r == decimal_value(text@),
        plain_decimal(text@) ==> r is Some,
{
    match Double::from_str(text) {
        Ok(d) => Some(d.to_bits() as u64),
        Err(_) => None,
    }
}

/// `<Double as Display>::fmt` with width 0 and precision `digits`; the
/// contract claims only that the text is a function of the two arguments.
/// The precision is at least 1, since with none the formatter can drop
/// every digit and fail its own check, and at most 40 (what the library
/// asks for), far below where its `precision * 196 + 58` would overflow.
#[verifier::external_body]
pub(crate) fn scientific(b: u64, digits: usize) -> (r: String)
    requires
        1 <= digits <= 40,
    ensures
        r@ == scientific_text(b, digits as nat),
{
    format!("{:w$.p$}", Double::from_bits(b as u128), w = 0, p = digits)
}

} // verus!
