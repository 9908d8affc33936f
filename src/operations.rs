use vstd::prelude::*;

use crate::errors::LPError;

verus! {

/// Whether an integer fits in `i128`.
pub open spec fn in_i128(v: int) -> bool {
    i128::MIN <= v <= i128::MAX
}

/// `v` as an `i128`, or the error `e` when it does not fit.
pub open spec fn checked(v: int, e: LPError) -> Result<i128, LPError> {
    if in_i128(v) {
        Ok(v as i128)
    } else {
        Err(e)
    }
}

/// Integer division rounded toward zero.
pub open spec fn trunc_div(x: int, d: int) -> int
    recommends
        d != 0,
{
    let q = (if x < 0 { -x } else { x }) / (if d < 0 { -d } else { d });
    if (x < 0) != (d < 0) {
        -q
    } else {
        q
    }
}

/// `x / d` rounded toward zero; division by zero is an underflow.
pub open spec fn checked_quotient(x: int, d: int) -> Result<i128, LPError> {
    if d == 0 {
        Err(LPError::UnderflowError)
    } else {
        checked(trunc_div(x, d), LPError::UnderflowError)
    }
}

/// Adds two amounts, failing with `OverflowError` when the sum leaves `i128`.
pub fn sum(number: &i128, addend: &i128) -> (r: Result<i128, LPError>)
    ensures
        r == checked(*number + *addend, LPError::OverflowError),
{
    match number.checked_add(*addend) {
        Some(v) => Ok(v),
        None => Err(LPError::OverflowError),
    }
}

/// Subtracts two amounts, failing with `UnderflowError` when the difference leaves `i128`.
pub fn subtract(number: &i128, subtrahend: &i128) -> (r: Result<i128, LPError>)
    ensures
        r == checked(*number - *subtrahend, LPError::UnderflowError),
{
    match number.checked_sub(*subtrahend) {
        Some(v) => Ok(v),
        None => Err(LPError::UnderflowError),
    }
}

/// Multiplies two amounts, failing with `OverflowError` when the product leaves `i128`.
pub fn multiply(number: &i128, multiplier: &i128) -> (r: Result<i128, LPError>)
    ensures
        r == checked(*number * *multiplier, LPError::OverflowError),
{
    match number.checked_mul(*multiplier) {
        Some(v) => Ok(v),
        None => Err(LPError::OverflowError),
    }
}

/// Divides, rounding toward zero; division by zero and overflow are `UnderflowError`.
pub fn divide(number: &i128, divisor: &i128) -> (r: Result<i128, LPError>)
    ensures
        r == checked_quotient(*number as int, *divisor as int),
{
    match number.checked_div(*divisor) {
        Some(v) => Ok(v),
        None => Err(LPError::UnderflowError),
    }
}

} // verus!
