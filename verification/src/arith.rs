//! Small arithmetic helpers.

use vstd::prelude::*;

verus! {

/// The sum of two numbers.
pub fn add_numbers(num1: i32, num2: i32) -> (r: i32)
    requires
        i32::MIN <= num1 + num2 <= i32::MAX,
    ensures
        r == num1 + num2,
{
    num1 + num2
}

/// The sum of two numbers, returned with an explicit return statement.
pub fn add_numbers_explicit_return(num1: i32, num2: i32) -> (r: i32)
    requires
        i32::MIN <= num1 + num2 <= i32::MAX,
    ensures
        r == num1 + num2,
{
    return num1 + num2;
}

} // verus!
