//! Constants, and what can be computed from them.

use vstd::prelude::*;

verus! {

/// The first number and twice the second.
pub fn calculate_at_compile_time(a: i32, b: i32) -> (value: i32)
    requires
        i32::MIN <= b * 2 <= i32::MAX,
        i32::MIN <= a + b * 2 <= i32::MAX,
    ensures
        value == a + b * 2,
{
    a + b * 2
}

} // verus!
