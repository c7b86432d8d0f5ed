//! Ownership: values that are handed out, and values that are handed back.

use vstd::prelude::*;

verus! {

/// A string that the caller owns from now on: `yours`.
pub fn gives_ownership() -> (text: String)
    ensures
        text@ == "yours"@,
{
    let some_string = "yours".to_owned();
    some_string
}

/// The string that was handed in, handed back.
pub fn takes_and_gives_back(a_string: String) -> (text: String)
    ensures
        text == a_string,
{
    a_string
}

} // verus!
