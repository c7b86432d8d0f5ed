//! Enums: a result that may be missing.

use vstd::prelude::*;

verus! {

/// The first place at which the target stands in the list, if it stands
/// there at all.
pub fn find_element(arr: &[i32], target: i32) -> (place: Option<usize>)
    ensures
        match place {
            Some(index) => {
                &&& index < arr@.len()
                &&& arr@[index as int] == target
                &&& forall|k: int| 0 <= k < index ==> arr@[k] != target
            },
            None => forall|k: int| 0 <= k < arr@.len() ==> arr@[k] != target,
        },
{
    let mut index: usize = 0;
    while index < arr.len()
        invariant
            0 <= index <= arr.len(),
            forall|k: int| 0 <= k < index ==> arr@[k] != target,
        decreases arr.len() - index,
    {
        if arr[index] == target {
            return Some(index);
        }
        index += 1;
    }
    None
}

} // verus!
