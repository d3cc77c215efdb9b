//! Low-level helpers shared by the maps: the byte comparator primitive.

use vstd::prelude::*;

verus! {

/// Compares the first `size` bytes of two byte ranges.
///
/// Returns the offset of the first position at which the two ranges differ,
/// or `None` when the compared prefixes are identical.
pub fn mem_cmp(left: &[u8], right: &[u8], size: usize) -> (r: Option<usize>)
    requires
        size <= left@.len(),
        size <= right@.len(),
    ensures
        match r {
            None => forall|j: int| 0 <= j < size ==> left@[j] == right@[j],
            Some(i) => {
                &&& i < size
                &&& left@[i as int] != right@[i as int]
                &&& forall|j: int| 0 <= j < i ==> left@[j] == right@[j]
            },
        },
{
    // Compare the two ranges byte-by-byte.
    let mut i: usize = 0;
    while i < size
        invariant
            i <= size,
            size <= left@.len(),
            size <= right@.len(),
            forall|j: int| 0 <= j < i ==> left@[j] == right@[j],
        decreases size - i,
    {
        if left[i] != right[i] {
            return Some(i);
        }
        i += 1;
    }

    None
}

} // verus!
