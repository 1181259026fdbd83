pub mod array;
pub mod batch;
pub mod dtype;
pub mod error;
pub mod idx;
pub mod laws;
pub mod mem;
pub mod nkv;
pub mod npy;
pub mod shared;

use vstd::prelude::*;

verus! {

/// Converts an element count to the 32-bit signed width expected by
/// numeric kernel bindings.
pub fn sz2int(sz: usize) -> (r: i32)
    requires
        sz <= i32::MAX as usize,
    ensures
        r as usize == sz,
{
    sz as i32
}

} // verus!
