//! Sizing of the pipes that carry image pages from the checkpoint engine:
//! larger pipes avoid head-of-line blocking under bursts of page writes,
//! but the kernel may refuse a size, in which case the streamer halves it
//! down to the page size.

use vstd::prelude::*;

verus! {

/// The pipe capacity the streamer asks for first: the checkpoint engine
/// has difficulties with pipes larger than four mebibytes.
pub fn desired_pipe_capacity() -> (r: u64)
    ensures
        r == 4194304,
{
    4 * 1024 * 1024
}

/// The next capacity to try after the kernel refused one: half of it, as
/// long as the refused capacity still exceeded the page size; below that
/// there is nothing left to try.
pub fn halved_capacity(capacity: u64, page_size: u64) -> (r: Option<u64>)
    ensures
        r == if capacity > page_size {
            Some((capacity / 2) as u64)
        } else {
            None::<u64>
        },
{
    if capacity > page_size {
        Some(capacity / 2)
    } else {
        None
    }
}

} // verus!
