//! Choosing the sector size to work with from what the device reported.
use vstd::prelude::*;

verus! {

/// The sector size used for a device: the logical block size it reported when that is
/// 512 or 4096, and 512 when it reported another value or the query failed (`None`).
pub open spec fn usable_sector_size(reported: Option<i32>) -> u64 {
    match reported {
        Some(n) => if n == 4096 { 4096 } else { 512 },
        None => 512,
    }
}

/// The sector size to use, given the device's answer to a logical-block-size query.
/// Never fails: the result is always 512 or 4096.
pub fn sector_size_from_query(reported: Option<i32>) -> (r: u64)
    ensures
        r == usable_sector_size(reported),
        r == 512 || r == 4096,
{
    match reported {
        Some(n) => if n == 4096 {
            4096
        } else {
            512
        },
        None => 512,
    }
}

} // verus!
