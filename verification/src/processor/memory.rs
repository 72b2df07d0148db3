//! How much memory a conversion may take.
use vstd::prelude::*;

verus! {

/// How many mebibytes a conversion of a file is given: five times its size,
/// rounded up, at least one and at most all there is.
pub open spec fn permits(size: int, max_mb: int) -> int {
    let bytes = if size < 0 {
        0
    } else if size * 5 > u64::MAX {
        u64::MAX as int
    } else {
        size * 5
    };
    let rounded = if bytes + 1048575 > u64::MAX {
        u64::MAX as int
    } else {
        bytes + 1048575
    };
    let wanted = if rounded / 1048576 < 1 {
        1
    } else {
        rounded / 1048576
    };
    let limit = if max_mb < 1 {
        1
    } else {
        max_mb
    };
    (if wanted > limit {
        limit
    } else {
        wanted
    }) % 0x1_0000_0000
}

pub fn memory_permits_for_size(size: i64, max_memory_mb: usize) -> (r: u32)
    ensures
        r == permits(size as int, max_memory_mb as int),
{
    let positive: u64 = if size < 0 { 0 } else { size as u64 };
    let bytes: u64 = if positive > u64::MAX / 5 { u64::MAX } else { positive * 5 };
    let rounded: u64 = if bytes > u64::MAX - 1048575 { u64::MAX } else { bytes + 1048575 };
    let whole: u64 = rounded / 1048576;
    let wanted: u64 = if whole < 1 { 1 } else { whole };
    let limit: u64 = if max_memory_mb < 1 { 1 } else { max_memory_mb as u64 };
    let least: u64 = if wanted > limit { limit } else { wanted };
    (least % 0x1_0000_0000) as u32
}

// ---------------------------------------------------------------------------
// Laws
// ---------------------------------------------------------------------------
/// A conversion is given at least one mebibyte and never more than there is.
pub proof fn law_permits_within_budget(size: i64, max_mb: int)
    requires
        0 <= max_mb <= u32::MAX,
    ensures
        1 <= permits(size as int, max_mb),
        permits(size as int, max_mb) <= if max_mb < 1 {
            1
        } else {
            max_mb
        },
{
}

/// A larger file is given no less.
pub proof fn law_permits_grow(a: i64, b: i64, max_mb: int)
    requires
        a <= b,
        0 <= max_mb <= u32::MAX,
    ensures
        permits(a as int, max_mb) <= permits(b as int, max_mb),
{
}

/// A conversion is given five times the size of its file in whole mebibytes, rounded
/// up, where there is that much.
pub proof fn law_five_times_the_size(size: i64, max_mb: int)
    requires
        0 < size,
        size * 5 <= max_mb * 1048576,
        1 <= max_mb <= u32::MAX,
    ensures
        (permits(size as int, max_mb) - 1) * 1048576 < size * 5 <= permits(size as int, max_mb)
            * 1048576,
{
}

} // verus!
