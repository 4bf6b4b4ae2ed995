//! The shared sparse file whose position lock the threads contend for.

use vstd::prelude::*;

use crate::text::{decimal, push_decimal};

verus! {

/// The smallest size of the file: a large sparse extent avoids frequent offset
/// rewinds without performing storage I/O or consuming corresponding disk space.
pub const MIN_GATE_BYTES: u64 = 68_719_476_736;

/// How many reads the file has room for.
pub const GATE_READS: u64 = 1024;

/// The size of the file for reads of `lock_bytes` bytes: room for a fixed number of
/// reads, as far as 64 bits allow, and never less than the smallest size.
pub fn gate_file_len(lock_bytes: usize) -> (len: u64)
    ensures
        len == if lock_bytes * GATE_READS > u64::MAX {
            u64::MAX
        } else if lock_bytes * GATE_READS > MIN_GATE_BYTES {
            (lock_bytes * GATE_READS) as u64
        } else {
            MIN_GATE_BYTES
        },
        len >= 64 * 1024 * 1024 * 1024,
        len >= lock_bytes * 1024 || len == u64::MAX,
        len == 64 * 1024 * 1024 * 1024 || len == lock_bytes * 1024 || len == u64::MAX,
{
    let working_set: u128 = lock_bytes as u128 * 1024;
    if working_set > u64::MAX as u128 {
        u64::MAX
    } else if working_set > MIN_GATE_BYTES as u128 {
        working_set as u64
    } else {
        MIN_GATE_BYTES
    }
}

/// The name of the file of the process `pid`, created at `now_ns`.
pub fn gate_file_name(pid: u32, now_ns: u64) -> (name: String)
    ensures
        name@ == "proxy-demo-"@ + decimal(pid as nat) + "-"@ + decimal(now_ns as nat) + ".sparse"@,
{
    let mut name = "proxy-demo-".to_owned();
    push_decimal(&mut name, pid as u128);
    name.append("-");
    push_decimal(&mut name, now_ns as u128);
    name.append(".sparse");
    name
}

/// Whether to go back to the start of the file after a read that returned
/// `bytes_read` bytes: a read returns nothing at the end.
pub fn rewind_after(bytes_read: usize) -> (rewind: bool)
    ensures
        rewind <==> bytes_read == 0,
{
    bytes_read == 0
}

} // verus!
