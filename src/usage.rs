use vstd::prelude::*;

use crate::error::{DiskError, DiskErrorView};

verus! {

/// Space of a mounted filesystem, in bytes.
#[derive(Clone, Copy, Debug, PartialEq, Eq, Structural)]
pub struct DiskSpace {
    /// Size of the filesystem
    pub total: u64,
    /// Space in use
    pub used: u64,
    /// Space free for unprivileged users
    pub free: u64,
}

/// The space of a filesystem from its block counts (total, free, free for
/// unprivileged users) and its fragment size; `None` when a value does not fit
/// or more blocks are free than exist.
pub open spec fn space_of(blocks: u64, bfree: u64, bavail: u64, frsize: u64) -> Option<DiskSpace> {
    if blocks * frsize > u64::MAX || bavail * frsize > u64::MAX || bfree > blocks {
        None
    } else {
        Some(
            DiskSpace {
                total: (blocks * frsize) as u64,
                used: ((blocks - bfree) * frsize) as u64,
                free: (bavail * frsize) as u64,
            },
        )
    }
}

/// The space of a filesystem from the block counts and fragment size that the
/// filesystem reports. Counts that overflow give `CounterOverflow`; more free
/// blocks than blocks give `MalformedInput`, with no text.
pub fn disk_space(blocks: u64, bfree: u64, bavail: u64, frsize: u64) -> (r: Result<DiskSpace, DiskError>)
    ensures
        match space_of(blocks, bfree, bavail, frsize) {
            Some(s) => r == Ok::<DiskSpace, DiskError>(s),
            None => if blocks * frsize <= u64::MAX && bavail * frsize <= u64::MAX {
                r matches Err(x) && x@ == DiskErrorView::MalformedInput(Seq::empty())
            } else {
                r matches Err(x) && x@ == DiskErrorView::CounterOverflow
            },
        },
{
    if frsize > 0 && (blocks > u64::MAX / frsize || bavail > u64::MAX / frsize) {
        assert(blocks * frsize > u64::MAX || bavail * frsize > u64::MAX) by (nonlinear_arith)
            requires
                frsize > 0,
                blocks > u64::MAX / frsize || bavail > u64::MAX / frsize,
        ;
        return Err(DiskError::CounterOverflow);
    }
    assert(blocks * frsize <= u64::MAX && bavail * frsize <= u64::MAX) by (nonlinear_arith)
        requires
            frsize == 0 || (blocks <= u64::MAX / frsize && bavail <= u64::MAX / frsize),
    ;
    if bfree > blocks {
        return Err(DiskError::MalformedInput(Vec::new()));
    }
    assert((blocks - bfree) * frsize <= blocks * frsize) by (nonlinear_arith)
        requires
            bfree <= blocks,
    ;
    let total = blocks * frsize;
    let used = (blocks - bfree) * frsize;
    let free = bavail * frsize;
    Ok(DiskSpace { total, used, free })
}

} // verus!
