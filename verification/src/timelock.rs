//! What the lock time of a transaction and the sequence of an input mean.

use vstd::prelude::*;
use crate::transaction::Transaction;
use crate::transaction::TxIn;

verus! {

/// The least lock time that is a time stamp: smaller ones are block heights.
pub const LOCK_TIME_THRESHOLD: u32 = 500_000_000;

/// The meaning of a lock time.
#[derive(Clone, Copy, Debug, PartialEq, Eq, Structural)]
pub enum LockTime {
    /// The height of the first block that may hold the transaction.
    BlockHeight(u32),
    /// The time from which the transaction may be held, in seconds since
    /// 1970.
    Timestamp(u32),
}

/// The relative lock that a sequence number asks for.
#[derive(Clone, Copy, Debug, PartialEq, Eq, Structural)]
pub enum RelativeLock {
    /// A number of blocks.
    Blocks(u16),
    /// A number of intervals of 512 seconds.
    Intervals(u16),
}

/// A lock time below the threshold is a block height, any other a time
/// stamp.
pub open spec fn lock_time_meaning(lock_time: u32) -> LockTime {
    if lock_time < LOCK_TIME_THRESHOLD {
        LockTime::BlockHeight(lock_time)
    } else {
        LockTime::Timestamp(lock_time)
    }
}

/// A sequence number with its top bit set asks for no relative lock. With
/// the top bit clear its low 16 bits are the length of the lock, counted in
/// intervals of 512 seconds when bit 22 is set and in blocks when it is
/// clear.
pub open spec fn relative_lock_meaning(sequence: u32) -> Option<RelativeLock> {
    let length = (sequence % 0x1_0000) as u16;
    if sequence >= 0x8000_0000 {
        None
    } else if (sequence / 0x40_0000) % 2 == 1 {
        Some(RelativeLock::Intervals(length))
    } else {
        Some(RelativeLock::Blocks(length))
    }
}

impl Transaction {
    /// The meaning of the lock time.
    pub fn lock_time_meaning(&self) -> (meaning: LockTime)
        ensures
            meaning == lock_time_meaning(self.lock_time),
    {
        if self.lock_time < LOCK_TIME_THRESHOLD {
            LockTime::BlockHeight(self.lock_time)
        } else {
            LockTime::Timestamp(self.lock_time)
        }
    }
}

impl TxIn {
    /// The relative lock that the sequence number asks for, if any.
    pub fn relative_lock(&self) -> (lock: Option<RelativeLock>)
        ensures
            lock == relative_lock_meaning(self.sequence),
    {
        let length = (self.sequence % 0x1_0000) as u16;
        if self.sequence >= 0x8000_0000 {
            None
        } else if (self.sequence / 0x40_0000) % 2 == 1 {
            Some(RelativeLock::Intervals(length))
        } else {
            Some(RelativeLock::Blocks(length))
        }
    }
}

} // verus!
