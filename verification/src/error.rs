//! What can go wrong: requests that are rejected before any work is done,
//! and failures of the store or of the destination while work is under way.

use vstd::prelude::*;
use crate::object::ObjectId;
use crate::object::ObjectRef;

verus! {

/// Why a request was rejected before any I/O began.
#[derive(Clone, Copy, Debug, PartialEq, Eq, Structural)]
pub enum InvalidArgument {
    /// The stripe length is zero.
    ZeroStripeLength,
    /// The object to transfer holds no bytes.
    EmptyObject,
    /// The seed of a composition chain holds no bytes.
    EmptySeed,
    /// The fan-in is below two, so that composing cannot grow an object.
    FanInTooSmall,
    /// The requested sizes are not in strictly increasing order.
    TargetsNotIncreasing,
    /// The given size cannot be composed from whole copies of the nearest
    /// tier at or below it, or lies below the seed's size.
    TargetUnreachable(u64),
    /// A compose call was asked for without any source.
    NoSources,
    /// A compose call was asked for with more sources than the store
    /// takes in one call.
    FanInExceeded { requested: u32, limit: u32 },
    /// The composed object would hold more bytes than can be counted.
    SizeOverflow,
    /// The byte range ends beyond the largest position that can be
    /// addressed.
    RangeOverflow,
    /// No stripe may be in flight at a time.
    ZeroConcurrency,
}

/// The status code of a failure of which nothing more is known.
pub const UNKNOWN: i32 = 2;

/// The status code of a call that names something that does not exist.
pub const NOT_FOUND: i32 = 5;

/// A failure that the store reported. Of what the store says, only the
/// status code is kept; the message stays with the caller.
#[derive(Clone, Copy, Debug, PartialEq, Eq, Structural)]
pub struct StoreError {
    /// The status code of the failed call.
    pub code: i32,
}

impl StoreError {
    /// The failure with the status code that the store sent, or with
    /// `UNKNOWN` where it sent none.
    pub fn from_status(code: Option<i32>) -> (error: StoreError)
        ensures
            error.code == (match code {
                Some(sent) => sent,
                None => UNKNOWN,
            }),
    {
        match code {
            Some(sent) => StoreError { code: sent },
            None => StoreError { code: UNKNOWN },
        }
    }

    /// Whether the call failed because what it names does not exist.
    pub fn is_not_found(&self) -> (missing: bool)
        ensures
            missing == (self.code == NOT_FOUND),
    {
        self.code == NOT_FOUND
    }
}

/// A build that was given up because a compose call failed. Objects that
/// earlier calls made stay in the store.
#[derive(Clone, Copy, Debug, PartialEq, Eq, Structural)]
pub struct BuildError {
    /// The size of the object that could not be composed.
    pub size_bytes: u64,
    /// What the store reported.
    pub cause: StoreError,
}

/// What went wrong while one stripe was fetched.
#[derive(Clone, Copy, Debug, PartialEq, Eq, Structural)]
pub enum Fault {
    /// The store failed the read or broke the stream off.
    Store(StoreError),
    /// Writing to the destination failed with the given system error code.
    Io { code: i32 },
    /// The stream ended after `actual` bytes where `expected` were due.
    ShortRead { expected: u64, actual: u64 },
    /// The stream went on after the `expected` bytes of the stripe.
    ExcessData { expected: u64 },
}

/// A failed stripe: which object and generation was read, which byte range
/// of it, and what went wrong.
#[derive(Debug, PartialEq, Eq)]
pub struct TransferError {
    /// The object that was read, at the pinned generation.
    pub object: ObjectRef,
    /// Where the stripe starts.
    pub offset: u64,
    /// How many bytes the stripe holds.
    pub length: u64,
    /// What went wrong.
    pub fault: Fault,
}

/// A failed stripe as plain values.
pub struct FailedStripe {
    pub object: ObjectId,
    pub offset: int,
    pub length: int,
    pub fault: Fault,
}

impl View for TransferError {
    type V = FailedStripe;

    open spec fn view(&self) -> FailedStripe {
        FailedStripe {
            object: self.object@,
            offset: self.offset as int,
            length: self.length as int,
            fault: self.fault,
        }
    }
}

impl Clone for TransferError {
    fn clone(&self) -> (copy: Self)
        ensures
            copy@ == self@,
    {
        TransferError {
            object: self.object.clone(),
            offset: self.offset,
            length: self.length,
            fault: self.fault,
        }
    }
}

} // verus!
