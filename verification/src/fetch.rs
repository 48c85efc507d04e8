//! Fetching one stripe: where each chunk of the stream goes, and when the
//! stripe is done.
//!
//! A fetch makes no call. It is told how long each chunk of the stream is,
//! says at which absolute position of the destination the chunk belongs,
//! and keeps every write inside the stripe's own byte range.

use vstd::prelude::*;
use crate::error::FailedStripe;
use crate::error::Fault;
use crate::error::InvalidArgument;
use crate::error::StoreError;
use crate::error::TransferError;
use crate::object::ObjectId;
use crate::object::ObjectRef;
use crate::stripe::Stripe;

verus! {

/// The progress of one stripe: the object and generation that it reads,
/// its byte range, and how many bytes of it have been placed so far.
#[derive(Debug)]
pub struct StripeFetch {
    object: ObjectRef,
    stripe: Stripe,
    written: u64,
}

impl StripeFetch {
    #[verifier::type_invariant]
    spec fn inv(self) -> bool {
        &&& self.stripe.offset + self.stripe.length <= u64::MAX
        &&& self.written <= self.stripe.length
    }

    /// The object that the stripe is read from, at the pinned generation.
    pub closed spec fn source(self) -> ObjectId {
        self.object@
    }

    /// The byte range that the fetch fills.
    pub closed spec fn range(self) -> Stripe {
        self.stripe
    }

    /// How many bytes have been placed so far.
    pub closed spec fn placed(self) -> nat {
        self.written as nat
    }

    /// The failure of this stripe with the given fault.
    pub open spec fn failure(self, fault: Fault) -> FailedStripe {
        FailedStripe {
            object: self.source(),
            offset: self.range().offset as int,
            length: self.range().length as int,
            fault,
        }
    }

    /// Starts the fetch of `stripe` from the given generation of an
    /// object. A stripe that ends beyond the largest position that can be
    /// addressed is rejected.
    pub fn new(object: ObjectRef, stripe: Stripe) -> (result: Result<StripeFetch, InvalidArgument>)
        ensures
            match result {
                Ok(fetch) => stripe.end() <= u64::MAX && fetch.source() == object@ && fetch.range()
                    == stripe && fetch.placed() == 0,
                Err(e) => stripe.end() > u64::MAX && e == InvalidArgument::RangeOverflow,
            },
    {
        if stripe.length > u64::MAX - stripe.offset {
            return Err(InvalidArgument::RangeOverflow);
        }
        Ok(StripeFetch { object, stripe, written: 0 })
    }

    /// The object to read, at the generation that the fetch is pinned to.
    pub fn object(&self) -> (object: &ObjectRef)
        ensures
            object@ == self.source(),
    {
        &self.object
    }

    /// The byte range to ask the store for.
    pub fn stripe(&self) -> (stripe: Stripe)
        ensures
            stripe == self.range(),
            0 <= self.placed() <= stripe.length,
            stripe.end() <= u64::MAX,
    {
        proof {
            use_type_invariant(self);
        }
        self.stripe
    }

    /// The absolute position at which the next chunk belongs.
    pub fn position(&self) -> (position: u64)
        ensures
            position == self.range().offset + self.placed(),
    {
        proof {
            use_type_invariant(self);
        }
        self.stripe.offset + self.written
    }

    /// How many bytes of the stripe are still due.
    pub fn remaining(&self) -> (remaining: u64)
        ensures
            remaining == self.range().length - self.placed(),
    {
        proof {
            use_type_invariant(self);
        }
        self.stripe.length - self.written
    }

    /// Takes note of a chunk of `chunk_len` bytes and returns the absolute
    /// position at which it is to be written. A chunk that would reach
    /// beyond the stripe's range is refused, and the fetch stays as it was.
    pub fn accept(&mut self, chunk_len: usize) -> (result: Result<u64, TransferError>)
        ensures
            final(self).source() == old(self).source(),
            final(self).range() == old(self).range(),
            match result {
                Ok(position) => {
                    &&& old(self).placed() + chunk_len <= old(self).range().length
                    &&& position == old(self).range().offset + old(self).placed()
                    &&& old(self).range().offset <= position
                    &&& position + chunk_len <= old(self).range().end() <= u64::MAX
                    &&& final(self).placed() == old(self).placed() + chunk_len
                },
                Err(e) => {
                    &&& old(self).placed() + chunk_len > old(self).range().length
                    &&& final(self).placed() == old(self).placed()
                    &&& e@ == old(self).failure(
                        Fault::ExcessData { expected: old(self).range().length },
                    )
                },
            },
    {
        proof {
            use_type_invariant(&*self);
        }
        let due: u64 = self.stripe.length - self.written;
        if chunk_len as u64 > due {
            return Err(self.fail(Fault::ExcessData { expected: self.stripe.length }));
        }
        let position: u64 = self.stripe.offset + self.written;
        self.written = self.written + chunk_len as u64;
        Ok(position)
    }

    /// Called when the stream has ended: the stripe's length if all of it
    /// has been placed, and a short read otherwise.
    pub fn finish(&self) -> (result: Result<u64, TransferError>)
        ensures
            match result {
                Ok(bytes) => self.placed() == self.range().length && bytes == self.range().length,
                Err(e) => self.placed() < self.range().length && e@ == self.failure(
                    Fault::ShortRead {
                        expected: self.range().length,
                        actual: self.placed() as u64,
                    },
                ),
            },
    {
        proof {
            use_type_invariant(self);
        }
        if self.written < self.stripe.length {
            return Err(
                self.fail(Fault::ShortRead { expected: self.stripe.length, actual: self.written }),
            );
        }
        Ok(self.stripe.length)
    }

    /// The failure to report when the store failed the read, or broke the
    /// stream off, with the given status code.
    pub fn store_failed(&self, code: i32) -> (error: TransferError)
        ensures
            error@ == self.failure(Fault::Store(StoreError { code })),
    {
        self.fail(Fault::Store(StoreError { code }))
    }

    /// The failure to report when a write to the destination failed with
    /// the given system error code.
    pub fn io_failed(&self, code: i32) -> (error: TransferError)
        ensures
            error@ == self.failure(Fault::Io { code }),
    {
        self.fail(Fault::Io { code })
    }

    fn fail(&self, fault: Fault) -> (error: TransferError)
        ensures
            error@ == self.failure(fault),
    {
        TransferError {
            object: self.object.clone(),
            offset: self.stripe.offset,
            length: self.stripe.length,
            fault,
        }
    }
}

} // verus!
