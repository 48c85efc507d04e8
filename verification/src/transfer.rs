//! Coordinating the download of one object: pinning its generation,
//! handing out its stripes, and folding their outcomes into one result.

use vstd::prelude::*;
use crate::error::InvalidArgument;
use crate::error::TransferError;
use crate::fetch::StripeFetch;
use crate::object::ObjectId;
use crate::object::ObjectRef;
use crate::stripe::lemma_plan_partitions;
use crate::stripe::plan;
use crate::stripe::plan_outcome;
use crate::stripe::planned;
use crate::stripe::Stripe;
use crate::stripe::StripePlan;

verus! {

/// What a completed download amounts to.
#[derive(Clone, Copy, Debug, PartialEq, Eq, Structural)]
pub struct TransferResult {
    /// The number of bytes that were brought over: the object's size.
    pub bytes_transferred: u64,
    /// The number of stripes that the object was fetched in.
    pub stripe_count: u64,
    /// How long the download took, in microseconds.
    pub elapsed_micros: u64,
}

/// Whether outcome `i` is the first failure among the given outcomes.
pub open spec fn first_failure_at(outcomes: Seq<Result<u64, TransferError>>, i: int) -> bool {
    &&& 0 <= i < outcomes.len()
    &&& outcomes[i] is Err
    &&& forall|j: int| 0 <= j < i ==> (#[trigger] outcomes[j]) is Ok
}

/// The download of one object: the generation that every stripe reads,
/// and the stripes.
#[derive(Debug)]
pub struct Transfer {
    object: ObjectRef,
    plan: StripePlan,
}

impl Transfer {
    /// The object that is downloaded, at the generation that was pinned
    /// when the download began.
    pub closed spec fn source(self) -> ObjectId {
        self.object@
    }

    /// The plan of the download.
    pub closed spec fn planned(self) -> StripePlan {
        self.plan
    }

    /// Begins the download of the object `name`, of which the store
    /// reported the given size and generation, in stripes of
    /// `stripe_length` bytes. The generation is pinned for the whole
    /// download.
    ///
    /// A zero stripe length or an empty object is rejected.
    pub fn begin(name: &str, size: u64, generation: i64, stripe_length: u64) -> (result: Result<
        Transfer,
        InvalidArgument,
    >)
        ensures
            match result {
                Ok(transfer) => {
                    &&& plan_outcome(size, stripe_length) == Ok::<Seq<Stripe>, InvalidArgument>(
                        transfer.planned()@,
                    )
                    &&& transfer.planned().total() == size
                    &&& transfer.planned().nominal() == stripe_length
                    &&& transfer.source() == (ObjectId {
                        name: name@,
                        generation: generation as int,
                    })
                },
                Err(e) => plan_outcome(size, stripe_length) == Err::<Seq<Stripe>, InvalidArgument>(
                    e,
                ),
            },
    {
        match plan(size, stripe_length) {
            Ok(plan) => Ok(Transfer { object: ObjectRef::new(name, generation), plan }),
            Err(e) => Err(e),
        }
    }

    /// The object to read, at the pinned generation.
    pub fn object(&self) -> (object: &ObjectRef)
        ensures
            object@ == self.source(),
    {
        &self.object
    }

    /// The stripes of the download.
    pub fn plan(&self) -> (plan: &StripePlan)
        ensures
            *plan == self.planned(),
    {
        &self.plan
    }

    /// The fetch of stripe `index`, pinned to the generation of the
    /// download, with nothing placed yet; `None` when the plan has no such
    /// stripe.
    pub fn fetch(&self, index: usize) -> (fetch: Option<StripeFetch>)
        ensures
            fetch is Some <==> index < self.planned()@.len(),
            fetch matches Some(f) ==> {
                &&& f.source() == self.source()
                &&& f.range() == self.planned()@[index as int]
                &&& f.placed() == 0
            },
    {
        match self.plan.get(index) {
            Some(stripe) => {
                proof {
                    let total = self.plan.total();
                    let nominal = self.plan.nominal();
                    lemma_plan_partitions(total, nominal);
                    let stripes = planned(total, nominal);
                    if index < stripes.len() - 1 {
                        assert(stripes[index as int].end() <= stripes[stripes.len() - 1].offset);
                    }
                }
                match StripeFetch::new(self.object.clone(), stripe) {
                    Ok(fetch) => Some(fetch),
                    Err(_) => None,
                }
            },
            None => None,
        }
    }

    /// Folds the outcomes of the stripes, in the order in which they were
    /// met, into the result of the download.
    ///
    /// The result is the first failure among the outcomes, if there is
    /// one. Without a failure it is the object's size, the number of
    /// stripes and the time taken, when there is exactly one outcome for
    /// each stripe of the plan; with fewer outcomes, or with more, the
    /// download has no result.
    ///
    /// A failed download leaves the destination as far as it was written.
    pub fn conclude(&self, outcomes: &Vec<Result<u64, TransferError>>, elapsed_micros: u64) -> (result:
        Option<Result<TransferResult, TransferError>>)
        ensures
            match result {
                Some(Ok(done)) => {
                    &&& forall|i: int| 0 <= i < outcomes@.len() ==> (#[trigger] outcomes@[i]) is Ok
                    &&& outcomes@.len() == self.planned()@.len()
                    &&& done.bytes_transferred == self.planned().total()
                    &&& done.stripe_count == self.planned()@.len()
                    &&& done.elapsed_micros == elapsed_micros
                },
                Some(Err(e)) => exists|i: int|
                    first_failure_at(outcomes@, i) && e@ == (#[trigger] outcomes@[i])->Err_0@,
                None => {
                    &&& forall|i: int| 0 <= i < outcomes@.len() ==> (#[trigger] outcomes@[i]) is Ok
                    &&& outcomes@.len() != self.planned()@.len()
                },
            },
    {
        let count = outcomes.len();
        let mut i: usize = 0;
        while i < count
            invariant
                count == outcomes@.len(),
                i <= count,
                forall|j: int| 0 <= j < i ==> (#[trigger] outcomes@[j]) is Ok,
            decreases count - i,
        {
            match &outcomes[i] {
                Ok(_) => {},
                Err(e) => {
                    assert(first_failure_at(outcomes@, i as int));
                    return Some(Err(e.clone()));
                },
            }
            i = i + 1;
        }
        if count != self.plan.len() {
            return None;
        }
        Some(
            Ok(
                TransferResult {
                    bytes_transferred: self.plan.total_size(),
                    stripe_count: count as u64,
                    elapsed_micros,
                },
            ),
        )
    }
}

} // verus!
