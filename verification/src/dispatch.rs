//! Keeping the number of stripes in flight under a limit.
//!
//! The dispatcher makes no call. It hands out the numbers of the stripes
//! to launch, first to last and each once, and never has more of them in
//! flight than its limit allows. Once it has been halted it hands out no
//! more; the stripes in flight are left to finish.

use vstd::prelude::*;
use crate::error::InvalidArgument;

verus! {

/// How far a download has come: how many stripes there are, how many may
/// be in flight at a time, how many have been launched, how many of those
/// have finished, and whether launching has been halted.
#[derive(Debug)]
pub struct Dispatcher {
    total: usize,
    limit: usize,
    launched: usize,
    finished: usize,
    halted: bool,
}

impl Dispatcher {
    #[verifier::type_invariant]
    spec fn inv(self) -> bool {
        &&& self.limit > 0
        &&& self.finished <= self.launched <= self.total
        &&& self.launched - self.finished <= self.limit
    }

    /// The number of stripes of the download.
    pub closed spec fn total(self) -> nat {
        self.total as nat
    }

    /// The largest number of stripes that may be in flight at a time.
    pub closed spec fn limit(self) -> nat {
        self.limit as nat
    }

    /// The number of stripes launched so far.
    pub closed spec fn launched(self) -> nat {
        self.launched as nat
    }

    /// The number of stripes that have finished.
    pub closed spec fn finished(self) -> nat {
        self.finished as nat
    }

    /// Whether launching has been halted.
    pub closed spec fn halted(self) -> bool {
        self.halted
    }

    /// Whether the counts fit together: no more stripes have finished than
    /// were launched, no more were launched than there are, and no more
    /// are in flight than the limit allows. This is so of every
    /// dispatcher.
    pub open spec fn consistent(self) -> bool {
        &&& self.limit() > 0
        &&& self.finished() <= self.launched() <= self.total()
        &&& self.launched() - self.finished() <= self.limit()
    }

    /// Whether a stripe can be launched now.
    pub open spec fn can_launch(self) -> bool {
        &&& !self.halted()
        &&& self.launched() < self.total()
        &&& self.launched() - self.finished() < self.limit()
    }

    /// Whether nothing is left to wait for: no stripe is in flight, and
    /// none will be launched any more.
    pub open spec fn done(self) -> bool {
        &&& self.finished() == self.launched()
        &&& (self.halted() || self.launched() == self.total())
    }

    /// A dispatcher for `total` stripes of which at most `limit` are in
    /// flight at a time. A limit of zero is rejected.
    pub fn new(total: usize, limit: usize) -> (result: Result<Dispatcher, InvalidArgument>)
        ensures
            match result {
                Ok(d) => limit > 0 && d.consistent() && d.total() == total && d.limit() == limit
                    && d.launched() == 0 && d.finished() == 0 && !d.halted(),
                Err(e) => limit == 0 && e == InvalidArgument::ZeroConcurrency,
            },
    {
        if limit == 0 {
            return Err(InvalidArgument::ZeroConcurrency);
        }
        Ok(Dispatcher { total, limit, launched: 0, finished: 0, halted: false })
    }

    /// The number of the stripe to launch now, or `None` when all have
    /// been launched, when as many are in flight as the limit allows, or
    /// when launching has been halted.
    pub fn launch(&mut self) -> (next: Option<usize>)
        ensures
            old(self).consistent(),
            final(self).consistent(),
            final(self).total() == old(self).total(),
            final(self).limit() == old(self).limit(),
            final(self).finished() == old(self).finished(),
            final(self).halted() == old(self).halted(),
            next is Some <==> old(self).can_launch(),
            next matches Some(index) ==> index == old(self).launched() && final(self).launched()
                == old(self).launched() + 1,
            next is None ==> final(self).launched() == old(self).launched(),
    {
        proof {
            use_type_invariant(&*self);
        }
        if !self.halted && self.launched < self.total && self.launched - self.finished
            < self.limit {
            let index = self.launched;
            self.launched = self.launched + 1;
            Some(index)
        } else {
            None
        }
    }

    /// Takes note that one stripe in flight has finished, whatever its
    /// outcome. When none is in flight, nothing changes and the result is
    /// `false`.
    pub fn complete(&mut self) -> (noted: bool)
        ensures
            old(self).consistent(),
            final(self).consistent(),
            final(self).total() == old(self).total(),
            final(self).limit() == old(self).limit(),
            final(self).launched() == old(self).launched(),
            final(self).halted() == old(self).halted(),
            noted == (old(self).finished() < old(self).launched()),
            final(self).finished() == old(self).finished() + (if noted {
                1nat
            } else {
                0nat
            }),
    {
        proof {
            use_type_invariant(&*self);
        }
        if self.finished < self.launched {
            self.finished = self.finished + 1;
            true
        } else {
            false
        }
    }

    /// Halts launching, as after a stripe has failed: no further stripe
    /// is handed out. Stripes in flight are not affected.
    pub fn halt(&mut self)
        ensures
            old(self).consistent(),
            final(self).consistent(),
            final(self).halted(),
            final(self).total() == old(self).total(),
            final(self).limit() == old(self).limit(),
            final(self).launched() == old(self).launched(),
            final(self).finished() == old(self).finished(),
    {
        proof {
            use_type_invariant(&*self);
        }
        self.halted = true;
    }

    /// The number of stripes in flight.
    pub fn in_flight(&self) -> (count: usize)
        ensures
            self.consistent(),
            count == self.launched() - self.finished(),
    {
        proof {
            use_type_invariant(self);
        }
        self.launched - self.finished
    }

    /// Whether nothing is left to wait for: no stripe is in flight, and
    /// none will be launched any more.
    pub fn is_done(&self) -> (done: bool)
        ensures
            self.consistent(),
            done == self.done(),
    {
        proof {
            use_type_invariant(self);
        }
        self.finished == self.launched && (self.halted || self.launched == self.total)
    }
}

/// A download that is not done is never stuck: a stripe is in flight, or
/// one can be launched.
pub proof fn lemma_never_stuck(dispatcher: Dispatcher)
    requires
        dispatcher.consistent(),
        !dispatcher.done(),
    ensures
        dispatcher.launched() > dispatcher.finished() || dispatcher.can_launch(),
{
}

} // verus!
