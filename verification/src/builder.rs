//! Carrying out a planned build, one compose call at a time.
//!
//! The build itself makes no call. It says which compose call comes next,
//! is told what the store returned for it, and in the end says which
//! object has each requested size. A compose call that fails ends the
//! build; what was composed before stays in the store.

use vstd::prelude::*;
use crate::compose::build_outcome;
use crate::compose::BuildPlan;
use crate::compose::Composition;
use crate::compose::compositions;
use crate::compose::lemma_planned_build_is_sound;
use crate::compose::lemma_sizes_are_distinct;
use crate::compose::object_numbers;
use crate::compose::object_size;
use crate::compose::planned_build;
use crate::compose::sound;
use crate::error::BuildError;
use crate::error::InvalidArgument;
use crate::error::StoreError;
use crate::names::lemma_sized_name_is_injective;
use crate::names::object_name;
use crate::names::sized_name;
use crate::object::ObjectId;
use crate::object::ObjectRef;

verus! {

/// One step of growth, ready to be sent to the store: a new object to be
/// composed of `fan_in` copies of `source`, pinned to its generation.
#[derive(Debug, PartialEq, Eq)]
pub struct CompositionTier {
    /// The object to copy, at the generation that the build was told of.
    pub source: ObjectRef,
    /// The size of the new object in bytes.
    pub size_bytes: u64,
    /// How many copies of the source the new object is composed of.
    pub fan_in: u32,
}

/// What `CompositionTier::new` makes of the given numbers: the size of
/// the new object, or why there can be no such compose call.
pub open spec fn tier_outcome(source_size: u64, fan_in: u32, max_fan_in: u32) -> Result<
    u64,
    InvalidArgument,
> {
    if fan_in == 0 {
        Err(InvalidArgument::NoSources)
    } else if fan_in > max_fan_in {
        Err(InvalidArgument::FanInExceeded { requested: fan_in, limit: max_fan_in })
    } else if source_size * fan_in > u64::MAX {
        Err(InvalidArgument::SizeOverflow)
    } else {
        Ok((source_size * fan_in) as u64)
    }
}

impl CompositionTier {
    /// The compose call that makes a new object of `fan_in` copies of
    /// `source`, which holds `source_size` bytes, in a store that takes at
    /// most `max_fan_in` sources in one call.
    ///
    /// A call without sources, one with more sources than the store
    /// takes, and one for an object too large to count are rejected.
    pub fn new(source: ObjectRef, source_size: u64, fan_in: u32, max_fan_in: u32) -> (result:
        Result<CompositionTier, InvalidArgument>)
        ensures
            match result {
                Ok(tier) => {
                    &&& tier_outcome(source_size, fan_in, max_fan_in) == Ok::<u64, InvalidArgument>(
                        tier.size_bytes,
                    )
                    &&& tier.source@ == source@
                    &&& tier.fan_in == fan_in
                },
                Err(e) => tier_outcome(source_size, fan_in, max_fan_in) == Err::<
                    u64,
                    InvalidArgument,
                >(e),
            },
    {
        if fan_in == 0 {
            return Err(InvalidArgument::NoSources);
        }
        if fan_in > max_fan_in {
            return Err(InvalidArgument::FanInExceeded { requested: fan_in, limit: max_fan_in });
        }
        match source_size.checked_mul(fan_in as u64) {
            Some(size_bytes) => Ok(CompositionTier { source, size_bytes, fan_in }),
            None => Err(InvalidArgument::SizeOverflow),
        }
    }

    /// The name under which the new object is kept: the one that goes
    /// with its size.
    pub fn destination(&self) -> (name: String)
        ensures
            name@ == sized_name(self.size_bytes as nat),
    {
        object_name(self.size_bytes)
    }

    /// The source list of the compose call: the source, once for each
    /// copy, every time at the same generation.
    pub fn sources(&self) -> (sources: Vec<ObjectRef>)
        ensures
            sources@.len() == self.fan_in,
            forall|i: int| 0 <= i < sources@.len() ==> (#[trigger] sources@[i])@ == self.source@,
    {
        let mut sources: Vec<ObjectRef> = Vec::new();
        let mut made: u32 = 0;
        while made < self.fan_in
            invariant
                made <= self.fan_in,
                sources@.len() == made,
                forall|i: int| 0 <= i < sources@.len() ==> (#[trigger] sources@[i])@ == self.source@,
            decreases self.fan_in - made,
        {
            sources.push(self.source.clone());
            made = made + 1;
        }
        sources
    }
}

/// In every build that `plan_build` accepts, no two objects are kept
/// under the same name, the seed included: no compose call of the build
/// overwrites an object that the build still copies from.
pub proof fn lemma_names_are_distinct(seed: u64, fan_in: u32, targets: Seq<u64>, a: int, b: int)
    requires
        build_outcome(seed, fan_in, targets) is Ok,
        0 <= a < b <= planned_build(seed as int, fan_in as int, targets).steps.len(),
    ensures
        sized_name(
            object_size(seed as int, planned_build(seed as int, fan_in as int, targets).steps, a)
                as nat,
        ) != sized_name(
            object_size(seed as int, planned_build(seed as int, fan_in as int, targets).steps, b)
                as nat,
        ),
{
    let steps = planned_build(seed as int, fan_in as int, targets).steps;
    lemma_sizes_are_distinct(seed, fan_in, targets, a, b);
    let size_a = object_size(seed as int, steps, a);
    let size_b = object_size(seed as int, steps, b);
    if sized_name(size_a as nat) == sized_name(size_b as nat) {
        lemma_sized_name_is_injective(size_a as nat, size_b as nat);
    }
}

/// A build in progress: its plan, the objects that the store holds for
/// it so far, the seed first, and the failure that ended it, if one did.
#[derive(Debug)]
pub struct Build {
    plan: BuildPlan,
    objects: Vec<ObjectRef>,
    failure: Option<BuildError>,
}

impl Build {
    /// Whether the build holds the seed and at most one object for each
    /// step of its plan, and was not ended by a failure after its last
    /// step. `start` makes such a build, and `composed` and `failed` keep
    /// it so.
    pub closed spec fn wf(self) -> bool {
        &&& 1 <= self.objects@.len() <= self.plan@.steps.len() + 1
        &&& self.failure is Some ==> self.objects@.len() <= self.plan@.steps.len()
    }

    /// The failure that ended the build, if one did.
    pub closed spec fn failure(self) -> Option<BuildError> {
        self.failure
    }

    /// Whether a failed compose call has ended the build.
    pub open spec fn aborted(self) -> bool {
        self.failure() is Some
    }

    /// The plan that the build follows.
    pub closed spec fn plan(self) -> BuildPlan {
        self.plan
    }

    /// The objects that the build holds so far: object zero is the seed,
    /// object `i + 1` the result of step `i`.
    pub closed spec fn built(self) -> Seq<ObjectId> {
        Seq::new(self.objects@.len(), |i: int| self.objects@[i]@)
    }

    /// Whether every step of the plan has been carried out.
    pub open spec fn complete(self) -> bool {
        self.built().len() == self.plan()@.steps.len() + 1
    }

    /// The step that comes next, while there is one.
    pub open spec fn pending(self) -> Composition
        recommends
            !self.complete(),
    {
        self.plan()@.steps[self.built().len() - 1]
    }

    /// Whether a compose call is to be made: a step is left, and no
    /// failure has ended the build.
    pub open spec fn underway(self) -> bool {
        !self.complete() && !self.aborted()
    }

    /// Starts the build of `plan` from the seed object that the store
    /// holds.
    pub fn start(plan: BuildPlan, seed: ObjectRef) -> (build: Build)
        ensures
            build.wf(),
            build.plan() == plan,
            build.built() == seq![seed@],
            build.failure() is None,
    {
        let mut objects: Vec<ObjectRef> = Vec::new();
        objects.push(seed);
        let build = Build { plan, objects, failure: None };
        assert(build.built() =~= seq![seed@]);
        build
    }

    /// The compose call that comes next, or `None` when every step has
    /// been carried out or a failure has ended the build. The source is
    /// the object that the plan names, at the generation that the build
    /// was told of when that object was made.
    pub fn next_tier(&self) -> (next: Option<CompositionTier>)
        requires
            self.wf(),
        ensures
            1 <= self.built().len() <= self.plan()@.steps.len() + 1,
            self.complete() ==> !self.aborted(),
            next is Some <==> self.underway(),
            next matches Some(tier) ==> {
                &&& self.pending().source < self.built().len()
                &&& tier.source@ == self.built()[self.pending().source as int]
                &&& tier.fan_in == self.pending().fan_in
                &&& 2 <= tier.fan_in <= self.plan().fan_in()
                &&& tier.size_bytes == self.pending().size_bytes
            },
    {
        let steps = self.plan.steps();
        let position = self.objects.len() - 1;
        assert(compositions(steps@).len() == steps@.len());
        if position >= steps.len() || self.failure.is_some() {
            return None;
        }
        let step = steps[position];
        proof {
            lemma_planned_build_is_sound(
                self.plan.seed(),
                self.plan.fan_in(),
                self.plan.requested(),
            );
            assert(compositions(steps@)[position as int] == step@);
            assert(self.plan@.steps[position as int].source <= position);
        }
        let source = self.objects[step.source].clone();
        Some(CompositionTier { source, size_bytes: step.size_bytes, fan_in: step.fan_in })
    }

    /// Records the object that the store returned for the pending compose
    /// call. When no call is to be made, nothing is recorded and the
    /// result is `false`.
    pub fn composed(&mut self, object: ObjectRef) -> (recorded: bool)
        requires
            old(self).wf(),
        ensures
            final(self).wf(),
            final(self).plan() == old(self).plan(),
            final(self).failure() == old(self).failure(),
            recorded == old(self).underway(),
            recorded ==> final(self).built() == old(self).built().push(object@),
            !recorded ==> final(self).built() == old(self).built(),
    {
        let steps = self.plan.steps();
        assert(compositions(steps@).len() == steps@.len());
        if self.objects.len() - 1 >= steps.len() || self.failure.is_some() {
            return false;
        }
        self.objects.push(object);
        assert(self.built() =~= old(self).built().push(object@));
        true
    }

    /// Takes note that the store failed the pending compose call with the
    /// given status code. This ends the build: no further compose call
    /// comes next. The result is the failure to report, which names the
    /// size of the object that could not be made. When no call is to be
    /// made, nothing changes and the result is `None`.
    pub fn failed(&mut self, code: i32) -> (failure: Option<BuildError>)
        requires
            old(self).wf(),
        ensures
            final(self).wf(),
            final(self).plan() == old(self).plan(),
            final(self).built() == old(self).built(),
            failure is Some <==> old(self).underway(),
            failure matches Some(e) ==> {
                &&& e.size_bytes == old(self).pending().size_bytes
                &&& e.cause == (StoreError { code })
                &&& final(self).failure() == Some(e)
            },
            failure is None ==> final(self).failure() == old(self).failure(),
    {
        let steps = self.plan.steps();
        let position = self.objects.len() - 1;
        assert(compositions(steps@).len() == steps@.len());
        if position >= steps.len() || self.failure.is_some() {
            return None;
        }
        let step = steps[position];
        assert(compositions(steps@)[position as int] == step@);
        let failure = BuildError { size_bytes: step.size_bytes, cause: StoreError { code } };
        self.failure = Some(failure);
        Some(failure)
    }

    /// The failure that ended the build, if one did.
    pub fn aborted_by(&self) -> (failure: Option<BuildError>)
        ensures
            failure == self.failure(),
    {
        self.failure
    }

    /// Once every step has been carried out: each requested size, in the
    /// order of the request, with the object that has that size. `None`
    /// while a step is left.
    pub fn outcome(&self) -> (objects: Option<Vec<(u64, ObjectRef)>>)
        requires
            self.wf(),
        ensures
            objects is Some <==> self.complete(),
            objects matches Some(list) ==> {
                &&& list@.len() == self.plan().requested().len()
                &&& self.plan()@.results.len() == list@.len()
                &&& forall|j: int|
                    0 <= j < list@.len() ==> {
                        &&& (#[trigger] list@[j]).0 == self.plan().requested()[j]
                        &&& self.plan()@.results[j] < self.built().len()
                        &&& list@[j].1@ == self.built()[self.plan()@.results[j] as int]
                    }
            },
    {
        let steps = self.plan.steps();
        assert(compositions(steps@).len() == steps@.len());
        if self.objects.len() - 1 < steps.len() {
            return None;
        }
        let targets = self.plan.targets();
        let results = self.plan.results();
        proof {
            lemma_planned_build_is_sound(
                self.plan.seed(),
                self.plan.fan_in(),
                self.plan.requested(),
            );
            assert(object_numbers(results@).len() == results@.len());
        }
        let mut list: Vec<(u64, ObjectRef)> = Vec::new();
        let mut j: usize = 0;
        while j < targets.len()
            invariant
                self.wf(),
                self.complete(),
                targets@ == self.plan().requested(),
                object_numbers(results@) == self.plan()@.results,
                results@.len() == targets@.len(),
                sound(
                    self.plan().seed() as int,
                    self.plan().fan_in() as int,
                    self.plan().requested(),
                    self.plan()@,
                ),
                j <= targets@.len(),
                list@.len() == j,
                forall|i: int|
                    0 <= i < j ==> {
                        &&& (#[trigger] list@[i]).0 == targets@[i]
                        &&& self.plan()@.results[i] < self.built().len()
                        &&& list@[i].1@ == self.built()[self.plan()@.results[i] as int]
                    },
            decreases targets@.len() - j,
        {
            assert(object_numbers(results@)[j as int] == results@[j as int]);
            assert(self.plan()@.results[j as int] <= self.plan()@.steps.len());
            let object = self.objects[results[j]].clone();
            list.push((targets[j], object));
            j = j + 1;
        }
        Some(list)
    }
}

} // verus!
