//! Planning how to build large objects by composing copies of smaller ones.
//!
//! A build starts from a seed object. It first grows a chain of tiers, each
//! composed of `fan_in` copies of the tier below, up to the nearest tier at
//! or below the largest requested size. Every requested size that is not a
//! tier of the chain is then composed from whole copies of the nearest tier
//! below it. No compose call takes more than `fan_in` sources.
//!
//! The objects of a build are numbered: object zero is the seed, and object
//! `i + 1` is the result of step `i`.

use vstd::prelude::*;
use vstd::arithmetic::div_mod::lemma_fundamental_div_mod;
use vstd::arithmetic::mul::lemma_mul_inequality;
use vstd::arithmetic::mul::lemma_mul_is_commutative;
use crate::error::InvalidArgument;
use crate::tier::lemma_nearest_tier_is_unique;
use crate::tier::lemma_tier_depth_is_monotone;
use crate::tier::lemma_tier_depth_is_nearest;
use crate::tier::lemma_tier_size_increases;
use crate::tier::lemma_tier_size_positive;
use crate::tier::tier_depth;
use crate::tier::tier_size;

verus! {

/// The largest number of sources that the store takes in one compose
/// call.
pub const MAX_COMPOSE_SOURCES: u32 = 32;

/// One compose call of a build: a new object made of `fan_in` copies of an
/// object that the build already holds.
#[derive(Clone, Copy, Debug, PartialEq, Eq, Structural)]
pub struct ComposeStep {
    /// The number of the object to copy.
    pub source: usize,
    /// How many copies of the source the new object is composed of.
    pub fan_in: u32,
    /// The size of the new object in bytes.
    pub size_bytes: u64,
}

/// A compose call as a plain record of numbers.
pub struct Composition {
    pub source: nat,
    pub fan_in: nat,
    pub size_bytes: nat,
}

impl View for ComposeStep {
    type V = Composition;

    open spec fn view(&self) -> Composition {
        Composition {
            source: self.source as nat,
            fan_in: self.fan_in as nat,
            size_bytes: self.size_bytes as nat,
        }
    }
}

/// The given steps as plain records, in the same order.
pub open spec fn compositions(steps: Seq<ComposeStep>) -> Seq<Composition> {
    Seq::new(steps.len(), |i: int| steps[i]@)
}

/// The given object numbers as natural numbers, in the same order.
pub open spec fn object_numbers(objects: Seq<usize>) -> Seq<nat> {
    Seq::new(objects.len(), |i: int| objects[i] as nat)
}

/// Whether `size` is the size of a tier of the chain.
pub open spec fn is_tier(seed: int, fan_in: int, size: int) -> bool {
    size == tier_size(seed, fan_in, tier_depth(seed, fan_in, size))
}

/// Whether an object of `size` bytes can be had from the chain: it is a
/// tier, or a whole number of copies of the nearest tier below it.
pub open spec fn reachable(seed: int, fan_in: int, size: int) -> bool {
    size >= seed && size % tier_size(seed, fan_in, tier_depth(seed, fan_in, size)) == 0
}

/// Whether each size is larger than the one before it.
pub open spec fn strictly_increasing(sizes: Seq<u64>) -> bool {
    forall|i: int, j: int| 0 <= i < j < sizes.len() ==> sizes[i] < sizes[j]
}

/// The first of the sizes that is not reachable, if there is one.
pub open spec fn first_unreachable(seed: int, fan_in: int, sizes: Seq<u64>) -> Option<u64>
    decreases sizes.len(),
{
    if sizes.len() == 0 {
        None
    } else if !reachable(seed, fan_in, sizes[0] as int) {
        Some(sizes[0])
    } else {
        first_unreachable(seed, fan_in, sizes.drop_first())
    }
}

/// The steps that grow the chain up to tier `depth`: step `i` composes
/// tier `i + 1` from `fan_in` copies of tier `i`.
pub open spec fn tier_steps(seed: int, fan_in: int, depth: nat) -> Seq<Composition> {
    Seq::new(
        depth,
        |i: int|
            Composition {
                source: i as nat,
                fan_in: fan_in as nat,
                size_bytes: tier_size(seed, fan_in, (i + 1) as nat) as nat,
            },
    )
}

/// The step that composes an object of `size` bytes, which is no tier, from
/// copies of the nearest tier below it.
pub open spec fn extra_step(seed: int, fan_in: int, size: int) -> Composition {
    let nearest = tier_depth(seed, fan_in, size);
    Composition {
        source: nearest,
        fan_in: (size / tier_size(seed, fan_in, nearest)) as nat,
        size_bytes: size as nat,
    }
}

/// The steps beyond the chain: one for each requested size that is no
/// tier, in the order of the request.
pub open spec fn extra_steps(seed: int, fan_in: int, targets: Seq<u64>) -> Seq<Composition>
    decreases targets.len(),
{
    if targets.len() == 0 {
        Seq::empty()
    } else {
        let before = extra_steps(seed, fan_in, targets.drop_last());
        if is_tier(seed, fan_in, targets.last() as int) {
            before
        } else {
            before.push(extra_step(seed, fan_in, targets.last() as int))
        }
    }
}

/// For each requested size, the number of the object that has that size:
/// a tier of the chain, or the result of the step added for it.
pub open spec fn result_objects(seed: int, fan_in: int, depth: nat, targets: Seq<u64>) -> Seq<
    nat,
>
    decreases targets.len(),
{
    if targets.len() == 0 {
        Seq::empty()
    } else {
        let size = targets.last() as int;
        result_objects(seed, fan_in, depth, targets.drop_last()).push(
            if is_tier(seed, fan_in, size) {
                tier_depth(seed, fan_in, size)
            } else {
                depth + extra_steps(seed, fan_in, targets).len()
            },
        )
    }
}

/// What a build consists of: its compose calls in the order in which they
/// are made, and for each requested size the number of the object that
/// has it.
pub struct PlannedBuild {
    pub steps: Seq<Composition>,
    pub results: Seq<nat>,
}

/// The number of the last tier that a build for the given sizes grows.
pub open spec fn chain_depth(seed: int, fan_in: int, targets: Seq<u64>) -> nat {
    if targets.len() == 0 {
        0
    } else {
        tier_depth(seed, fan_in, targets.last() as int)
    }
}

/// The build for the given seed size, fan-in and requested sizes.
pub open spec fn planned_build(seed: int, fan_in: int, targets: Seq<u64>) -> PlannedBuild {
    let depth = chain_depth(seed, fan_in, targets);
    PlannedBuild {
        steps: tier_steps(seed, fan_in, depth) + extra_steps(seed, fan_in, targets),
        results: result_objects(seed, fan_in, depth, targets),
    }
}

/// What `plan_build` returns for the given request.
pub open spec fn build_outcome(seed: u64, fan_in: u32, targets: Seq<u64>) -> Result<
    PlannedBuild,
    InvalidArgument,
> {
    if seed == 0 {
        Err(InvalidArgument::EmptySeed)
    } else if fan_in < 2 {
        Err(InvalidArgument::FanInTooSmall)
    } else if !strictly_increasing(targets) {
        Err(InvalidArgument::TargetsNotIncreasing)
    } else {
        match first_unreachable(seed as int, fan_in as int, targets) {
            Some(size) => Err(InvalidArgument::TargetUnreachable(size)),
            None => Ok(planned_build(seed as int, fan_in as int, targets)),
        }
    }
}

/// The size of object `i` of a build: the seed's for object zero, else
/// what the step that made it says.
pub open spec fn object_size(seed: int, steps: Seq<Composition>, i: int) -> int {
    if i == 0 {
        seed
    } else {
        steps[i - 1].size_bytes as int
    }
}

/// Skipping sizes that are reachable does not change which one is the
/// first that is not.
pub proof fn lemma_first_unreachable_skips(seed: int, fan_in: int, sizes: Seq<u64>, i: int)
    requires
        0 <= i <= sizes.len(),
        forall|j: int| 0 <= j < i ==> reachable(seed, fan_in, #[trigger] sizes[j] as int),
    ensures
        first_unreachable(seed, fan_in, sizes) == first_unreachable(seed, fan_in, sizes.skip(i)),
    decreases i,
{
    if i > 0 {
        lemma_first_unreachable_skips(seed, fan_in, sizes, i - 1);
        let rest = sizes.skip(i - 1);
        assert(rest[0] == sizes[i - 1]);
        assert(rest.drop_first() =~= sizes.skip(i));
    } else {
        assert(sizes.skip(0) =~= sizes);
    }
}

/// When no size is the first unreachable one, every size is reachable.
pub proof fn lemma_all_reachable(seed: int, fan_in: int, sizes: Seq<u64>, j: int)
    requires
        first_unreachable(seed, fan_in, sizes) is None,
        0 <= j < sizes.len(),
    ensures
        reachable(seed, fan_in, sizes[j] as int),
    decreases sizes.len(),
{
    if j > 0 {
        lemma_all_reachable(seed, fan_in, sizes.drop_first(), j - 1);
        assert(sizes.drop_first()[j - 1] == sizes[j]);
    }
}

/// The step for a reachable size that is no tier takes at least two and
/// fewer than `fan_in` copies of the nearest tier below the size, and
/// these add up to the size exactly.
pub proof fn lemma_extra_step_is_exact(seed: int, fan_in: int, size: int)
    requires
        seed > 0,
        fan_in >= 2,
        reachable(seed, fan_in, size),
        !is_tier(seed, fan_in, size),
    ensures
        extra_step(seed, fan_in, size).source == tier_depth(seed, fan_in, size),
        2 <= extra_step(seed, fan_in, size).fan_in < fan_in,
        extra_step(seed, fan_in, size).size_bytes == size,
        size == extra_step(seed, fan_in, size).fan_in * tier_size(
            seed,
            fan_in,
            tier_depth(seed, fan_in, size),
        ),
{
    let nearest = tier_depth(seed, fan_in, size);
    let tier = tier_size(seed, fan_in, nearest);
    let copies = size / tier;
    lemma_tier_depth_is_nearest(seed, fan_in, size);
    lemma_tier_size_positive(seed, fan_in, nearest);
    lemma_fundamental_div_mod(size, tier);
    assert(size == tier * copies);
    assert(size == copies * tier) by {
        lemma_mul_is_commutative(tier, copies);
    }
    assert(tier_size(seed, fan_in, nearest + 1) == tier * fan_in);
    assert(2 <= copies < fan_in) by (nonlinear_arith)
        requires
            tier > 0,
            size == tier * copies,
            tier < size < tier * fan_in,
    ;
}

/// Each step beyond the chain is the step for one of the requested sizes
/// that is no tier; the lemma returns the position of that size. As many
/// steps come before the step as sizes that are no tier come before the
/// size.
pub proof fn lemma_extra_steps_member(seed: int, fan_in: int, targets: Seq<u64>, i: int) -> (j:
    int)
    requires
        0 <= i < extra_steps(seed, fan_in, targets).len(),
    ensures
        0 <= j < targets.len(),
        !is_tier(seed, fan_in, targets[j] as int),
        extra_steps(seed, fan_in, targets)[i] == extra_step(seed, fan_in, targets[j] as int),
        extra_steps(seed, fan_in, targets.take(j)).len() == i,
    decreases targets.len(),
{
    let front = targets.drop_last();
    if is_tier(seed, fan_in, targets.last() as int) {
        let j = lemma_extra_steps_member(seed, fan_in, front, i);
        assert(front.take(j) =~= targets.take(j));
        j
    } else if i == extra_steps(seed, fan_in, front).len() {
        assert(targets.take(targets.len() - 1) =~= front);
        targets.len() - 1
    } else {
        let j = lemma_extra_steps_member(seed, fan_in, front, i);
        assert(front.take(j) =~= targets.take(j));
        j
    }
}

/// The steps for the first `m` requested sizes are the first steps for
/// all of them.
pub proof fn lemma_extra_steps_prefix(seed: int, fan_in: int, targets: Seq<u64>, m: int)
    requires
        0 <= m <= targets.len(),
    ensures
        extra_steps(seed, fan_in, targets.take(m)).len() <= extra_steps(
            seed,
            fan_in,
            targets,
        ).len(),
        forall|i: int|
            0 <= i < extra_steps(seed, fan_in, targets.take(m)).len() ==> extra_steps(
                seed,
                fan_in,
                targets.take(m),
            )[i] == #[trigger] extra_steps(seed, fan_in, targets)[i],
    decreases targets.len() - m,
{
    if m < targets.len() {
        lemma_extra_steps_prefix(seed, fan_in, targets, m + 1);
        assert(targets.take(m + 1).drop_last() =~= targets.take(m));
    } else {
        assert(targets.take(m) =~= targets);
    }
}

/// There is one result for each requested size.
pub proof fn lemma_result_objects_len(seed: int, fan_in: int, depth: nat, targets: Seq<u64>)
    ensures
        result_objects(seed, fan_in, depth, targets).len() == targets.len(),
    decreases targets.len(),
{
    if targets.len() > 0 {
        lemma_result_objects_len(seed, fan_in, depth, targets.drop_last());
    }
}

/// The result for a size that is a tier is that tier; the result for any
/// other size is the object that the last step up to and including that
/// size makes.
pub proof fn lemma_result_objects_at(
    seed: int,
    fan_in: int,
    depth: nat,
    targets: Seq<u64>,
    j: int,
)
    requires
        0 <= j < targets.len(),
    ensures
        result_objects(seed, fan_in, depth, targets)[j] == (if is_tier(
            seed,
            fan_in,
            targets[j] as int,
        ) {
            tier_depth(seed, fan_in, targets[j] as int)
        } else {
            depth + extra_steps(seed, fan_in, targets.take(j + 1)).len()
        }),
    decreases targets.len(),
{
    let front = targets.drop_last();
    lemma_result_objects_len(seed, fan_in, depth, front);
    if j == targets.len() - 1 {
        assert(targets.take(j + 1) =~= targets);
    } else {
        lemma_result_objects_at(seed, fan_in, depth, front, j);
        assert(front.take(j + 1) =~= targets.take(j + 1));
    }
}

/// Whether a build does what it was requested for within the limits of
/// the store: each step copies an object that an earlier step made (or
/// the seed), takes at least two and at most `fan_in` sources, and makes
/// an object of exactly the size of its sources together; and for each
/// requested size the build names an object of that size.
pub open spec fn sound(seed: int, fan_in: int, targets: Seq<u64>, build: PlannedBuild) -> bool {
    &&& forall|i: int|
        0 <= i < build.steps.len() ==> {
            &&& (#[trigger] build.steps[i]).source <= i
            &&& 2 <= build.steps[i].fan_in <= fan_in
            &&& build.steps[i].size_bytes == build.steps[i].fan_in * object_size(
                seed,
                build.steps,
                build.steps[i].source as int,
            )
        }
    &&& build.results.len() == targets.len()
    &&& forall|j: int|
        0 <= j < targets.len() ==> {
            &&& (#[trigger] build.results[j]) <= build.steps.len()
            &&& object_size(seed, build.steps, build.results[j] as int) == targets[j]
        }
}

/// Every build that `plan_build` accepts is sound, and its first steps
/// grow the chain: step `n` makes tier `n + 1`.
pub proof fn lemma_planned_build_is_sound(seed: u64, fan_in: u32, targets: Seq<u64>)
    requires
        build_outcome(seed, fan_in, targets) is Ok,
    ensures
        sound(seed as int, fan_in as int, targets, planned_build(seed as int, fan_in as int, targets)),
        forall|n: int|
            0 <= n < chain_depth(seed as int, fan_in as int, targets) ==> (#[trigger] planned_build(
                seed as int,
                fan_in as int,
                targets,
            ).steps[n]).size_bytes == tier_size(seed as int, fan_in as int, (n + 1) as nat),
{
    let s = seed as int;
    let k = fan_in as int;
    let depth = chain_depth(s, k, targets);
    let build = planned_build(s, k, targets);
    let chain = tier_steps(s, k, depth);
    let extras = extra_steps(s, k, targets);
    assert forall|n: nat| n <= depth implies #[trigger] object_size(s, build.steps, n as int)
        == tier_size(s, k, n) by {
        lemma_tier_size_positive(s, k, n);
        if n > 0 {
            assert(build.steps[n - 1] == chain[n - 1]);
        }
    }
    assert forall|j: int| 0 <= j < targets.len() implies s <= (#[trigger] targets[j])
        <= targets.last() && tier_depth(s, k, targets[j] as int) <= depth by {
        lemma_all_reachable(s, k, targets, j);
        if j < targets.len() - 1 {
            assert(targets[j] < targets[targets.len() - 1]);
        }
        lemma_tier_depth_is_monotone(s, k, targets[j] as int, targets.last() as int);
    }
    assert forall|i: int| 0 <= i < build.steps.len() implies {
        &&& (#[trigger] build.steps[i]).source <= i
        &&& 2 <= build.steps[i].fan_in <= k
        &&& build.steps[i].size_bytes == build.steps[i].fan_in * object_size(
            s,
            build.steps,
            build.steps[i].source as int,
        )
    } by {
        if i < depth {
            assert(build.steps[i] == chain[i]);
            lemma_tier_size_positive(s, k, (i + 1) as nat);
            assert(object_size(s, build.steps, i) == tier_size(s, k, i as nat));
            assert(tier_size(s, k, (i + 1) as nat) == tier_size(s, k, i as nat) * k);
            lemma_mul_is_commutative(tier_size(s, k, i as nat), k);
        } else {
            assert(build.steps[i] == extras[i - depth]);
            let j = lemma_extra_steps_member(s, k, targets, i - depth);
            lemma_all_reachable(s, k, targets, j);
            lemma_extra_step_is_exact(s, k, targets[j] as int);
            let nearest = tier_depth(s, k, targets[j] as int);
            assert(s <= targets[j] <= targets.last());
            assert(object_size(s, build.steps, nearest as int) == tier_size(s, k, nearest));
        }
    }
    assert forall|j: int| 0 <= j < targets.len() implies {
        &&& (#[trigger] build.results[j]) <= build.steps.len()
        &&& object_size(s, build.steps, build.results[j] as int) == targets[j]
    } by {
        lemma_result_objects_at(s, k, depth, targets, j);
        let size = targets[j] as int;
        assert(s <= targets[j] <= targets.last());
        if is_tier(s, k, size) {
            assert(object_size(s, build.steps, tier_depth(s, k, size) as int) == tier_size(
                s,
                k,
                tier_depth(s, k, size),
            ));
        } else {
            let upto = targets.take(j + 1);
            let made = extra_steps(s, k, upto);
            assert(upto.last() == targets[j]);
            assert(made.last() == extra_step(s, k, size));
            lemma_extra_steps_prefix(s, k, targets, j + 1);
            assert(extras[made.len() - 1] == made[made.len() - 1]);
            assert(build.steps[depth + made.len() - 1] == extras[made.len() - 1]);
            lemma_all_reachable(s, k, targets, j);
            lemma_extra_step_is_exact(s, k, size);
        }
    }
    lemma_result_objects_len(s, k, depth, targets);
    assert forall|n: int| 0 <= n < depth implies (#[trigger] build.steps[n]).size_bytes
        == tier_size(s, k, (n + 1) as nat) by {
        assert(build.steps[n] == chain[n]);
        lemma_tier_size_positive(s, k, (n + 1) as nat);
    }
}

/// In every build that `plan_build` accepts, no two objects have the same
/// size, the seed included.
pub proof fn lemma_sizes_are_distinct(seed: u64, fan_in: u32, targets: Seq<u64>, a: int, b: int)
    requires
        build_outcome(seed, fan_in, targets) is Ok,
        0 <= a < b <= planned_build(seed as int, fan_in as int, targets).steps.len(),
    ensures
        object_size(seed as int, planned_build(seed as int, fan_in as int, targets).steps, a)
            != object_size(seed as int, planned_build(seed as int, fan_in as int, targets).steps, b),
{
    let s = seed as int;
    let k = fan_in as int;
    let depth = chain_depth(s, k, targets);
    let build = planned_build(s, k, targets);
    let chain = tier_steps(s, k, depth);
    let extras = extra_steps(s, k, targets);
    assert forall|n: nat| n <= depth implies #[trigger] object_size(s, build.steps, n as int)
        == tier_size(s, k, n) by {
        lemma_tier_size_positive(s, k, n);
        if n > 0 {
            assert(build.steps[n - 1] == chain[n - 1]);
        }
    }
    if b <= depth {
        lemma_tier_size_increases(s, k, a as nat, b as nat);
        assert(object_size(s, build.steps, a) == tier_size(s, k, a as nat));
        assert(object_size(s, build.steps, b) == tier_size(s, k, b as nat));
    } else {
        assert(build.steps[b - 1] == extras[b - 1 - depth]);
        let jb = lemma_extra_steps_member(s, k, targets, b - 1 - depth);
        lemma_all_reachable(s, k, targets, jb);
        lemma_extra_step_is_exact(s, k, targets[jb] as int);
        let size_b = targets[jb] as int;
        assert(object_size(s, build.steps, b) == size_b);
        if a <= depth {
            assert(object_size(s, build.steps, a) == tier_size(s, k, a as nat));
            if tier_size(s, k, a as nat) == size_b {
                assert(tier_size(s, k, (a + 1) as nat) == tier_size(s, k, a as nat) * k);
                lemma_tier_size_positive(s, k, a as nat);
                assert(tier_size(s, k, a as nat) * k > tier_size(s, k, a as nat))
                    by (nonlinear_arith)
                    requires
                        tier_size(s, k, a as nat) > 0,
                        k >= 2,
                ;
                lemma_nearest_tier_is_unique(s, k, size_b, a as nat);
            }
        } else {
            assert(build.steps[a - 1] == extras[a - 1 - depth]);
            let ja = lemma_extra_steps_member(s, k, targets, a - 1 - depth);
            lemma_all_reachable(s, k, targets, ja);
            lemma_extra_step_is_exact(s, k, targets[ja] as int);
            if ja >= jb {
                lemma_extra_steps_prefix(s, k, targets.take(ja), jb);
                assert(targets.take(ja).take(jb) =~= targets.take(jb));
            }
            assert(targets[ja] < targets[jb]);
        }
    }
}

/// For a positive divisor, `a` is at most the quotient `b / d` exactly when
/// `a * d` is at most `b`.
proof fn lemma_quotient_bound(a: int, b: int, d: int)
    requires
        0 <= a,
        0 <= b,
        0 < d,
    ensures
        a <= b / d <==> a * d <= b,
{
    lemma_fundamental_div_mod(b, d);
    lemma_mul_is_commutative(d, b / d);
    if a <= b / d {
        lemma_mul_inequality(a, b / d, d);
    } else {
        lemma_mul_inequality(b / d + 1, a, d);
        assert((b / d + 1) * d == (b / d) * d + d) by (nonlinear_arith);
    }
}

/// The plan of one build: which compose calls to make, in which order, and
/// which object has each requested size.
///
/// A value of this type always holds the build that `planned_build` gives
/// for its seed size, fan-in and requested sizes.
#[derive(Debug, PartialEq, Eq)]
pub struct BuildPlan {
    seed_size: u64,
    max_fan_in: u32,
    targets: Vec<u64>,
    steps: Vec<ComposeStep>,
    results: Vec<usize>,
}

impl View for BuildPlan {
    type V = PlannedBuild;

    closed spec fn view(&self) -> PlannedBuild {
        PlannedBuild { steps: compositions(self.steps@), results: object_numbers(self.results@) }
    }
}

impl Clone for BuildPlan {
    fn clone(&self) -> (copy: Self)
        ensures
            copy@ == self@,
            copy.seed() == self.seed(),
            copy.fan_in() == self.fan_in(),
            copy.requested() == self.requested(),
    {
        proof {
            use_type_invariant(self);
        }
        let targets = self.targets.clone();
        let steps = self.steps.clone();
        let results = self.results.clone();
        assert(targets@ =~= self.targets@);
        assert(steps@ =~= self.steps@);
        assert(results@ =~= self.results@);
        BuildPlan {
            seed_size: self.seed_size,
            max_fan_in: self.max_fan_in,
            targets,
            steps,
            results,
        }
    }
}

impl BuildPlan {
    #[verifier::type_invariant]
    spec fn inv(self) -> bool {
        build_outcome(self.seed_size, self.max_fan_in, self.targets@) == Ok::<
            PlannedBuild,
            InvalidArgument,
        >(self@)
    }

    /// The size of the seed object.
    pub closed spec fn seed(self) -> u64 {
        self.seed_size
    }

    /// The largest number of sources that a compose call of the build takes.
    pub closed spec fn fan_in(self) -> u32 {
        self.max_fan_in
    }

    /// The sizes that the build was requested for.
    pub closed spec fn requested(self) -> Seq<u64> {
        self.targets@
    }

    /// Whether the plan holds the build that `planned_build` gives for its
    /// request. This is so of every plan.
    pub open spec fn as_planned(self) -> bool {
        build_outcome(self.seed(), self.fan_in(), self.requested()) == Ok::<
            PlannedBuild,
            InvalidArgument,
        >(self@)
    }

    /// The size of the seed object in bytes.
    pub fn seed_size(&self) -> (size: u64)
        ensures
            size == self.seed(),
            self.as_planned(),
    {
        proof {
            use_type_invariant(self);
        }
        self.seed_size
    }

    /// The largest number of sources that a compose call of the build
    /// takes.
    pub fn max_fan_in(&self) -> (fan_in: u32)
        ensures
            fan_in == self.fan_in(),
            self.as_planned(),
    {
        proof {
            use_type_invariant(self);
        }
        self.max_fan_in
    }

    /// The sizes that the build was requested for, in the order of the
    /// request.
    pub fn targets(&self) -> (targets: &Vec<u64>)
        ensures
            targets@ == self.requested(),
            self.as_planned(),
    {
        proof {
            use_type_invariant(self);
        }
        &self.targets
    }

    /// The compose calls of the build, in the order in which they are made.
    pub fn steps(&self) -> (steps: &Vec<ComposeStep>)
        ensures
            compositions(steps@) == self@.steps,
            self.as_planned(),
    {
        proof {
            use_type_invariant(self);
        }
        &self.steps
    }

    /// For each requested size, in the order of the request, the number of
    /// the object that has that size.
    pub fn results(&self) -> (results: &Vec<usize>)
        ensures
            object_numbers(results@) == self@.results,
            self.as_planned(),
    {
        proof {
            use_type_invariant(self);
        }
        &self.results
    }
}

/// The number of the nearest tier at or below `size`, looked up in the
/// sizes of the chain's tiers.
fn nearest_in_chain(sizes: &Vec<u64>, size: u64) -> (nearest: usize)
    requires
        sizes@.len() > 0,
        sizes@[0] <= size,
    ensures
        nearest < sizes@.len(),
        sizes@[nearest as int] <= size,
        nearest + 1 < sizes@.len() ==> size < sizes@[nearest + 1],
{
    let count = sizes.len();
    let mut nearest: usize = 0;
    while nearest + 1 < count && sizes[nearest + 1] <= size
        invariant
            count == sizes@.len(),
            nearest < count,
            sizes@[nearest as int] <= size,
        decreases count - nearest,
    {
        nearest = nearest + 1;
    }
    nearest
}

/// Plans the build of one object for each of the sizes in `targets`, from
/// a seed of `seed_size` bytes, with compose calls of at most `max_fan_in`
/// sources.
///
/// The request is rejected when the seed is empty, when the fan-in is
/// below two, when the sizes are not strictly increasing, and when a size
/// is not reachable; in the last case the error names the first such size.
pub fn plan_build(seed_size: u64, max_fan_in: u32, targets: &Vec<u64>) -> (result: Result<
    BuildPlan,
    InvalidArgument,
>)
    ensures
        match result {
            Ok(plan) => build_outcome(seed_size, max_fan_in, targets@) == Ok::<
                PlannedBuild,
                InvalidArgument,
            >(plan@) && plan.seed() == seed_size && plan.fan_in() == max_fan_in
                && plan.requested() == targets@,
            Err(e) => build_outcome(seed_size, max_fan_in, targets@) == Err::<
                PlannedBuild,
                InvalidArgument,
            >(e),
        },
{
    if seed_size == 0 {
        return Err(InvalidArgument::EmptySeed);
    }
    if max_fan_in < 2 {
        return Err(InvalidArgument::FanInTooSmall);
    }
    let ghost seed = seed_size as int;
    let ghost k = max_fan_in as int;
    let count = targets.len();
    let mut i: usize = 1;
    while i < count
        invariant
            seed_size > 0,
            max_fan_in >= 2,
            count == targets@.len(),
            1 <= i,
            forall|a: int, b: int| 0 <= a < b < i && b < count ==> targets@[a] < targets@[b],
        decreases count - i,
    {
        if targets[i - 1] >= targets[i] {
            assert(!strictly_increasing(targets@)) by {
                assert(!(targets@[i - 1] < targets@[i as int]));
            }
            return Err(InvalidArgument::TargetsNotIncreasing);
        }
        assert forall|a: int, b: int| 0 <= a < b < i + 1 && b < count implies targets@[a]
            < targets@[b] by {
            if b == i && a < i - 1 {
                assert(targets@[a] < targets@[i - 1]);
            }
        }
        i = i + 1;
    }
    assert(strictly_increasing(targets@));

    let factor: u64 = max_fan_in as u64;
    let mut sizes: Vec<u64> = Vec::new();
    sizes.push(seed_size);
    let mut steps: Vec<ComposeStep> = Vec::new();
    let mut size: u64 = seed_size;
    if count > 0 {
        let largest: u64 = targets[count - 1];
        while size <= largest / factor
            invariant
                seed == seed_size > 0,
                k == max_fan_in == factor >= 2,
                sizes@.len() == steps@.len() + 1,
                size == sizes@[sizes@.len() - 1],
                forall|j: int|
                    0 <= j < sizes@.len() ==> (#[trigger] sizes@[j]) == tier_size(seed, k, j as nat),
                compositions(steps@) =~= tier_steps(seed, k, steps@.len()),
                tier_depth(seed, k, largest as int) == steps@.len() + tier_depth(
                    size as int,
                    k,
                    largest as int,
                ),
            decreases largest - size,
        {
            proof {
                lemma_tier_size_positive(seed, k, (sizes@.len() - 1) as nat);
                lemma_quotient_bound(size as int, largest as int, k);
                assert(size * k > size) by (nonlinear_arith)
                    requires
                        size > 0,
                        k >= 2,
                ;
            }
            let ghost below = size as int;
            let ghost before = steps@;
            size = size * factor;
            let step = ComposeStep { source: steps.len(), fan_in: max_fan_in, size_bytes: size };
            steps.push(step);
            sizes.push(size);
            assert(tier_size(seed, k, (sizes@.len() - 1) as nat) == below * k);
            assert(compositions(steps@) =~= compositions(before).push(step@));
        }
        proof {
            lemma_quotient_bound(size as int, largest as int, k);
            assert(tier_depth(size as int, k, largest as int) == 0);
        }
    }
    let ghost depth = chain_depth(seed, k, targets@);
    assert(steps@.len() == depth);

    let mut results: Vec<usize> = Vec::new();
    let mut i: usize = 0;
    while i < count
        invariant
            seed == seed_size > 0,
            k == max_fan_in >= 2,
            count == targets@.len(),
            i <= count,
            strictly_increasing(targets@),
            depth == chain_depth(seed, k, targets@),
            sizes@.len() == depth + 1,
            forall|j: int|
                0 <= j < sizes@.len() ==> (#[trigger] sizes@[j]) == tier_size(seed, k, j as nat),
            forall|j: int| 0 <= j < i ==> reachable(seed, k, #[trigger] targets@[j] as int),
            compositions(steps@) =~= tier_steps(seed, k, depth) + extra_steps(
                seed,
                k,
                targets@.take(i as int),
            ),
            object_numbers(results@) =~= result_objects(seed, k, depth, targets@.take(i as int)),
        decreases count - i,
    {
        let target: u64 = targets[i];
        let ghost t = target as int;
        proof {
            lemma_first_unreachable_skips(seed, k, targets@, i as int);
            assert(targets@.skip(i as int)[0] == target);
            assert(targets@.take(i + 1).drop_last() =~= targets@.take(i as int));
            assert(targets@.take(i + 1).last() == target);
        }
        if target < seed_size {
            return Err(InvalidArgument::TargetUnreachable(target));
        }
        let nearest = nearest_in_chain(&sizes, target);
        proof {
            let largest = targets@.last() as int;
            assert(t <= largest) by {
                if i < count - 1 {
                    assert(targets@[i as int] < targets@[count - 1]);
                }
            }
            lemma_tier_depth_is_nearest(seed, k, largest);
            if nearest + 1 < sizes@.len() {
                assert(sizes@[nearest + 1] == tier_size(seed, k, (nearest + 1) as nat));
            }
            lemma_nearest_tier_is_unique(seed, k, t, nearest as nat);
        }
        let tier: u64 = sizes[nearest];
        proof {
            lemma_tier_size_positive(seed, k, nearest as nat);
        }
        if target % tier != 0 {
            return Err(InvalidArgument::TargetUnreachable(target));
        }
        let ghost results_before = results@;
        let ghost steps_before = steps@;
        if target == tier {
            results.push(nearest);
            assert(object_numbers(results@) =~= object_numbers(results_before).push(nearest as nat));
        } else {
            proof {
                lemma_tier_depth_is_nearest(seed, k, t);
                lemma_quotient_bound(k, t, tier as int);
                assert(t < k * tier) by (nonlinear_arith)
                    requires
                        t < tier * k,
                ;
            }
            let copies: u64 = target / tier;
            let step = ComposeStep { source: nearest, fan_in: copies as u32, size_bytes: target };
            steps.push(step);
            results.push(steps.len());
            assert(compositions(steps@) =~= compositions(steps_before).push(step@));
            assert(object_numbers(results@) =~= object_numbers(results_before).push(
                steps@.len() as nat,
            ));
        }
        i = i + 1;
    }
    proof {
        lemma_first_unreachable_skips(seed, k, targets@, count as int);
        assert(targets@.take(count as int) =~= targets@);
    }
    Ok(BuildPlan { seed_size, max_fan_in, targets: targets.clone(), steps, results })
}

} // verus!
