//! What composed objects hold.
//!
//! Composing copies of an object yields the bytes of the object, once for
//! each copy, one copy after the other. An object of a build therefore
//! holds the seed's bytes a whole number of times, and fetching it in
//! stripes gives those bytes back.

use vstd::prelude::*;
use vstd::arithmetic::div_mod::lemma_fundamental_div_mod_converse;
use vstd::arithmetic::mul::lemma_mul_is_commutative;
use vstd::arithmetic::mul::lemma_mul_is_distributive_add;
use vstd::arithmetic::power::lemma_pow_positive;
use vstd::arithmetic::power::pow;
use crate::assembly::assembled;
use crate::assembly::lemma_any_order_reassembles;
use crate::compose::build_outcome;
use crate::compose::chain_depth;
use crate::compose::Composition;
use crate::compose::lemma_planned_build_is_sound;
use crate::compose::object_size;
use crate::compose::planned_build;
use crate::compose::PlannedBuild;
use crate::compose::sound;
use crate::compose::tier_steps;
use crate::stripe::planned;
use crate::tier::lemma_tier_size_is_power;
use crate::tier::tier_size;

verus! {

/// The given bytes, `copies` times in a row.
pub open spec fn repeated(content: Seq<u8>, copies: nat) -> Seq<u8>
    decreases copies,
{
    if copies == 0 {
        Seq::empty()
    } else {
        repeated(content, (copies - 1) as nat) + content
    }
}

/// What tier `n` of a chain holds: the seed's bytes for tier zero, and
/// else `fan_in` copies of what tier `n - 1` holds.
pub open spec fn tier_content(seed: Seq<u8>, fan_in: nat, n: nat) -> Seq<u8>
    decreases n,
{
    if n == 0 {
        seed
    } else {
        repeated(tier_content(seed, fan_in, (n - 1) as nat), fan_in)
    }
}

/// How many times object `i` of a build holds the seed's bytes.
pub open spec fn seed_copies(steps: Seq<Composition>, i: nat) -> nat
    decreases i,
{
    if i == 0 {
        1
    } else if i <= steps.len() && steps[i - 1].source < i {
        steps[i - 1].fan_in * seed_copies(steps, steps[i - 1].source)
    } else {
        0
    }
}

/// What object `i` of a build holds, in a store whose compose call
/// puts the copies of the source one after the other.
pub open spec fn composed_content(seed: Seq<u8>, steps: Seq<Composition>, i: nat) -> Seq<u8>
    decreases i,
{
    if i == 0 {
        seed
    } else if i <= steps.len() && steps[i - 1].source < i {
        repeated(composed_content(seed, steps, steps[i - 1].source), steps[i - 1].fan_in)
    } else {
        Seq::empty()
    }
}

/// Repeated content is as long as all its copies together.
pub proof fn lemma_repeated_len(content: Seq<u8>, copies: nat)
    ensures
        repeated(content, copies).len() == copies * content.len(),
    decreases copies,
{
    let size = content.len();
    if copies > 0 {
        lemma_repeated_len(content, (copies - 1) as nat);
        assert(copies * size == (copies - 1) * size + size) by (nonlinear_arith);
    } else {
        assert(copies * size == 0) by (nonlinear_arith)
            requires
                copies == 0,
        ;
    }
}

/// Copies put behind copies are copies.
pub proof fn lemma_repeated_add(content: Seq<u8>, first: nat, second: nat)
    ensures
        repeated(content, first) + repeated(content, second) == repeated(content, first + second),
    decreases second,
{
    if second > 0 {
        lemma_repeated_add(content, first, (second - 1) as nat);
        assert(repeated(content, first) + (repeated(content, (second - 1) as nat) + content) =~= (
        repeated(content, first) + repeated(content, (second - 1) as nat)) + content);
    } else {
        assert(repeated(content, first) + repeated(content, 0) =~= repeated(content, first));
    }
}

/// Copies of copies are copies: `outer` copies of `inner` copies of the
/// content are `inner * outer` copies of it.
pub proof fn lemma_repeated_twice(content: Seq<u8>, inner: nat, outer: nat)
    ensures
        repeated(repeated(content, inner), outer) == repeated(content, inner * outer),
    decreases outer,
{
    if outer > 0 {
        lemma_repeated_twice(content, inner, (outer - 1) as nat);
        lemma_repeated_add(content, inner * ((outer - 1) as nat), inner);
        lemma_mul_is_distributive_add(inner as int, outer - 1, 1);
        assert(inner * ((outer - 1) as nat) + inner == inner * outer);
    } else {
        assert(inner * 0 == 0);
    }
}

/// Byte `i` of repeated content is byte `i` modulo the content's length of
/// the content.
pub proof fn lemma_repeated_byte(content: Seq<u8>, copies: nat, i: int)
    requires
        0 <= i < repeated(content, copies).len(),
    ensures
        content.len() > 0,
        repeated(content, copies)[i] == content[i % content.len() as int],
    decreases copies,
{
    lemma_repeated_len(content, copies);
    let size = content.len() as int;
    if size == 0 {
        assert(copies * 0 == 0);
    }
    assert(copies > 0);
    let before = repeated(content, (copies - 1) as nat);
    lemma_repeated_len(content, (copies - 1) as nat);
    if i < before.len() {
        lemma_repeated_byte(content, (copies - 1) as nat, i);
    } else {
        lemma_mul_is_commutative(size, copies - 1);
        lemma_fundamental_div_mod_converse(i, size, copies - 1, i - before.len());
    }
}

/// Tier `n` of a chain holds the seed's bytes `fan_in` to the power of
/// `n` times, and so as many bytes as `tier_size` says.
pub proof fn lemma_tier_content(seed: Seq<u8>, fan_in: nat, n: nat)
    ensures
        pow(fan_in as int, n) >= 0,
        tier_content(seed, fan_in, n) == repeated(seed, pow(fan_in as int, n) as nat),
        tier_content(seed, fan_in, n).len() == seed.len() * pow(fan_in as int, n),
        tier_content(seed, fan_in, n).len() == tier_size(seed.len() as int, fan_in as int, n),
    decreases n,
{
    reveal(pow);
    lemma_tier_size_is_power(seed.len() as int, fan_in as int, n);
    if n > 0 {
        lemma_tier_content(seed, fan_in, (n - 1) as nat);
        let below = pow(fan_in as int, (n - 1) as nat) as nat;
        lemma_repeated_twice(seed, below, fan_in);
        lemma_mul_is_commutative(below as int, fan_in as int);
        assert(below * fan_in >= 0) by (nonlinear_arith)
            requires
                below >= 0,
                fan_in >= 0,
        ;
    } else {
        assert(repeated(seed, 1) =~= seed) by {
            assert(repeated(seed, 0) =~= Seq::<u8>::empty());
        }
    }
    lemma_repeated_len(seed, pow(fan_in as int, n) as nat);
    lemma_mul_is_commutative(seed.len() as int, pow(fan_in as int, n));
}

/// In a sound build, every object holds the seed's bytes a whole number of
/// times, and is exactly as large as the plan says.
pub proof fn lemma_composed_content(
    seed: Seq<u8>,
    fan_in: int,
    targets: Seq<u64>,
    steps: Seq<Composition>,
    results: Seq<nat>,
    i: nat,
)
    requires
        sound(
            seed.len() as int,
            fan_in,
            targets,
            PlannedBuild { steps, results },
        ),
        i <= steps.len(),
    ensures
        composed_content(seed, steps, i) == repeated(seed, seed_copies(steps, i)),
        composed_content(seed, steps, i).len() == object_size(seed.len() as int, steps, i as int),
    decreases i,
{
    if i > 0 {
        let build = PlannedBuild { steps, results };
        let step = build.steps[i - 1];
        assert(step.source <= i - 1);
        lemma_composed_content(seed, fan_in, targets, steps, results, step.source);
        lemma_repeated_twice(seed, seed_copies(steps, step.source), step.fan_in);
        lemma_mul_is_commutative(seed_copies(steps, step.source) as int, step.fan_in as int);
        lemma_repeated_len(composed_content(seed, steps, step.source), step.fan_in);
    } else {
        assert(repeated(seed, 1) =~= seed) by {
            assert(repeated(seed, 0) =~= Seq::<u8>::empty());
        }
    }
}

/// In every build that `plan_build` accepts, the first objects are the
/// tiers of the chain: object `n` holds what tier `n` holds.
pub proof fn lemma_chain_content(seed: Seq<u8>, fan_in: u32, targets: Seq<u64>, n: nat)
    requires
        seed.len() <= u64::MAX,
        build_outcome(seed.len() as u64, fan_in, targets) is Ok,
        n <= chain_depth(seed.len() as int, fan_in as int, targets),
    ensures
        composed_content(
            seed,
            planned_build(seed.len() as int, fan_in as int, targets).steps,
            n,
        ) == tier_content(seed, fan_in as nat, n),
    decreases n,
{
    if n > 0 {
        let steps = planned_build(seed.len() as int, fan_in as int, targets).steps;
        let depth = chain_depth(seed.len() as int, fan_in as int, targets);
        lemma_chain_content(seed, fan_in, targets, (n - 1) as nat);
        assert(steps[n - 1] == tier_steps(seed.len() as int, fan_in as int, depth)[n - 1]);
    }
}

/// In every build that `plan_build` accepts, the object named for a
/// requested size holds exactly that many bytes, and they are the seed's
/// bytes a whole number of times in a row.
pub proof fn lemma_build_delivers(seed: Seq<u8>, fan_in: u32, targets: Seq<u64>, j: int)
    requires
        seed.len() <= u64::MAX,
        build_outcome(seed.len() as u64, fan_in, targets) is Ok,
        0 <= j < targets.len(),
    ensures
        ({
            let build = planned_build(seed.len() as int, fan_in as int, targets);
            let content = composed_content(seed, build.steps, build.results[j]);
            &&& build.results.len() == targets.len()
            &&& content.len() == targets[j]
            &&& content == repeated(seed, seed_copies(build.steps, build.results[j]))
        }),
{
    let build = planned_build(seed.len() as int, fan_in as int, targets);
    lemma_planned_build_is_sound(seed.len() as u64, fan_in, targets);
    assert(build.results[j] <= build.steps.len());
    lemma_composed_content(
        seed,
        fan_in as int,
        targets,
        build.steps,
        build.results,
        build.results[j],
    );
}

/// A seed composed with a fan-in for `n` tiers yields an object of the
/// seed's size times the fan-in to the power of `n`, which holds the seed's
/// bytes that many times in a row; and fetching that object in stripes of
/// any length, in any order in which each stripe comes up, gives exactly
/// those bytes back.
pub proof fn lemma_round_trip(
    seed: Seq<u8>,
    fan_in: nat,
    n: nat,
    stripe_length: u64,
    file: Seq<u8>,
    order: Seq<int>,
)
    requires
        seed.len() > 0,
        fan_in > 0,
        seed.len() * pow(fan_in as int, n) <= u64::MAX,
        stripe_length > 0,
        file.len() == seed.len() * pow(fan_in as int, n),
        forall|k: int|
            0 <= k < order.len() ==> 0 <= #[trigger] order[k] < planned(
                (seed.len() * pow(fan_in as int, n)) as u64,
                stripe_length,
            ).len(),
        forall|i: int|
            0 <= i < planned((seed.len() * pow(fan_in as int, n)) as u64, stripe_length).len()
                ==> #[trigger] order.contains(i),
    ensures
        tier_content(seed, fan_in, n).len() == seed.len() * pow(fan_in as int, n),
        tier_content(seed, fan_in, n) == repeated(seed, pow(fan_in as int, n) as nat),
        assembled(
            file,
            tier_content(seed, fan_in, n),
            planned((seed.len() * pow(fan_in as int, n)) as u64, stripe_length),
            order,
        ) == repeated(seed, pow(fan_in as int, n) as nat),
{
    lemma_tier_content(seed, fan_in, n);
    lemma_pow_positive(fan_in as int, n);
    assert(seed.len() * pow(fan_in as int, n) > 0) by (nonlinear_arith)
        requires
            seed.len() > 0,
            pow(fan_in as int, n) > 0,
    ;
    lemma_any_order_reassembles(tier_content(seed, fan_in, n), stripe_length, file, order);
}

} // verus!
