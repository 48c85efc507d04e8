//! Partitioning an object into fixed-size byte-range stripes.
//!
//! A plan for an object of `total` bytes and a nominal stripe length `len`
//! consists of `total / len` full stripes followed, when `len` does not
//! divide `total`, by one short stripe holding the remainder.

use vstd::prelude::*;
use vstd::arithmetic::div_mod::lemma_fundamental_div_mod;
use vstd::arithmetic::div_mod::lemma_fundamental_div_mod_converse;
use vstd::arithmetic::mul::lemma_mul_inequality;
use vstd::arithmetic::mul::lemma_mul_is_commutative;
use vstd::arithmetic::mul::lemma_mul_is_distributive_add;
use crate::error::InvalidArgument;

verus! {

/// A stripe length that does well in most environments: 8 MiB, enough for
/// the cost of a call to be small beside the transfer. Twice as much suits
/// a fast and stable connection, and four times as much a very fast one
/// with little delay.
pub const DEFAULT_STRIPE_LENGTH: u64 = 8388608;

/// One contiguous byte range of an object.
#[derive(Clone, Copy, Debug, PartialEq, Eq, Structural)]
pub struct Stripe {
    /// Absolute position of the first byte.
    pub offset: u64,
    /// Number of bytes in the range.
    pub length: u64,
}

impl Stripe {
    /// The position just past the last byte of the range.
    pub open spec fn end(self) -> int {
        self.offset + self.length
    }

    /// Whether the byte at position `b` lies in the range.
    pub open spec fn holds(self, b: int) -> bool {
        self.offset <= b < self.end()
    }
}

/// How many stripes a plan for `total` bytes has at stripe length `len`.
pub open spec fn stripe_count(total: int, len: int) -> int
    recommends
        total > 0,
        len > 0,
{
    if total % len == 0 {
        total / len
    } else {
        total / len + 1
    }
}

/// Where stripe `i` starts.
pub open spec fn stripe_offset(len: int, i: int) -> int {
    i * len
}

/// How many bytes stripe `i` holds: the nominal length, or what is left of
/// the object when that is less.
pub open spec fn stripe_length(total: int, len: int, i: int) -> int {
    if total - i * len < len {
        total - i * len
    } else {
        len
    }
}

/// The stripes of an object of `total` bytes at stripe length `len`, in
/// order of increasing offset.
pub open spec fn planned(total: u64, len: u64) -> Seq<Stripe> {
    Seq::new(
        stripe_count(total as int, len as int) as nat,
        |i: int|
            Stripe {
                offset: stripe_offset(len as int, i) as u64,
                length: stripe_length(total as int, len as int, i) as u64,
            },
    )
}

/// What `plan` returns for the given sizes.
pub open spec fn plan_outcome(total: u64, len: u64) -> Result<Seq<Stripe>, InvalidArgument> {
    if len == 0 {
        Err(InvalidArgument::ZeroStripeLength)
    } else if total == 0 {
        Err(InvalidArgument::EmptyObject)
    } else {
        Ok(planned(total, len))
    }
}

/// The sum of the lengths of the given stripes.
pub open spec fn total_length(stripes: Seq<Stripe>) -> int
    decreases stripes.len(),
{
    if stripes.len() == 0 {
        0
    } else {
        total_length(stripes.drop_last()) + stripes.last().length
    }
}

/// Whether some stripe holds the byte at position `b`.
pub open spec fn covered(stripes: Seq<Stripe>, b: int) -> bool {
    exists|i: int| 0 <= i < stripes.len() && (#[trigger] stripes[i]).holds(b)
}

/// Whether the stripes tile the byte range `[0, total)`: none is empty, the
/// first starts at zero, each starts where its predecessor ends, and the
/// last ends at `total`.
pub open spec fn tiles(stripes: Seq<Stripe>, total: int) -> bool {
    &&& stripes.len() > 0
    &&& stripes[0].offset == 0
    &&& stripes.last().end() == total
    &&& forall|i: int| 0 <= i < stripes.len() ==> (#[trigger] stripes[i]).length > 0
    &&& forall|i: int|
        0 <= i < stripes.len() - 1 ==> (#[trigger] stripes[i]).end() == stripes[i + 1].offset
}

/// Stripe `i` of a plan lies inside the object and is not empty; its
/// offset and length are the planned ones without any wrap-around.
pub proof fn lemma_stripe_bounds(total: u64, len: u64, i: int)
    requires
        total > 0,
        len > 0,
        0 <= i < stripe_count(total as int, len as int),
    ensures
        0 <= stripe_offset(len as int, i) < total,
        0 < stripe_length(total as int, len as int, i) <= len,
        stripe_offset(len as int, i) + stripe_length(total as int, len as int, i) <= total,
        planned(total, len)[i].offset == stripe_offset(len as int, i),
        planned(total, len)[i].length == stripe_length(total as int, len as int, i),
        i < total as int / len as int ==> stripe_length(total as int, len as int, i) == len,
        i == total as int / len as int ==> stripe_length(total as int, len as int, i) == total
            as int % len as int,
{
    let t = total as int;
    let l = len as int;
    let q = t / l;
    lemma_fundamental_div_mod(t, l);
    lemma_mul_is_commutative(l, q);
    assert(t == q * l + t % l);
    assert(0 <= t % l < l);
    if i < q {
        lemma_mul_inequality(i + 1, q, l);
        lemma_mul_is_distributive_add(l, i, 1);
        lemma_mul_is_commutative(l, i);
        lemma_mul_is_commutative(l, i + 1);
        assert((i + 1) * l == i * l + l);
    } else {
        assert(i == q);
    }
    lemma_mul_inequality(0, i, l);
}

/// In a tiling, the lengths of the first `k` stripes add up to the offset
/// at which stripe `k` starts (or to `total` when `k` is the number of
/// stripes).
pub proof fn lemma_tiles_prefix_sum(stripes: Seq<Stripe>, total: int, k: int)
    requires
        tiles(stripes, total),
        0 <= k <= stripes.len(),
    ensures
        total_length(stripes.take(k)) == (if k == stripes.len() {
            total
        } else {
            stripes[k].offset as int
        }),
    decreases k,
{
    if k > 0 {
        lemma_tiles_prefix_sum(stripes, total, k - 1);
        assert(stripes.take(k).drop_last() =~= stripes.take(k - 1));
        assert(stripes.take(k).last() == stripes[k - 1]);
        assert(stripes[k - 1].end() == (if k == stripes.len() {
            total
        } else {
            stripes[k].offset as int
        }));
    } else {
        assert(stripes.take(0).len() == 0);
    }
}

/// In a tiling, an earlier stripe ends no later than a later one starts.
pub proof fn lemma_tiles_disjoint(stripes: Seq<Stripe>, total: int, i: int, j: int)
    requires
        tiles(stripes, total),
        0 <= i < j < stripes.len(),
    ensures
        stripes[i].end() <= stripes[j].offset,
        stripes[i].offset < stripes[j].offset,
    decreases j - i,
{
    if j > i + 1 {
        lemma_tiles_disjoint(stripes, total, i, j - 1);
        assert(stripes[j - 1].end() == stripes[j - 1 + 1].offset);
        assert(stripes[j - 1].length > 0);
    } else {
        assert(stripes[i].end() == stripes[i + 1].offset);
        assert(stripes[i].length > 0);
    }
}

/// In a tiling of `[0, total)`, every byte of that range lies in some
/// stripe; the lemma returns its index.
pub proof fn lemma_tiles_cover(stripes: Seq<Stripe>, total: int, b: int) -> (i: int)
    requires
        tiles(stripes, total),
        0 <= b < total,
    ensures
        0 <= i < stripes.len(),
        stripes[i].holds(b),
    decreases stripes.len(),
{
    let n = stripes.len() as int;
    if b >= stripes.last().offset {
        n - 1
    } else {
        assert(n > 1);
        let front = stripes.drop_last();
        assert(stripes[n - 2].end() == stripes[n - 2 + 1].offset);
        assert forall|k: int| 0 <= k < front.len() implies (#[trigger] front[k]).length > 0 by {
            assert(stripes[k].length > 0);
        }
        assert forall|k: int| 0 <= k < front.len() - 1 implies (#[trigger] front[k]).end()
            == front[k + 1].offset by {
            assert(stripes[k].end() == stripes[k + 1].offset);
        }
        assert(tiles(front, stripes.last().offset as int));
        lemma_tiles_cover(front, stripes.last().offset as int, b)
    }
}

/// The planned stripes tile the object.
pub proof fn lemma_planned_tiles(total: u64, len: u64)
    requires
        total > 0,
        len > 0,
    ensures
        tiles(planned(total, len), total as int),
{
    let p = planned(total, len);
    let t = total as int;
    let l = len as int;
    let n = stripe_count(t, l);
    lemma_fundamental_div_mod(t, l);
    lemma_mul_is_commutative(l, t / l);
    assert(n > 0) by {
        if t / l == 0 {
            assert(t % l == t);
        }
    }
    assert(p.len() == n);
    lemma_stripe_bounds(total, len, 0);
    lemma_stripe_bounds(total, len, n - 1);
    assert(p.last().end() == t) by {
        if t % l == 0 {
            assert(n - 1 < t / l);
            lemma_mul_is_distributive_add(l, n - 1, 1);
            lemma_mul_is_commutative(l, n - 1);
            lemma_mul_is_commutative(l, n);
        } else {
            assert(n - 1 == t / l);
        }
    }
    assert forall|i: int| 0 <= i < p.len() implies (#[trigger] p[i]).length > 0 by {
        lemma_stripe_bounds(total, len, i);
    }
    assert forall|i: int| 0 <= i < p.len() - 1 implies (#[trigger] p[i]).end() == p[i
        + 1].offset by {
        lemma_stripe_bounds(total, len, i);
        lemma_stripe_bounds(total, len, i + 1);
        assert(i < t / l);
        lemma_mul_is_distributive_add(l, i, 1);
        lemma_mul_is_commutative(l, i);
        lemma_mul_is_commutative(l, i + 1);
    }
}

/// For every object size and stripe length above zero, the planned
/// stripes are ordered by strictly increasing offset, contiguous, pairwise
/// disjoint, and their lengths add up to the object's size; every byte of
/// the object lies in exactly one of them.
pub proof fn lemma_plan_partitions(total: u64, len: u64)
    requires
        total > 0,
        len > 0,
    ensures
        tiles(planned(total, len), total as int),
        total_length(planned(total, len)) == total,
        forall|i: int, j: int|
            0 <= i < j < planned(total, len).len() ==> (#[trigger] planned(total, len)[i]).offset
                < (#[trigger] planned(total, len)[j]).offset,
        forall|i: int, j: int|
            0 <= i < j < planned(total, len).len() ==> (#[trigger] planned(total, len)[i]).end()
                <= (#[trigger] planned(total, len)[j]).offset,
        forall|b: int| 0 <= b < total ==> #[trigger] covered(planned(total, len), b),
        forall|b: int, i: int, j: int|
            0 <= i < planned(total, len).len() && 0 <= j < planned(total, len).len()
                && #[trigger] planned(total, len)[i].holds(b) && #[trigger] planned(total, len)[j].holds(b)
                ==> i == j,
{
    let p = planned(total, len);
    let t = total as int;
    lemma_planned_tiles(total, len);
    lemma_tiles_prefix_sum(p, t, p.len() as int);
    assert(p.take(p.len() as int) =~= p);
    assert forall|i: int, j: int| 0 <= i < j < p.len() implies (#[trigger] p[i]).end() <= (
    #[trigger] p[j]).offset && p[i].offset < p[j].offset by {
        lemma_tiles_disjoint(p, t, i, j);
    }
    assert forall|b: int| 0 <= b < total implies #[trigger] covered(p, b) by {
        let i = lemma_tiles_cover(p, t, b);
        assert(p[i].holds(b));
    }
    assert forall|b: int, i: int, j: int|
        0 <= i < p.len() && 0 <= j < p.len() && #[trigger] p[i].holds(b) && #[trigger] p[j].holds(
            b,
        ) implies i == j by {
        if i < j {
            lemma_tiles_disjoint(p, t, i, j);
        } else if j < i {
            lemma_tiles_disjoint(p, t, j, i);
        }
    }
}

/// When the stripe length divides the object's size, every planned stripe
/// has the full stripe length: there is no short final stripe.
pub proof fn lemma_exact_multiple_has_no_short_stripe(total: u64, len: u64)
    requires
        total > 0,
        len > 0,
        total as int % len as int == 0,
    ensures
        planned(total, len).len() == total as int / len as int,
        forall|i: int|
            0 <= i < planned(total, len).len() ==> (#[trigger] planned(total, len)[i]).length
                == len,
{
    assert forall|i: int| 0 <= i < planned(total, len).len() implies (#[trigger] planned(
        total,
        len,
    )[i]).length == len by {
        lemma_stripe_bounds(total, len, i);
    }
}

/// An object no longer than the stripe length is planned as exactly one
/// stripe that covers the whole object.
pub proof fn lemma_single_stripe(total: u64, len: u64)
    requires
        0 < total <= len,
    ensures
        planned(total, len) == seq![Stripe { offset: 0, length: total }],
{
    let t = total as int;
    let l = len as int;
    if total == len {
        lemma_fundamental_div_mod_converse(t, l, 1, 0);
    } else {
        lemma_fundamental_div_mod_converse(t, l, 0, t);
    }
    assert(stripe_count(t, l) == 1);
    lemma_stripe_bounds(total, len, 0);
    assert(planned(total, len) =~= seq![Stripe { offset: 0, length: total }]);
}

/// Planning is a function of the two sizes alone: whatever two runs of
/// `plan` on the same pair return, they return the same.
pub proof fn lemma_replanning_agrees(
    total: u64,
    len: u64,
    first: Result<Seq<Stripe>, InvalidArgument>,
    second: Result<Seq<Stripe>, InvalidArgument>,
)
    requires
        first == plan_outcome(total, len),
        second == plan_outcome(total, len),
    ensures
        first == second,
{
}

/// The stripes of one object, in order of increasing offset.
///
/// A value of this type always holds exactly the stripes that `planned`
/// gives for its object size and stripe length.
#[derive(Debug, PartialEq, Eq)]
pub struct StripePlan {
    total_size: u64,
    stripe_length: u64,
    stripes: Vec<Stripe>,
}

impl View for StripePlan {
    type V = Seq<Stripe>;

    closed spec fn view(&self) -> Seq<Stripe> {
        self.stripes@
    }
}

impl Clone for StripePlan {
    fn clone(&self) -> (copy: Self)
        ensures
            copy@ == self@,
            copy.total() == self.total(),
            copy.nominal() == self.nominal(),
    {
        proof {
            use_type_invariant(self);
        }
        let stripes = self.stripes.clone();
        assert(stripes@ =~= self.stripes@);
        StripePlan { total_size: self.total_size, stripe_length: self.stripe_length, stripes }
    }
}

impl StripePlan {
    #[verifier::type_invariant]
    spec fn inv(self) -> bool {
        &&& self.total_size > 0
        &&& self.stripe_length > 0
        &&& self.stripes@ == planned(self.total_size, self.stripe_length)
    }

    /// The size of the object that the plan covers.
    pub closed spec fn total(self) -> u64 {
        self.total_size
    }

    /// The nominal stripe length that the plan was made with.
    pub closed spec fn nominal(self) -> u64 {
        self.stripe_length
    }

    /// Whether the plan holds the stripes that `planned` gives for its
    /// object size and stripe length. This is so of every plan.
    pub open spec fn as_planned(self) -> bool {
        &&& self.total() > 0
        &&& self.nominal() > 0
        &&& self@ == planned(self.total(), self.nominal())
    }

    /// The size of the object that the plan covers, in bytes.
    pub fn total_size(&self) -> (size: u64)
        ensures
            size == self.total(),
            self.as_planned(),
    {
        proof {
            use_type_invariant(self);
        }
        self.total_size
    }

    /// The nominal stripe length that the plan was made with.
    pub fn stripe_length(&self) -> (length: u64)
        ensures
            length == self.nominal(),
            self.as_planned(),
    {
        proof {
            use_type_invariant(self);
        }
        self.stripe_length
    }

    /// The stripes of the plan, in order of increasing offset.
    pub fn stripes(&self) -> (stripes: &Vec<Stripe>)
        ensures
            stripes@ == self@,
            self.as_planned(),
    {
        proof {
            use_type_invariant(self);
        }
        &self.stripes
    }

    /// The number of stripes of the plan.
    pub fn len(&self) -> (count: usize)
        ensures
            count == self@.len(),
            self.as_planned(),
    {
        proof {
            use_type_invariant(self);
        }
        self.stripes.len()
    }

    /// Stripe `index` of the plan, or `None` when the plan has no such
    /// stripe.
    pub fn get(&self, index: usize) -> (stripe: Option<Stripe>)
        ensures
            self.as_planned(),
            stripe == (if index < self@.len() {
                Some(self@[index as int])
            } else {
                None
            }),
    {
        proof {
            use_type_invariant(self);
        }
        if index < self.stripes.len() {
            Some(self.stripes[index])
        } else {
            None
        }
    }
}

/// Partitions an object of `total_size` bytes into stripes of
/// `stripe_length` bytes, the last of which holds what is left over.
///
/// A zero stripe length or an empty object is rejected.
pub fn plan(total_size: u64, stripe_length: u64) -> (result: Result<StripePlan, InvalidArgument>)
    ensures
        match result {
            Ok(p) => plan_outcome(total_size, stripe_length) == Ok::<Seq<Stripe>, InvalidArgument>(p@)
                && p.total() == total_size && p.nominal() == stripe_length,
            Err(e) => plan_outcome(total_size, stripe_length) == Err::<Seq<Stripe>, InvalidArgument>(e),
        },
{
    if stripe_length == 0 {
        return Err(InvalidArgument::ZeroStripeLength);
    }
    if total_size == 0 {
        return Err(InvalidArgument::EmptyObject);
    }
    let full: u64 = total_size / stripe_length;
    let rest: u64 = total_size % stripe_length;
    let mut stripes: Vec<Stripe> = Vec::new();
    let mut i: u64 = 0;
    while i < full
        invariant
            total_size > 0,
            stripe_length > 0,
            full == total_size / stripe_length,
            i <= full,
            stripes@.len() == i,
            forall|j: int| 0 <= j < i ==> #[trigger] stripes@[j] == planned(total_size, stripe_length)[j],
        decreases full - i,
    {
        proof {
            lemma_stripe_bounds(total_size, stripe_length, i as int);
        }
        stripes.push(Stripe { offset: i * stripe_length, length: stripe_length });
        i = i + 1;
    }
    if rest != 0 {
        proof {
            lemma_stripe_bounds(total_size, stripe_length, full as int);
        }
        stripes.push(Stripe { offset: full * stripe_length, length: rest });
    }
    assert(stripes@ =~= planned(total_size, stripe_length));
    Ok(StripePlan { total_size, stripe_length, stripes })
}

} // verus!
