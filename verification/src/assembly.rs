//! Putting an object back together from its stripes.
//!
//! The destination is modelled as a sequence of bytes of the object's
//! size. Each stripe is written at its own offset; since the stripes of a
//! plan tile the object, the destination ends up holding the object's
//! bytes whatever the order in which the stripes arrive.

use vstd::prelude::*;
use crate::error::Fault;
use crate::error::TransferError;
use crate::fetch::StripeFetch;
use crate::stripe::covered;
use crate::stripe::lemma_plan_partitions;
use crate::stripe::planned;
use crate::stripe::Stripe;

verus! {

/// The destination after `data` has been written at `position`. Bytes
/// outside the written range stay as they were; the destination does not
/// grow.
pub open spec fn written_at(file: Seq<u8>, position: int, data: Seq<u8>) -> Seq<u8> {
    Seq::new(
        file.len(),
        |b: int|
            if position <= b < position + data.len() {
                data[b - position]
            } else {
                file[b]
            },
    )
}

/// The bytes of `content` that lie in the given stripe.
pub open spec fn stripe_bytes(content: Seq<u8>, stripe: Stripe) -> Seq<u8> {
    content.subrange(stripe.offset as int, stripe.end())
}

/// The destination after the stripes named by `order` have been fetched
/// from `content` and written, one after the other, in that order.
pub open spec fn assembled(
    file: Seq<u8>,
    content: Seq<u8>,
    stripes: Seq<Stripe>,
    order: Seq<int>,
) -> Seq<u8>
    decreases order.len(),
{
    if order.len() == 0 {
        file
    } else {
        let stripe = stripes[order.last()];
        written_at(
            assembled(file, content, stripes, order.drop_last()),
            stripe.offset as int,
            stripe_bytes(content, stripe),
        )
    }
}

/// The bytes of the given chunks, one chunk after the other.
pub open spec fn joined(chunks: Seq<Vec<u8>>) -> Seq<u8>
    decreases chunks.len(),
{
    if chunks.len() == 0 {
        Seq::empty()
    } else {
        joined(chunks.drop_last()) + chunks.last()@
    }
}

/// Two writes to ranges that do not overlap give the same destination in
/// either order.
pub proof fn lemma_disjoint_writes_commute(
    file: Seq<u8>,
    first: int,
    first_data: Seq<u8>,
    second: int,
    second_data: Seq<u8>,
)
    requires
        first + first_data.len() <= second || second + second_data.len() <= first,
    ensures
        written_at(written_at(file, first, first_data), second, second_data) == written_at(
            written_at(file, second, second_data),
            first,
            first_data,
        ),
{
    assert(written_at(written_at(file, first, first_data), second, second_data) =~= written_at(
        written_at(file, second, second_data),
        first,
        first_data,
    ));
}

/// After the stripes named by `order` have been written, the destination
/// has its old size and holds the object's bytes in every stripe that
/// `order` names.
pub proof fn lemma_assembled_holds_fetched(
    file: Seq<u8>,
    content: Seq<u8>,
    stripes: Seq<Stripe>,
    order: Seq<int>,
)
    requires
        file.len() == content.len(),
        forall|i: int| 0 <= i < stripes.len() ==> (#[trigger] stripes[i]).end() <= content.len(),
        forall|k: int| 0 <= k < order.len() ==> 0 <= #[trigger] order[k] < stripes.len(),
    ensures
        assembled(file, content, stripes, order).len() == file.len(),
        forall|k: int, b: int|
            0 <= k < order.len() && #[trigger] stripes[order[k]].holds(b) ==> assembled(
                file,
                content,
                stripes,
                order,
            )[b] == content[b],
    decreases order.len(),
{
    if order.len() > 0 {
        let front = order.drop_last();
        let before = assembled(file, content, stripes, front);
        let stripe = stripes[order.last()];
        assert(stripe.end() <= content.len());
        lemma_assembled_holds_fetched(file, content, stripes, front);
        let after = assembled(file, content, stripes, order);
        assert forall|k: int, b: int|
            0 <= k < order.len() && #[trigger] stripes[order[k]].holds(b) implies after[b]
            == content[b] by {
            assert(stripes[order[k]].end() <= content.len());
            if stripe.holds(b) {
                assert(stripe_bytes(content, stripe)[b - stripe.offset] == content[b]);
            } else {
                assert(k < front.len());
                assert(front[k] == order[k]);
                assert(before[b] == content[b]);
            }
        }
    }
}

/// Fetching the stripes of a plan in any order in which each of them
/// comes up at least once leaves the destination holding exactly the
/// object's bytes. In particular every such order gives what fetching the
/// stripes one by one from first to last gives.
pub proof fn lemma_any_order_reassembles(
    content: Seq<u8>,
    stripe_length: u64,
    file: Seq<u8>,
    order: Seq<int>,
)
    requires
        0 < content.len() <= u64::MAX,
        stripe_length > 0,
        file.len() == content.len(),
        forall|k: int|
            0 <= k < order.len() ==> 0 <= #[trigger] order[k] < planned(
                content.len() as u64,
                stripe_length,
            ).len(),
        forall|i: int|
            0 <= i < planned(content.len() as u64, stripe_length).len() ==> #[trigger] order.contains(
                i,
            ),
    ensures
        assembled(file, content, planned(content.len() as u64, stripe_length), order) == content,
{
    let total = content.len() as u64;
    let stripes = planned(total, stripe_length);
    let result = assembled(file, content, stripes, order);
    lemma_plan_partitions(total, stripe_length);
    assert forall|i: int| 0 <= i < stripes.len() implies (#[trigger] stripes[i]).end()
        <= content.len() by {
        if i < stripes.len() - 1 {
            assert(stripes[i].end() <= stripes[stripes.len() - 1].offset);
        }
    }
    lemma_assembled_holds_fetched(file, content, stripes, order);
    assert forall|b: int| 0 <= b < content.len() implies result[b] == content[b] by {
        assert(covered(stripes, b));
        let i = choose|i: int| 0 <= i < stripes.len() && (#[trigger] stripes[i]).holds(b);
        assert(order.contains(i));
        let k = choose|k: int| 0 <= k < order.len() && #[trigger] order[k] == i;
        assert(stripes[order[k]].holds(b));
    }
    assert(result =~= content);
}

/// Two downloads of one object into destinations of the object's size
/// end with the same bytes, whatever the order in which their stripes
/// arrive, as long as every stripe arrives: fetching the stripes at once
/// gives what fetching them one by one gives.
pub proof fn lemma_order_does_not_matter(
    content: Seq<u8>,
    stripe_length: u64,
    file: Seq<u8>,
    first: Seq<int>,
    second: Seq<int>,
)
    requires
        0 < content.len() <= u64::MAX,
        stripe_length > 0,
        file.len() == content.len(),
        forall|k: int|
            0 <= k < first.len() ==> 0 <= #[trigger] first[k] < planned(
                content.len() as u64,
                stripe_length,
            ).len(),
        forall|k: int|
            0 <= k < second.len() ==> 0 <= #[trigger] second[k] < planned(
                content.len() as u64,
                stripe_length,
            ).len(),
        forall|i: int|
            0 <= i < planned(content.len() as u64, stripe_length).len() ==> #[trigger] first.contains(
                i,
            ),
        forall|i: int|
            0 <= i < planned(content.len() as u64, stripe_length).len() ==> #[trigger] second.contains(
                i,
            ),
    ensures
        assembled(file, content, planned(content.len() as u64, stripe_length), first) == assembled(
            file,
            content,
            planned(content.len() as u64, stripe_length),
            second,
        ),
{
    lemma_any_order_reassembles(content, stripe_length, file, first);
    lemma_any_order_reassembles(content, stripe_length, file, second);
}

/// Writes `chunk` into the destination at `position`. A write that would
/// reach beyond the end of the destination is not made, and the result is
/// `false`.
pub fn write_at(file: &mut Vec<u8>, position: u64, chunk: &[u8]) -> (done: bool)
    ensures
        done == (position + chunk@.len() <= old(file)@.len()),
        done ==> final(file)@ == written_at(old(file)@, position as int, chunk@),
        !done ==> final(file)@ == old(file)@,
{
    let size = file.len();
    let count = chunk.len();
    if position > size as u64 || count > size - position as usize {
        return false;
    }
    let start: usize = position as usize;
    let mut i: usize = 0;
    while i < count
        invariant
            count == chunk@.len(),
            size == file@.len() == old(file)@.len(),
            start == position,
            start + count <= size,
            i <= count,
            file@ =~= written_at(old(file)@, position as int, chunk@.take(i as int)),
        decreases count - i,
    {
        file[start + i] = chunk[i];
        i = i + 1;
    }
    assert(chunk@.take(count as int) =~= chunk@);
    true
}

/// The first `m` chunks hold no more bytes than all of them.
pub proof fn lemma_joined_prefix(chunks: Seq<Vec<u8>>, m: int)
    requires
        0 <= m <= chunks.len(),
    ensures
        joined(chunks.take(m)).len() <= joined(chunks).len(),
        m < chunks.len() ==> joined(chunks.take(m + 1)) == joined(chunks.take(m)) + chunks[m]@,
    decreases chunks.len() - m,
{
    if m < chunks.len() {
        lemma_joined_prefix(chunks, m + 1);
        assert(chunks.take(m + 1).drop_last() =~= chunks.take(m));
    } else {
        assert(chunks.take(m) =~= chunks);
    }
}

/// How many of the leading chunks fit, one behind the other, into `room`
/// bytes.
pub open spec fn fitting(chunks: Seq<Vec<u8>>, room: int) -> nat
    decreases chunks.len(),
{
    if chunks.len() == 0 || chunks[0]@.len() > room {
        0
    } else {
        1 + fitting(chunks.drop_first(), room - chunks[0]@.len())
    }
}

/// When the first `m` chunks fit, the count of fitting chunks is `m` plus
/// the count among the rest, for the room that is left.
pub proof fn lemma_fitting_skips(chunks: Seq<Vec<u8>>, room: int, m: int)
    requires
        0 <= m <= chunks.len(),
        joined(chunks.take(m)).len() <= room,
    ensures
        fitting(chunks, room) == m + fitting(chunks.skip(m), room - joined(chunks.take(m)).len()),
    decreases m,
{
    if m > 0 {
        lemma_joined_prefix(chunks, m - 1);
        lemma_fitting_skips(chunks, room, m - 1);
        let rest = chunks.skip(m - 1);
        assert(rest[0] == chunks[m - 1]);
        assert(rest.drop_first() =~= chunks.skip(m));
    } else {
        assert(chunks.take(0).len() == 0);
        assert(chunks.skip(0) =~= chunks);
    }
}

/// What fetching a stripe returns when the stream delivers `delivered`
/// bytes in all, for a fetch that had placed `placed` bytes before.
pub open spec fn stream_verdict(fetch: StripeFetch, delivered: int) -> Result<u64, Fault> {
    let length = fetch.range().length;
    if fetch.placed() + delivered == length {
        Ok(length)
    } else if fetch.placed() + delivered < length {
        Err(Fault::ShortRead { expected: length, actual: (fetch.placed() + delivered) as u64 })
    } else {
        Err(Fault::ExcessData { expected: length })
    }
}

/// Fetches one stripe into a destination held in memory: writes the
/// chunks of the stream, in the order in which they come, one behind the
/// other from the position that the fetch has reached, and tells whether
/// the stripe is complete.
///
/// The destination must have been sized to hold the stripe. Whatever the
/// stream delivers, no byte outside the stripe's range is touched.
pub fn fetch_stripe(file: &mut Vec<u8>, fetch: StripeFetch, chunks: &Vec<Vec<u8>>) -> (result:
    Result<u64, TransferError>)
    requires
        fetch.range().end() <= old(file)@.len(),
    ensures
        final(file)@.len() == old(file)@.len(),
        forall|b: int|
            0 <= b < old(file)@.len() && !fetch.range().holds(b) ==> final(file)@[b] == old(
                file,
            )@[b],
        match result {
            Ok(bytes) => stream_verdict(fetch, joined(chunks@).len() as int) == Ok::<u64, Fault>(
                bytes,
            ),
            Err(e) => stream_verdict(fetch, joined(chunks@).len() as int) == Err::<u64, Fault>(
                e.fault,
            ) && e@ == fetch.failure(e.fault),
        },
        final(file)@ == written_at(
            old(file)@,
            fetch.range().offset + fetch.placed(),
            joined(chunks@.take(fitting(chunks@, fetch.range().length - fetch.placed()) as int)),
        ),
{
    // Asking for the stripe tells that no more of it has been placed than
    // it holds.
    let stripe = fetch.stripe();
    let ghost start = stripe.offset + fetch.placed();
    let mut progress = fetch;
    let count = chunks.len();
    let mut i: usize = 0;
    proof {
        assert(chunks@.take(0).len() == 0);
        assert(file@ =~= written_at(old(file)@, start, joined(chunks@.take(0))));
    }
    while i < count
        invariant
            count == chunks@.len(),
            i <= count,
            progress.source() == fetch.source(),
            progress.range() == fetch.range(),
            fetch.range().end() <= old(file)@.len(),
            start == fetch.range().offset + fetch.placed(),
            progress.placed() == fetch.placed() + joined(chunks@.take(i as int)).len(),
            progress.placed() <= fetch.range().length,
            file@ == written_at(old(file)@, start, joined(chunks@.take(i as int))),
        decreases count - i,
    {
        proof {
            lemma_joined_prefix(chunks@, i as int);
            lemma_joined_prefix(chunks@, i + 1);
            lemma_fitting_skips(chunks@, fetch.range().length - fetch.placed(), i as int);
            assert(chunks@.skip(i as int)[0] == chunks@[i as int]);
        }
        let chunk = chunks[i].as_slice();
        let ghost before = file@;
        match progress.accept(chunk.len()) {
            Ok(position) => {
                let done = write_at(file, position, chunk);
                assert(done);
                assert(file@ =~= written_at(
                    old(file)@,
                    start,
                    joined(chunks@.take(i as int)) + chunk@,
                ));
            },
            Err(e) => {
                return Err(e);
            },
        }
        i = i + 1;
    }
    proof {
        assert(chunks@.take(count as int) =~= chunks@);
        lemma_fitting_skips(chunks@, fetch.range().length - fetch.placed(), count as int);
        assert(chunks@.skip(count as int).len() == 0);
    }
    progress.finish()
}

} // verus!
