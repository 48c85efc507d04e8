use cloud_storage::assembly::{fetch_stripe, write_at};
use cloud_storage::dispatch::Dispatcher;
use cloud_storage::error::{Fault, InvalidArgument, StoreError, TransferError};
use cloud_storage::fetch::StripeFetch;
use cloud_storage::object::ObjectRef;
use cloud_storage::seed::alphabet_cycle;
use cloud_storage::stripe::Stripe;
use cloud_storage::transfer::{Transfer, TransferResult};

fn pinned() -> ObjectRef {
    ObjectRef::new("4GiB.txt", 1234)
}

/// What a store that concatenates its sources holds after `tiers` rounds of
/// composing `fan_in` copies.
fn composed(seed: &[u8], fan_in: usize, tiers: u32) -> Vec<u8> {
    let mut content = seed.to_vec();
    for _ in 0..tiers {
        content = content.repeat(fan_in);
    }
    content
}

/// Serves the stripe as the store would: its bytes, cut into chunks of at
/// most `chunk` bytes.
fn serve(content: &[u8], stripe: Stripe, chunk: usize) -> Vec<Vec<u8>> {
    let start = stripe.offset as usize;
    let end = start + stripe.length as usize;
    content[start..end].chunks(chunk).map(|c| c.to_vec()).collect()
}

fn download(content: &[u8], stripe_length: u64, order: &[usize], chunk: usize) -> Vec<u8> {
    let transfer = Transfer::begin("object", content.len() as u64, 7, stripe_length).unwrap();
    let mut file = vec![0u8; content.len()];
    let mut outcomes: Vec<Option<Result<u64, TransferError>>> =
        (0..transfer.plan().len()).map(|_| None).collect();
    for &index in order {
        let fetch = transfer.fetch(index).unwrap();
        let chunks = serve(content, fetch.stripe(), chunk);
        outcomes[index] = Some(fetch_stripe(&mut file, fetch, &chunks));
    }
    let outcomes: Vec<Result<u64, TransferError>> = outcomes.into_iter().flatten().collect();
    if let Some(done) = transfer.conclude(&outcomes, 1) {
        assert_eq!(done.unwrap().bytes_transferred, content.len() as u64);
    }
    file
}

#[test]
fn composed_object_has_the_expected_size_and_downloads_to_the_repeated_seed() {
    let seed = alphabet_cycle(10);
    for (fan_in, tiers) in [(2usize, 3u32), (3, 2), (4, 1), (5, 0)] {
        let content = composed(&seed, fan_in, tiers);
        assert_eq!(content.len(), 10 * fan_in.pow(tiers));
        let expected = seed.repeat(fan_in.pow(tiers));
        for stripe_length in [1u64, 3, 7, 10, 16, 79, 80, 81, 1000] {
            let count = Transfer::begin("o", content.len() as u64, 1, stripe_length)
                .unwrap()
                .plan()
                .len();
            let order: Vec<usize> = (0..count).collect();
            assert_eq!(download(&content, stripe_length, &order, 4), expected);
        }
    }
}

#[test]
fn any_completion_order_gives_the_sequential_result() {
    let content: Vec<u8> = (0..103u32).map(|i| (i * 7 % 251) as u8).collect();
    let sequential = download(&content, 10, &(0..11).collect::<Vec<_>>(), 3);
    assert_eq!(sequential, content);
    let orders: Vec<Vec<usize>> = vec![
        (0..11).rev().collect(),
        vec![5, 0, 10, 3, 8, 1, 6, 9, 2, 7, 4],
        vec![10, 0, 9, 1, 8, 2, 7, 3, 6, 4, 5],
        vec![1, 3, 5, 7, 9, 0, 2, 4, 6, 8, 10],
        vec![0, 0, 1, 2, 3, 4, 5, 6, 7, 8, 9, 10, 3],
    ];
    for order in orders {
        for chunk in [1usize, 4, 10, 64] {
            assert_eq!(download(&content, 10, &order, chunk), sequential);
        }
    }
}

#[test]
fn short_read_in_the_seventh_stripe_is_reported_with_its_offset() {
    let stripe_length = 1000u64;
    let content = alphabet_cycle(10_000);
    let transfer = Transfer::begin("big.txt", 10_000, 42, stripe_length).unwrap();
    assert_eq!(transfer.plan().len(), 10);
    let mut file = vec![0u8; content.len()];
    let mut outcomes = Vec::new();
    for index in 0..10 {
        let fetch = transfer.fetch(index).unwrap();
        let mut chunks = serve(&content, fetch.stripe(), 256);
        if index == 6 {
            chunks.pop();
        }
        outcomes.push(fetch_stripe(&mut file, fetch, &chunks));
    }
    let error = transfer.conclude(&outcomes, 5).unwrap().unwrap_err();
    assert_eq!(
        error,
        TransferError {
            object: ObjectRef::new("big.txt", 42),
            offset: 6 * stripe_length,
            length: stripe_length,
            fault: Fault::ShortRead { expected: 1000, actual: 768 },
        }
    );
    assert_eq!(&file[..6768], &content[..6768]);
    assert!(file[6768..7000].iter().all(|b| *b == 0));
    assert_eq!(&file[7000..], &content[7000..]);
}

#[test]
fn the_first_failure_met_is_the_result() {
    let transfer = Transfer::begin("o", 50, 3, 10).unwrap();
    let failure = |index: usize, fault: Fault| TransferError {
        object: ObjectRef::new("o", 3),
        offset: index as u64 * 10,
        length: 10,
        fault,
    };
    let outcomes = vec![
        Ok(10),
        Err(failure(1, Fault::Io { code: 28 })),
        Ok(10),
        Err(failure(3, Fault::Store(StoreError { code: 14 }))),
        Ok(10),
    ];
    assert_eq!(
        transfer.conclude(&outcomes, 9),
        Some(Err(failure(1, Fault::Io { code: 28 })))
    );
    let outcomes = vec![
        Ok(10),
        Err(failure(3, Fault::Store(StoreError { code: 14 }))),
        Err(failure(1, Fault::Io { code: 28 })),
    ];
    assert_eq!(
        transfer.conclude(&outcomes, 9),
        Some(Err(failure(3, Fault::Store(StoreError { code: 14 }))))
    );
}

#[test]
fn a_download_has_its_result_once_every_stripe_has_reported() {
    let transfer = Transfer::begin("o", 50, 3, 10).unwrap();
    let mut outcomes = Vec::new();
    for _ in 0..4 {
        assert_eq!(transfer.conclude(&outcomes, 9), None);
        outcomes.push(Ok(10));
    }
    assert_eq!(transfer.conclude(&outcomes, 9), None);
    outcomes.push(Ok(10));
    assert_eq!(
        transfer.conclude(&outcomes, 9),
        Some(Ok(TransferResult { bytes_transferred: 50, stripe_count: 5, elapsed_micros: 9 }))
    );
    outcomes.push(Ok(10));
    assert_eq!(transfer.conclude(&outcomes, 9), None);
}

#[test]
fn beginning_a_download_pins_the_generation_and_plans_the_stripes() {
    let transfer = Transfer::begin("32GiB.txt", 10_000_003, 987, 1_000_000).unwrap();
    assert_eq!(transfer.object(), &ObjectRef::new("32GiB.txt", 987));
    assert_eq!(transfer.plan().len(), 11);
    let fetch = transfer.fetch(10).unwrap();
    assert_eq!(fetch.object(), &ObjectRef::new("32GiB.txt", 987));
    assert_eq!(fetch.stripe(), Stripe { offset: 10_000_000, length: 3 });
    assert_eq!(fetch.position(), 10_000_000);
    assert_eq!(fetch.remaining(), 3);
    assert!(transfer.fetch(11).is_none());
    assert_eq!(
        Transfer::begin("o", 10, 1, 0).unwrap_err(),
        InvalidArgument::ZeroStripeLength
    );
    assert_eq!(Transfer::begin("o", 0, 1, 10).unwrap_err(), InvalidArgument::EmptyObject);
}

#[test]
fn chunks_are_placed_one_behind_the_other() {
    let mut fetch = StripeFetch::new(pinned(), Stripe { offset: 4096, length: 100 }).unwrap();
    assert_eq!(fetch.accept(30).unwrap(), 4096);
    assert_eq!(fetch.accept(0).unwrap(), 4126);
    assert_eq!(fetch.accept(60).unwrap(), 4126);
    assert_eq!(fetch.position(), 4186);
    assert_eq!(fetch.remaining(), 10);
    assert_eq!(
        fetch.finish().unwrap_err(),
        TransferError {
            object: pinned(),
            offset: 4096,
            length: 100,
            fault: Fault::ShortRead { expected: 100, actual: 90 },
        }
    );
    assert_eq!(fetch.accept(10).unwrap(), 4186);
    assert_eq!(fetch.finish().unwrap(), 100);
}

#[test]
fn a_chunk_beyond_the_stripe_is_refused() {
    let mut fetch = StripeFetch::new(pinned(), Stripe { offset: 0, length: 8 }).unwrap();
    assert_eq!(fetch.accept(5).unwrap(), 0);
    let error = fetch.accept(4).unwrap_err();
    assert_eq!(
        error,
        TransferError {
            object: pinned(),
            offset: 0,
            length: 8,
            fault: Fault::ExcessData { expected: 8 },
        }
    );
    assert_eq!(fetch.position(), 5);
    assert_eq!(fetch.accept(3).unwrap(), 5);
    assert!(fetch.accept(1).is_err());
    assert!(fetch.accept(usize::MAX).is_err());
}

#[test]
fn store_and_io_failures_carry_the_stripe() {
    let fetch = StripeFetch::new(pinned(), Stripe { offset: 16, length: 8 }).unwrap();
    assert_eq!(
        fetch.store_failed(14),
        TransferError {
            object: pinned(),
            offset: 16,
            length: 8,
            fault: Fault::Store(StoreError { code: 14 }),
        }
    );
    assert_eq!(
        fetch.io_failed(28),
        TransferError { object: pinned(), offset: 16, length: 8, fault: Fault::Io { code: 28 } }
    );
    assert_eq!(fetch.io_failed(28).clone(), fetch.io_failed(28));
}

#[test]
fn a_stripe_beyond_the_addressable_range_is_rejected() {
    assert_eq!(
        StripeFetch::new(pinned(), Stripe { offset: u64::MAX, length: 1 }).unwrap_err(),
        InvalidArgument::RangeOverflow
    );
    assert!(StripeFetch::new(pinned(), Stripe { offset: u64::MAX - 1, length: 1 }).is_ok());
    assert!(StripeFetch::new(pinned(), Stripe { offset: u64::MAX, length: 0 }).is_ok());
}

#[test]
fn a_stripe_touches_only_its_own_range() {
    let stripe = Stripe { offset: 10, length: 6 };
    let chunk_lists: Vec<Vec<Vec<u8>>> = vec![
        vec![vec![1, 2, 3], vec![4, 5, 6]],
        vec![vec![1, 2, 3]],
        vec![vec![1, 2, 3, 4], vec![5, 6, 7]],
        vec![],
        vec![vec![1, 2, 3, 4, 5, 6, 7, 8, 9, 10, 11, 12]],
    ];
    for chunks in chunk_lists {
        let mut file = vec![0xEEu8; 20];
        let fetch = StripeFetch::new(pinned(), stripe).unwrap();
        let result = fetch_stripe(&mut file, fetch, &chunks);
        let delivered: usize = chunks.iter().map(|c| c.len()).sum();
        assert_eq!(file.len(), 20);
        assert!(file[..10].iter().all(|b| *b == 0xEE));
        assert!(file[16..].iter().all(|b| *b == 0xEE));
        if delivered == 6 {
            assert_eq!(result.unwrap(), 6);
            assert_eq!(&file[10..16], &[1, 2, 3, 4, 5, 6]);
        } else if delivered < 6 {
            assert_eq!(
                result.unwrap_err().fault,
                Fault::ShortRead { expected: 6, actual: delivered as u64 }
            );
            assert_eq!(&file[10..10 + delivered], &[1u8, 2, 3][..delivered]);
        } else {
            assert_eq!(result.unwrap_err().fault, Fault::ExcessData { expected: 6 });
        }
    }
}

#[test]
fn positional_writes_stay_inside_the_destination() {
    let mut file = vec![0u8; 8];
    assert!(write_at(&mut file, 2, &[7, 8, 9]));
    assert_eq!(file, vec![0, 0, 7, 8, 9, 0, 0, 0]);
    assert!(write_at(&mut file, 5, &[1, 2, 3]));
    assert_eq!(file, vec![0, 0, 7, 8, 9, 1, 2, 3]);
    assert!(!write_at(&mut file, 6, &[1, 2, 3]));
    assert!(!write_at(&mut file, 9, &[]));
    assert!(!write_at(&mut file, u64::MAX, &[1]));
    assert!(write_at(&mut file, 8, &[]));
    assert_eq!(file, vec![0, 0, 7, 8, 9, 1, 2, 3]);
}

#[test]
fn disjoint_writes_commute() {
    let mut a = vec![0u8; 10];
    let mut b = vec![0u8; 10];
    assert!(write_at(&mut a, 0, &[1, 2, 3]));
    assert!(write_at(&mut a, 6, &[4, 5]));
    assert!(write_at(&mut b, 6, &[4, 5]));
    assert!(write_at(&mut b, 0, &[1, 2, 3]));
    assert_eq!(a, b);
}

#[test]
fn no_more_stripes_are_in_flight_than_the_limit_allows() {
    let mut dispatcher = Dispatcher::new(5, 2).unwrap();
    assert_eq!(dispatcher.launch(), Some(0));
    assert_eq!(dispatcher.launch(), Some(1));
    assert_eq!(dispatcher.launch(), None);
    assert_eq!(dispatcher.in_flight(), 2);
    assert!(dispatcher.complete());
    assert_eq!(dispatcher.launch(), Some(2));
    assert_eq!(dispatcher.launch(), None);
    assert!(dispatcher.complete());
    assert!(dispatcher.complete());
    assert_eq!(dispatcher.in_flight(), 0);
    assert!(!dispatcher.complete());
    assert!(!dispatcher.is_done());
    assert_eq!(dispatcher.launch(), Some(3));
    assert_eq!(dispatcher.launch(), Some(4));
    assert_eq!(dispatcher.launch(), None);
    assert!(dispatcher.complete());
    assert!(dispatcher.complete());
    assert!(dispatcher.is_done());
    assert_eq!(dispatcher.launch(), None);
}

#[test]
fn a_dispatcher_hands_out_each_stripe_once_in_order() {
    for (total, limit) in [(0usize, 1usize), (1, 1), (7, 3), (7, 7), (7, 100)] {
        let mut dispatcher = Dispatcher::new(total, limit).unwrap();
        let mut launched = Vec::new();
        while !dispatcher.is_done() {
            let mut progressed = false;
            while let Some(index) = dispatcher.launch() {
                launched.push(index);
                progressed = true;
                assert!(dispatcher.in_flight() <= limit);
            }
            if dispatcher.complete() {
                progressed = true;
            }
            assert!(progressed);
        }
        assert_eq!(launched, (0..total).collect::<Vec<_>>());
    }
}

#[test]
fn a_halted_dispatcher_launches_no_further_stripe() {
    let mut dispatcher = Dispatcher::new(10, 3).unwrap();
    assert_eq!(dispatcher.launch(), Some(0));
    assert_eq!(dispatcher.launch(), Some(1));
    assert!(dispatcher.complete());
    dispatcher.halt();
    assert_eq!(dispatcher.launch(), None);
    assert!(!dispatcher.is_done());
    assert_eq!(dispatcher.in_flight(), 1);
    assert!(dispatcher.complete());
    assert!(dispatcher.is_done());
    assert_eq!(dispatcher.launch(), None);
    assert!(!dispatcher.complete());
}

#[test]
fn a_limit_of_zero_is_rejected() {
    assert_eq!(Dispatcher::new(5, 0).unwrap_err(), InvalidArgument::ZeroConcurrency);
}
