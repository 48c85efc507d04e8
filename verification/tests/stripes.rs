use cloud_storage::error::InvalidArgument;
use cloud_storage::stripe::{plan, Stripe, DEFAULT_STRIPE_LENGTH};

fn stripes_of(total: u64, length: u64) -> Vec<Stripe> {
    plan(total, length).unwrap().stripes().clone()
}

#[test]
fn ten_full_stripes_and_a_short_one() {
    let plan = plan(10_000_003, 1_000_000).unwrap();
    assert_eq!(plan.len(), 11);
    assert_eq!(plan.total_size(), 10_000_003);
    assert_eq!(plan.stripe_length(), 1_000_000);
    for i in 0..10usize {
        assert_eq!(
            plan.get(i),
            Some(Stripe { offset: i as u64 * 1_000_000, length: 1_000_000 })
        );
    }
    assert_eq!(plan.get(10), Some(Stripe { offset: 10_000_000, length: 3 }));
    assert_eq!(plan.get(11), None);
}

#[test]
fn stripes_are_contiguous_and_add_up() {
    for (total, length) in [(1u64, 1u64), (7, 3), (9, 3), (100, 7), (1 << 20, 4096), (5, 5), (5, 9)] {
        let stripes = stripes_of(total, length);
        assert_eq!(stripes[0].offset, 0);
        let mut expected_offset = 0u64;
        let mut sum = 0u64;
        for stripe in &stripes {
            assert_eq!(stripe.offset, expected_offset);
            assert!(stripe.length > 0);
            assert!(stripe.length <= length);
            expected_offset = stripe.offset + stripe.length;
            sum += stripe.length;
        }
        assert_eq!(sum, total);
        assert_eq!(expected_offset, total);
    }
}

#[test]
fn offsets_strictly_increase_and_ranges_are_disjoint() {
    let stripes = stripes_of(1000, 64);
    for i in 0..stripes.len() {
        for j in i + 1..stripes.len() {
            assert!(stripes[i].offset < stripes[j].offset);
            assert!(stripes[i].offset + stripes[i].length <= stripes[j].offset);
        }
    }
}

#[test]
fn every_byte_lies_in_exactly_one_stripe() {
    let total = 53u64;
    let stripes = stripes_of(total, 8);
    for b in 0..total {
        let holders = stripes
            .iter()
            .filter(|s| s.offset <= b && b < s.offset + s.length)
            .count();
        assert_eq!(holders, 1);
    }
}

#[test]
fn exact_multiple_has_no_short_stripe() {
    assert_eq!(DEFAULT_STRIPE_LENGTH, 8 * 1024 * 1024);
    let stripes = stripes_of(8 * 1024 * 1024 * 5, DEFAULT_STRIPE_LENGTH);
    assert_eq!(stripes.len(), 5);
    for stripe in &stripes {
        assert_eq!(stripe.length, 8 * 1024 * 1024);
    }
    let stripes = stripes_of(12, 4);
    assert_eq!(
        stripes,
        vec![
            Stripe { offset: 0, length: 4 },
            Stripe { offset: 4, length: 4 },
            Stripe { offset: 8, length: 4 },
        ]
    );
}

#[test]
fn planning_twice_gives_the_same_plan() {
    for (total, length) in [(10_000_003u64, 1_000_000u64), (1, 1), (17, 5), (0, 5), (5, 0)] {
        assert_eq!(plan(total, length), plan(total, length));
    }
}

#[test]
fn size_equal_to_stripe_length_gives_one_stripe() {
    assert_eq!(stripes_of(4096, 4096), vec![Stripe { offset: 0, length: 4096 }]);
    assert_eq!(stripes_of(1, 1), vec![Stripe { offset: 0, length: 1 }]);
}

#[test]
fn stripe_length_above_size_gives_one_short_stripe() {
    assert_eq!(stripes_of(100, 4096), vec![Stripe { offset: 0, length: 100 }]);
    assert_eq!(stripes_of(1, u64::MAX), vec![Stripe { offset: 0, length: 1 }]);
}

#[test]
fn largest_object_is_planned_without_overflow() {
    let stripes = stripes_of(u64::MAX, 1 << 62);
    assert_eq!(
        stripes,
        vec![
            Stripe { offset: 0, length: 1 << 62 },
            Stripe { offset: 1 << 62, length: 1 << 62 },
            Stripe { offset: 2 << 62, length: 1 << 62 },
            Stripe { offset: 3 << 62, length: (1 << 62) - 1 },
        ]
    );
}

#[test]
fn zero_stripe_length_is_rejected() {
    assert_eq!(plan(100, 0).unwrap_err(), InvalidArgument::ZeroStripeLength);
    assert_eq!(plan(0, 0).unwrap_err(), InvalidArgument::ZeroStripeLength);
}

#[test]
fn empty_object_is_rejected() {
    assert_eq!(plan(0, 100).unwrap_err(), InvalidArgument::EmptyObject);
}
