use cloud_storage::builder::{Build, CompositionTier};
use cloud_storage::compose::{plan_build, ComposeStep, MAX_COMPOSE_SOURCES};
use cloud_storage::error::{BuildError, InvalidArgument, StoreError};
use cloud_storage::names::object_name;
use cloud_storage::object::ObjectRef;

const MIB: u64 = 1_048_576;
const GIB: u64 = 1_073_741_824;

#[test]
fn two_and_four_gibibytes_from_a_mebibyte_seed() {
    assert_eq!(MAX_COMPOSE_SOURCES, 32);
    let plan = plan_build(MIB, MAX_COMPOSE_SOURCES, &vec![2 * GIB, 4 * GIB]).unwrap();
    assert_eq!(plan.seed_size(), MIB);
    assert_eq!(plan.max_fan_in(), 32);
    assert_eq!(plan.targets(), &vec![2 * GIB, 4 * GIB]);
    assert_eq!(
        plan.steps(),
        &vec![
            ComposeStep { source: 0, fan_in: 32, size_bytes: 33_554_432 },
            ComposeStep { source: 1, fan_in: 32, size_bytes: 1_073_741_824 },
            ComposeStep { source: 2, fan_in: 2, size_bytes: 2 * 1_073_741_824 },
            ComposeStep { source: 2, fan_in: 4, size_bytes: 4 * 1_073_741_824 },
        ]
    );
    assert_eq!(plan.results(), &vec![3, 4]);
}

#[test]
fn tier_sizes_are_seed_times_powers_of_the_fan_in() {
    for (seed, fan_in, tiers) in [(1u64, 2u32, 10u32), (3, 5, 6), (MIB, 32, 2), (7, 10, 9)] {
        let largest = seed * (fan_in as u64).pow(tiers);
        let plan = plan_build(seed, fan_in, &vec![largest]).unwrap();
        let steps = plan.steps();
        assert_eq!(steps.len(), tiers as usize);
        for (n, step) in steps.iter().enumerate() {
            assert_eq!(step.source, n);
            assert_eq!(step.fan_in, fan_in);
            assert_eq!(step.size_bytes, seed * (fan_in as u64).pow(n as u32 + 1));
        }
        assert_eq!(plan.results(), &vec![tiers as usize]);
    }
}

#[test]
fn every_step_is_exact_and_within_the_fan_in() {
    let seed = 5u64;
    let fan_in = 4u32;
    let targets = vec![5, 10, 20, 60, 80, 240, 320, 1280, 3840];
    let plan = plan_build(seed, fan_in, &targets).unwrap();
    let steps = plan.steps();
    let mut sizes = vec![seed];
    for (i, step) in steps.iter().enumerate() {
        assert!(step.source <= i);
        assert!(step.fan_in >= 2 && step.fan_in <= fan_in);
        assert_eq!(step.size_bytes, step.fan_in as u64 * sizes[step.source]);
        sizes.push(step.size_bytes);
    }
    let results = plan.results();
    assert_eq!(results.len(), targets.len());
    for (j, target) in targets.iter().enumerate() {
        assert_eq!(sizes[results[j]], *target);
    }
    assert_eq!(
        steps,
        &vec![
            ComposeStep { source: 0, fan_in: 4, size_bytes: 20 },
            ComposeStep { source: 1, fan_in: 4, size_bytes: 80 },
            ComposeStep { source: 2, fan_in: 4, size_bytes: 320 },
            ComposeStep { source: 3, fan_in: 4, size_bytes: 1280 },
            ComposeStep { source: 0, fan_in: 2, size_bytes: 10 },
            ComposeStep { source: 1, fan_in: 3, size_bytes: 60 },
            ComposeStep { source: 2, fan_in: 3, size_bytes: 240 },
            ComposeStep { source: 4, fan_in: 3, size_bytes: 3840 },
        ]
    );
    assert_eq!(results, &vec![0, 5, 1, 6, 2, 7, 3, 4, 8]);
}

#[test]
fn no_targets_need_no_steps() {
    let plan = plan_build(MIB, 32, &vec![]).unwrap();
    assert!(plan.steps().is_empty());
    assert!(plan.results().is_empty());
}

#[test]
fn the_seed_size_itself_needs_no_step() {
    let plan = plan_build(MIB, 32, &vec![MIB]).unwrap();
    assert!(plan.steps().is_empty());
    assert_eq!(plan.results(), &vec![0]);
}

#[test]
fn sizes_near_the_largest_number_do_not_overflow() {
    let plan = plan_build(1, 2, &vec![1 << 63]).unwrap();
    assert_eq!(plan.steps().len(), 63);
    assert_eq!(plan.steps()[62], ComposeStep { source: 62, fan_in: 2, size_bytes: 1 << 63 });
    let plan = plan_build(1 << 32, u32::MAX, &vec![(1 << 32) * 3]).unwrap();
    assert_eq!(
        plan.steps(),
        &vec![ComposeStep { source: 0, fan_in: 3, size_bytes: (1 << 32) * 3 }]
    );
    assert_eq!(
        plan_build(3, 2, &vec![u64::MAX]).unwrap_err(),
        InvalidArgument::TargetUnreachable(u64::MAX)
    );
}

#[test]
fn planning_a_build_twice_gives_the_same_plan() {
    let targets = vec![2 * GIB, 4 * GIB];
    assert_eq!(plan_build(MIB, 32, &targets), plan_build(MIB, 32, &targets));
    let plan = plan_build(MIB, 32, &targets).unwrap();
    assert_eq!(plan.clone(), plan);
}

#[test]
fn empty_seed_is_rejected() {
    assert_eq!(plan_build(0, 32, &vec![GIB]).unwrap_err(), InvalidArgument::EmptySeed);
    assert_eq!(plan_build(0, 0, &vec![]).unwrap_err(), InvalidArgument::EmptySeed);
}

#[test]
fn fan_in_below_two_is_rejected() {
    assert_eq!(plan_build(MIB, 1, &vec![MIB]).unwrap_err(), InvalidArgument::FanInTooSmall);
    assert_eq!(plan_build(MIB, 0, &vec![2 * MIB, MIB]).unwrap_err(), InvalidArgument::FanInTooSmall);
}

#[test]
fn targets_out_of_order_are_rejected() {
    assert_eq!(
        plan_build(MIB, 32, &vec![4 * GIB, 2 * GIB]).unwrap_err(),
        InvalidArgument::TargetsNotIncreasing
    );
    assert_eq!(
        plan_build(MIB, 32, &vec![2 * GIB, 2 * GIB]).unwrap_err(),
        InvalidArgument::TargetsNotIncreasing
    );
    assert_eq!(
        plan_build(MIB, 32, &vec![3, 2]).unwrap_err(),
        InvalidArgument::TargetsNotIncreasing
    );
}

#[test]
fn unreachable_targets_are_rejected_with_the_first_of_them() {
    assert_eq!(
        plan_build(MIB, 32, &vec![2 * GIB, 3 * GIB + 1, 4 * GIB + 1]).unwrap_err(),
        InvalidArgument::TargetUnreachable(3 * GIB + 1)
    );
    assert_eq!(
        plan_build(MIB, 32, &vec![0, GIB]).unwrap_err(),
        InvalidArgument::TargetUnreachable(0)
    );
    assert_eq!(
        plan_build(MIB, 32, &vec![MIB - 1]).unwrap_err(),
        InvalidArgument::TargetUnreachable(MIB - 1)
    );
    assert_eq!(
        plan_build(1, 4, &vec![6]).unwrap_err(),
        InvalidArgument::TargetUnreachable(6)
    );
}

fn stored(name: &str, generation: i64) -> ObjectRef {
    ObjectRef::new(name, generation)
}

#[test]
fn a_build_pins_the_generation_of_every_source() {
    let plan = plan_build(MIB, 32, &vec![2 * GIB, 4 * GIB]).unwrap();
    let mut build = Build::start(plan, stored("1MiB.txt", 11));

    let tier = build.next_tier().unwrap();
    assert_eq!(
        tier,
        CompositionTier { source: stored("1MiB.txt", 11), size_bytes: 33_554_432, fan_in: 32 }
    );
    assert_eq!(tier.destination(), "32MiB.txt");
    let sources = tier.sources();
    assert_eq!(sources.len(), 32);
    assert!(sources.iter().all(|s| *s == stored("1MiB.txt", 11)));
    assert!(build.outcome().is_none());
    assert!(build.composed(stored("32MiB.txt", 22)));

    let tier = build.next_tier().unwrap();
    assert_eq!(
        tier,
        CompositionTier { source: stored("32MiB.txt", 22), size_bytes: GIB, fan_in: 32 }
    );
    assert_eq!(tier.destination(), "1GiB.txt");
    assert!(build.composed(stored("1GiB.txt", 33)));

    let tier = build.next_tier().unwrap();
    assert_eq!(
        tier,
        CompositionTier { source: stored("1GiB.txt", 33), size_bytes: 2 * GIB, fan_in: 2 }
    );
    assert_eq!(tier.destination(), "2GiB.txt");
    assert_eq!(tier.sources(), vec![stored("1GiB.txt", 33), stored("1GiB.txt", 33)]);
    assert!(build.composed(stored("2GiB.txt", 44)));

    let tier = build.next_tier().unwrap();
    assert_eq!(
        tier,
        CompositionTier { source: stored("1GiB.txt", 33), size_bytes: 4 * GIB, fan_in: 4 }
    );
    assert_eq!(tier.destination(), "4GiB.txt");
    assert_eq!(tier.sources().len(), 4);
    assert!(build.outcome().is_none());
    assert!(build.composed(stored("4GiB.txt", 55)));

    assert!(build.next_tier().is_none());
    assert!(!build.composed(stored("5GiB.txt", 66)));
    assert_eq!(
        build.outcome().unwrap(),
        vec![(2 * GIB, stored("2GiB.txt", 44)), (4 * GIB, stored("4GiB.txt", 55))]
    );
}

#[test]
fn no_two_objects_of_a_build_share_a_name() {
    let targets = vec![256, 512, 1024, 3072, MIB, 3 * MIB, GIB, 2 * GIB];
    let plan = plan_build(256, 4, &targets).unwrap();
    assert_eq!(plan.steps().len(), 11 + 4);
    let mut names = vec![object_name(plan.seed_size())];
    let mut build = Build::start(plan, stored("256B.txt", 1));
    while let Some(tier) = build.next_tier() {
        let name = tier.destination();
        assert!(!names.contains(&name), "{name} is used twice");
        assert!(build.composed(stored(&name, 1)));
        names.push(name);
    }
    assert_eq!(names.len(), 16);
    assert_eq!(names[0], "256B.txt");
    for name in ["512B.txt", "1KiB.txt", "3KiB.txt", "4KiB.txt", "1MiB.txt", "3MiB.txt", "2GiB.txt"] {
        assert!(names.contains(&name.to_string()), "{name} is missing");
    }
}

#[test]
fn a_failed_compose_is_reported_with_its_size() {
    let plan = plan_build(MIB, 32, &vec![2 * GIB]).unwrap();
    let mut build = Build::start(plan.clone(), stored("1MiB.txt", 1));
    assert_eq!(
        build.failed(14),
        Some(BuildError { size_bytes: 33_554_432, cause: StoreError { code: 14 } })
    );

    let mut build = Build::start(plan.clone(), stored("1MiB.txt", 1));
    assert!(build.composed(stored("32MiB.txt", 2)));
    assert!(build.composed(stored("1GiB.txt", 3)));
    assert_eq!(build.aborted_by(), None);
    assert_eq!(
        build.failed(5),
        Some(BuildError { size_bytes: 2 * GIB, cause: StoreError { code: 5 } })
    );
    assert_eq!(
        build.aborted_by(),
        Some(BuildError { size_bytes: 2 * GIB, cause: StoreError { code: 5 } })
    );

    let mut build = Build::start(plan, stored("1MiB.txt", 1));
    assert!(build.composed(stored("32MiB.txt", 2)));
    assert!(build.composed(stored("1GiB.txt", 3)));
    assert!(build.composed(stored("2GiB.txt", 4)));
    assert_eq!(build.failed(5), None);
    assert_eq!(build.aborted_by(), None);
    assert!(build.outcome().is_some());
}

#[test]
fn a_failed_compose_ends_the_build() {
    let plan = plan_build(MIB, 32, &vec![2 * GIB]).unwrap();
    let mut build = Build::start(plan, stored("1MiB.txt", 1));
    assert!(build.composed(stored("32MiB.txt", 2)));
    let failure = build.failed(13).unwrap();
    assert_eq!(failure, BuildError { size_bytes: GIB, cause: StoreError { code: 13 } });
    assert!(build.next_tier().is_none());
    assert!(!build.composed(stored("1GiB.txt", 3)));
    assert_eq!(build.failed(14), None);
    assert_eq!(build.aborted_by(), Some(failure));
    assert!(build.outcome().is_none());
}

#[test]
fn a_build_without_steps_is_complete_at_once() {
    let plan = plan_build(MIB, 32, &vec![MIB]).unwrap();
    let build = Build::start(plan, stored("1MiB.txt", 9));
    assert!(build.next_tier().is_none());
    assert_eq!(build.outcome().unwrap(), vec![(MIB, stored("1MiB.txt", 9))]);
}

#[test]
fn a_tier_of_up_to_the_largest_fan_in_is_accepted() {
    let tier = CompositionTier::new(stored("1GiB.txt", 33), GIB, 4, 32).unwrap();
    assert_eq!(
        tier,
        CompositionTier { source: stored("1GiB.txt", 33), size_bytes: 4 * GIB, fan_in: 4 }
    );
    assert_eq!(CompositionTier::new(stored("a", 1), 5, 32, 32).unwrap().size_bytes, 160);
    assert_eq!(CompositionTier::new(stored("a", 1), 5, 1, 32).unwrap().size_bytes, 5);
    assert_eq!(CompositionTier::new(stored("a", 1), 0, 3, 3).unwrap().size_bytes, 0);
}

#[test]
fn a_fan_in_above_the_limit_is_rejected() {
    assert_eq!(
        CompositionTier::new(stored("1GiB.txt", 33), GIB, 33, 32).unwrap_err(),
        InvalidArgument::FanInExceeded { requested: 33, limit: 32 }
    );
    assert_eq!(
        CompositionTier::new(stored("a", 1), u64::MAX, 2, 1).unwrap_err(),
        InvalidArgument::FanInExceeded { requested: 2, limit: 1 }
    );
}

#[test]
fn a_tier_without_sources_is_rejected() {
    assert_eq!(
        CompositionTier::new(stored("1GiB.txt", 33), GIB, 0, 32).unwrap_err(),
        InvalidArgument::NoSources
    );
    assert_eq!(
        CompositionTier::new(stored("1GiB.txt", 33), GIB, 0, 0).unwrap_err(),
        InvalidArgument::NoSources
    );
}

#[test]
fn a_tier_too_large_to_count_is_rejected() {
    assert_eq!(
        CompositionTier::new(stored("a", 1), 1 << 63, 2, 32).unwrap_err(),
        InvalidArgument::SizeOverflow
    );
    assert_eq!(
        CompositionTier::new(stored("a", 1), (1 << 63) - 1, 2, 32).unwrap().size_bytes,
        u64::MAX - 1
    );
}

#[test]
fn object_references_compare_by_name_and_generation() {
    let a = stored("1GiB.txt", 7);
    assert!(a.same(&a.clone()));
    assert!(!a.same(&stored("1GiB.txt", 8)));
    assert!(!a.same(&stored("2GiB.txt", 7)));
    assert_eq!(a.name, "1GiB.txt");
    assert_eq!(a.generation, 7);
}
