//! The deterministic split: validation, the cut point, the seeded order, and
//! the partition of a dataset into train and test.

use rand::rngs::StdRng;
use rand::seq::SliceRandom;
use rand::SeedableRng;
use toy_datasets::moons_data::{MoonDatasetConfig, MoonsItem};
use toy_datasets::shuffle::shuffled_order;
use toy_datasets::split::{SplitFraction, SPLIT_SEED};
use toy_datasets::toy_data::{ToyDatasetConfig, ToyItem};

fn toy_items(n: usize) -> Vec<ToyItem> {
    (0..n)
        .map(|i| ToyItem { x: (i as f32).to_bits(), y: (i as f32 + 0.25).to_bits() })
        .collect()
}

fn toy_config(n: usize, num: u32, den: u32) -> ToyDatasetConfig {
    ToyDatasetConfig {
        start: 0.0f32.to_bits(),
        end: (n as f32).to_bits(),
        n,
        split: SplitFraction { num, den },
    }
}

#[test]
fn split_fraction_accepts_exactly_the_unit_interval() {
    assert!(SplitFraction::new(0, 5).is_none());
    assert!(SplitFraction::new(6, 5).is_none());
    assert!(SplitFraction::new(1, 0).is_none());
    assert!(SplitFraction::new(1, 1).is_some());
    assert!(SplitFraction::new(3, 4).is_some());
    assert_eq!(
        SplitFraction::new(3, 4),
        Some(SplitFraction { num: 3, den: 4 })
    );
}

#[test]
fn train_count_rounds_the_cut_up() {
    // ceil(10 / 3) = 4 samples for train, 6 for test.
    let cfg = toy_config(10, 1, 3);
    let train = cfg.train(toy_items(10)).unwrap();
    let test = cfg.test(toy_items(10)).unwrap();
    assert_eq!(train.len(), 4);
    assert_eq!(test.len(), 6);
}

#[test]
fn full_fraction_puts_everything_in_train() {
    let cfg = toy_config(8, 1, 1);
    let train = cfg.train(toy_items(8)).unwrap();
    let test = cfg.test(toy_items(8)).unwrap();
    assert_eq!(train.len(), 8);
    assert_eq!(test.len(), 0);
}

#[test]
fn split_partitions_the_dataset_exactly_once() {
    let items = toy_items(10);
    let cfg = toy_config(10, 7, 10);
    let train = cfg.train(items.clone()).unwrap();
    let test = cfg.test(items.clone()).unwrap();
    assert_eq!(train.len() + test.len(), items.len());
    assert_eq!(train.len(), 7);

    let mut seen: Vec<u32> = Vec::new();
    for i in 0..train.len() {
        seen.push(train.get(i).unwrap().x);
    }
    for i in 0..test.len() {
        seen.push(test.get(i).unwrap().x);
    }
    let mut expected: Vec<u32> = items.iter().map(|it| it.x).collect();
    seen.sort();
    expected.sort();
    assert_eq!(seen, expected);

    // The samples are pairwise distinct here, so the two splits are disjoint.
    for i in 0..train.len() {
        let t = train.get(i).unwrap();
        for j in 0..test.len() {
            assert_ne!(t, test.get(j).unwrap());
        }
    }
}

#[test]
fn train_and_test_follow_one_shuffled_order() {
    let items = toy_items(10);
    let cfg = toy_config(10, 7, 10);
    let order = shuffled_order(10, SPLIT_SEED);
    let train = cfg.train(items.clone()).unwrap();
    let test = cfg.test(items.clone()).unwrap();
    for i in 0..7 {
        assert_eq!(train.get(i).unwrap(), items[order[i]]);
    }
    for i in 0..3 {
        assert_eq!(test.get(i).unwrap(), items[order[7 + i]]);
    }
}

#[test]
fn shuffled_order_matches_the_seeded_generator() {
    let order = shuffled_order(10, SPLIT_SEED);
    let mut expected: Vec<usize> = (0..10).collect();
    let mut rng = StdRng::seed_from_u64(SPLIT_SEED);
    expected.shuffle(&mut rng);
    assert_eq!(order, expected);
    let identity: Vec<usize> = (0..10).collect();
    assert_ne!(order, identity);
}

#[test]
fn split_is_deterministic_across_calls() {
    let cfg = toy_config(25, 4, 5);
    let a = cfg.train(toy_items(25)).unwrap();
    let b = cfg.train(toy_items(25)).unwrap();
    assert_eq!(a.len(), b.len());
    for i in 0..a.len() {
        assert_eq!(a.get(i).unwrap(), b.get(i).unwrap());
    }
}

#[test]
fn single_sample_goes_to_train() {
    let cfg = toy_config(1, 1, 2);
    let train = cfg.train(toy_items(1)).unwrap();
    let test = cfg.test(toy_items(1)).unwrap();
    assert_eq!(train.len(), 1);
    assert_eq!(test.len(), 0);
    assert_eq!(train.get(0).unwrap(), toy_items(1)[0]);
}

#[test]
fn split_rejects_malformed_parameters() {
    // Split fraction outside (0, 1].
    let cfg = toy_config(10, 0, 10);
    assert!(cfg.train(toy_items(10)).is_none());
    let cfg = toy_config(10, 11, 10);
    assert!(cfg.test(toy_items(10)).is_none());
    // No samples at all.
    let cfg = toy_config(0, 1, 2);
    assert!(cfg.train(toy_items(0)).is_none());
    // A dataset of the wrong size.
    let cfg = toy_config(10, 1, 2);
    assert!(cfg.train(toy_items(9)).is_none());
    assert!(cfg.test(toy_items(11)).is_none());
}

#[test]
fn dataset_get_and_len_follow_the_contents() {
    let cfg = toy_config(5, 1, 1);
    let train = cfg.train(toy_items(5)).unwrap();
    assert_eq!(train.len(), 5);
    assert!(train.get(4).is_some());
    assert!(train.get(5).is_none());
    assert!(train.get(usize::MAX).is_none());
}

#[test]
fn moons_split_partitions_and_validates() {
    let items: Vec<MoonsItem> = (0..6)
        .map(|i| MoonsItem {
            x: [(i as f32).to_bits(), (i as f32 + 0.5).to_bits()],
            y: if i < 2 { 1 } else { 0 },
        })
        .collect();
    let cfg = MoonDatasetConfig {
        n_inner: 2,
        n_outer: 4,
        split: SplitFraction { num: 1, den: 2 },
        noise: 0.0f32.to_bits(),
    };
    let train = cfg.train(items.clone()).unwrap();
    let test = cfg.test(items.clone()).unwrap();
    assert_eq!(train.len(), 3);
    assert_eq!(test.len(), 3);
    let mut seen: Vec<u32> = Vec::new();
    for i in 0..3 {
        seen.push(train.get(i).unwrap().x[0]);
        seen.push(test.get(i).unwrap().x[0]);
    }
    let mut expected: Vec<u32> = items.iter().map(|it| it.x[0]).collect();
    seen.sort();
    expected.sort();
    assert_eq!(seen, expected);

    // An empty crescent is rejected.
    let bad = MoonDatasetConfig { n_inner: 0, n_outer: 6, ..cfg };
    assert!(bad.train(items.clone()).is_none());
    // A dataset that does not hold the configured total is rejected.
    assert!(cfg.train(items[..5].to_vec()).is_none());
}
