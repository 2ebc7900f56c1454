//! Batching: the flat layouts, and the round trip back to the samples.

use toy_datasets::moons_data::{MoonsBatch, MoonsBatcher, MoonsItem};
use toy_datasets::toy_data::{ToyBatch, ToyBatcher, ToyItem};

fn toy_samples() -> Vec<ToyItem> {
    [(0.0f32, 0.25f32), (1.5, -2.0), (7.0, 7.5)]
        .iter()
        .map(|&(x, y)| ToyItem { x: x.to_bits(), y: y.to_bits() })
        .collect()
}

fn moons_samples() -> Vec<MoonsItem> {
    vec![
        MoonsItem { x: [0.0f32.to_bits(), 0.5f32.to_bits()], y: 1 },
        MoonsItem { x: [1.0f32.to_bits(), 0.0f32.to_bits()], y: 0 },
    ]
}

#[test]
fn toy_batch_stacks_two_aligned_columns() {
    let items = toy_samples();
    let batch = ToyBatcher::new().batch(items.clone());
    assert_eq!(batch.x.len(), 3);
    assert_eq!(batch.y.len(), 3);
    for i in 0..3 {
        assert_eq!(batch.x[i], items[i].x);
        assert_eq!(batch.y[i], items[i].y);
    }
}

#[test]
fn toy_batch_round_trip_preserves_samples() {
    let items = toy_samples();
    let batch = ToyBatcher::new().batch(items.clone());
    let back = batch.unbatch().unwrap();
    assert_eq!(back, items);
}

#[test]
fn toy_batch_of_nothing_round_trips() {
    let batch = ToyBatcher::new().batch(Vec::new());
    assert_eq!(batch.x.len(), 0);
    assert_eq!(batch.unbatch().unwrap(), Vec::new());
}

#[test]
fn toy_unbatch_rejects_uneven_columns() {
    let batch = ToyBatch { x: vec![1, 2], y: vec![1, 2, 3] };
    assert!(batch.unbatch().is_none());
}

#[test]
fn moons_batch_stacks_points_row_major() {
    let items = moons_samples();
    let batch = MoonsBatcher::new().batch(items.clone());
    assert_eq!(
        batch.x,
        vec![items[0].x[0], items[0].x[1], items[1].x[0], items[1].x[1]]
    );
    assert_eq!(batch.y, vec![1, 0]);
}

#[test]
fn moons_batch_round_trip_preserves_samples() {
    let items = moons_samples();
    let batch = MoonsBatcher::new().batch(items.clone());
    let back = batch.unbatch().unwrap();
    assert_eq!(back, items);
}

#[test]
fn moons_unbatch_rejects_a_short_feature_row() {
    let batch = MoonsBatch { x: vec![1, 2, 3], y: vec![1, 0] };
    assert!(batch.unbatch().is_none());
}

#[test]
fn moons_batch_of_nothing_round_trips() {
    let batch = MoonsBatcher::new().batch(Vec::new());
    assert_eq!(batch.x.len(), 0);
    assert_eq!(batch.y.len(), 0);
    assert_eq!(batch.unbatch().unwrap(), Vec::new());
}
