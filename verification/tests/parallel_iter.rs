//! The optionally-parallel iteration helpers: with no worker pool linked
//! in, every mode is the same serial pass.

use tokenizers::parallelism::{
    MaybeParallelBridge, MaybeParallelIterator, MaybeParallelRefIterator,
    MaybeParallelRefMutIterator,
};

#[test]
fn test_maybe_parallel_iterator() {
    let mut v = vec![1u32, 2, 3, 4, 5, 6];

    assert_eq!(v.maybe_par_iter().sum::<u32>(), 21);
    assert_eq!(
        v.maybe_par_iter_mut()
            .map(|v| {
                *v *= 2;
                *v
            })
            .sum::<u32>(),
        42
    );
    assert_eq!(v.maybe_par_iter().sum::<u32>(), 42);
    assert_eq!(v.into_maybe_par_iter().sum::<u32>(), 42);
}

#[test]
fn maybe_parallel_bridge_is_the_identity() {
    let v = vec![1u32, 2, 3];
    assert_eq!(v.iter().maybe_par_bridge().sum::<u32>(), 6);
    assert_eq!(v.iter().maybe_par_bridge_cond(true).count(), 3);
    assert_eq!(
        vec![5u32].into_maybe_par_iter_cond(false).sum::<u32>(),
        5
    );
    assert_eq!((&vec![7u32]).maybe_par_iter_cond(true).sum::<u32>(), 7);
}
