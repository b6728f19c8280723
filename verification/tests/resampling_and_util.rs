use bark_core::resample_plan::{block_take, output_target, BlockTake};
use bark_core::util::{extend_copy, extend_flatten};

#[test]
fn output_target_rounds_up() {
    assert_eq!(output_target(44_100, 44_100), 16_000);
    assert_eq!(output_target(100, 48_000), 34);
    assert_eq!(output_target(0, 48_000), 0);
    assert_eq!(output_target(3, 16_000), 3);
}

#[test]
fn output_target_saturates() {
    assert_eq!(output_target(usize::MAX, 1), usize::MAX);
    assert_eq!(output_target(usize::MAX / 2, 3), usize::MAX / 3);
}

#[test]
fn block_takes() {
    assert_eq!(block_take(100, 50, 10, 30), BlockTake { skip: 30, take: 40 });
    assert_eq!(block_take(100, 500, 10, 30), BlockTake { skip: 30, take: 70 });
    assert_eq!(block_take(20, 50, 10, 30), BlockTake { skip: 20, take: 0 });
    assert_eq!(block_take(20, 5, 10, 0), BlockTake { skip: 0, take: 0 });
}

#[test]
fn extending_vectors() {
    let mut v = vec![1, 2];
    extend_copy(&mut v, &[3, 4]);
    assert_eq!(v, vec![1, 2, 3, 4]);
    extend_flatten(&mut v, &vec![vec![5], vec![], vec![6, 7]]);
    assert_eq!(v, vec![1, 2, 3, 4, 5, 6, 7]);
}
