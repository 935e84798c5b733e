use split_slice::{SplitSlice, SplitSliceIterator};

fn drain<T: Copy>(mut it: SplitSliceIterator<'_, T>) -> Vec<T> {
    let mut out = Vec::new();
    while let Some(x) = it.next() {
        out.push(*x);
    }
    out
}

#[test]
fn iterate() {
    assert!(drain(SplitSlice(&[1, 2, 3], &[4, 5]).into_iter())
        .into_iter()
        .eq([1, 2, 3, 4, 5]));
}

#[test]
fn iterate_first_empty() {
    assert!(drain(SplitSlice(&[], &[1, 2]).into_iter()).into_iter().eq([1, 2]));
}

#[test]
fn iterate_second_empty() {
    assert!(drain(SplitSlice(&[1, 2], &[]).into_iter()).into_iter().eq([1, 2]));
}

#[test]
fn iterate_both_empty() {
    assert!(drain(SplitSlice::<i32>(&[], &[]).into_iter()).into_iter().eq([]));
}

#[test]
fn len() {
    assert_eq!(SplitSlice(&[1, 2, 3, 4], &[5]).len(), 5);
}

#[test]
fn scenario_lengths() {
    assert_eq!(SplitSlice(&[1, 2, 3], &[4, 5]).len(), 5);
    assert_eq!(SplitSlice(&[], &[1, 2]).len(), 2);
    assert_eq!(SplitSlice(&[1, 2], &[]).len(), 2);
    assert_eq!(SplitSlice::<i32>(&[], &[]).len(), 0);
}

#[test]
fn is_empty_only_when_both_parts_empty() {
    assert!(SplitSlice::<i32>(&[], &[]).is_empty());
    assert!(!SplitSlice(&[], &[1]).is_empty());
    assert!(!SplitSlice(&[1], &[]).is_empty());
    assert!(!SplitSlice(&[1], &[2]).is_empty());
}

#[test]
fn remaining_count_is_exact_at_every_step() {
    let mut it = SplitSlice(&[1, 2, 3], &[4, 5]).into_iter();
    for produced in 0..5usize {
        assert_eq!(it.len(), 5 - produced);
        assert_eq!(it.size_hint(), (5 - produced, Some(5 - produced)));
        assert!(it.next().is_some());
    }
    assert_eq!(it.len(), 0);
    assert_eq!(it.size_hint(), (0, Some(0)));
    assert!(it.next().is_none());
    assert_eq!(it.len(), 0);
}

#[test]
fn exhaustion_is_sticky() {
    let mut it = SplitSlice(&[7], &[8]).into_iter();
    assert_eq!(it.next(), Some(&7));
    assert_eq!(it.next(), Some(&8));
    for _ in 0..4 {
        assert_eq!(it.next(), None);
        assert_eq!(it.len(), 0);
    }
}

#[test]
fn walk_crosses_from_first_part_to_second() {
    let mut it = SplitSliceIterator::new(SplitSlice(&['a', 'b'], &['c']));
    assert_eq!(it.next(), Some(&'a'));
    assert_eq!(it.len(), 2);
    assert_eq!(it.next(), Some(&'b'));
    assert_eq!(it.len(), 1);
    assert_eq!(it.next(), Some(&'c'));
    assert_eq!(it.next(), None);
}

#[test]
fn clone_walks_independently() {
    let first = [1, 2, 3];
    let second = [4, 5];
    let view = SplitSlice(&first, &second);
    let copy = view.clone();
    let from_copy = drain(copy.into_iter());
    let from_view = drain(view.into_iter());
    assert_eq!(from_copy, vec![1, 2, 3, 4, 5]);
    assert_eq!(from_view, from_copy);
    assert_eq!(view.len(), 5);
    assert_eq!(drain(view.into_iter()), vec![1, 2, 3, 4, 5]);
}

#[test]
fn to_vec_lists_both_parts_in_order() {
    let view = SplitSlice(&[1, 2, 3], &[4, 5]);
    let all: Vec<i32> = view.to_vec().into_iter().copied().collect();
    assert_eq!(all, vec![1, 2, 3, 4, 5]);
    assert_eq!(format!("{:?}", view.to_vec()), "[1, 2, 3, 4, 5]");
    assert!(SplitSlice::<i32>(&[], &[]).to_vec().is_empty());
}

#[test]
fn parts_need_not_be_adjacent() {
    let ring = [10, 20, 30, 40];
    let view = SplitSlice(&ring[2..], &ring[..2]);
    assert_eq!(drain(view.into_iter()), vec![30, 40, 10, 20]);
}
