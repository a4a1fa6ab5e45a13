use quickpython::slice::list_position;
use quickpython::slice::{compute_slice_indices, slice_sequence};

#[test]
fn test_slice_indices_defaults() {
    assert_eq!(compute_slice_indices(None, None, None, 5), (0, 5, 1));
    assert_eq!(compute_slice_indices(None, None, Some(-1), 5), (4, -1, -1));
}

#[test]
fn test_slice_indices_negative_and_clamped() {
    assert_eq!(compute_slice_indices(Some(-2), None, None, 5), (3, 5, 1));
    assert_eq!(compute_slice_indices(Some(-10), Some(10), None, 5), (0, 5, 1));
    assert_eq!(compute_slice_indices(Some(1), Some(-1), None, 5), (1, 4, 1));
}

#[test]
fn test_slice_indices_zero_step() {
    assert_eq!(compute_slice_indices(Some(1), Some(3), Some(0), 5), (0, 0, 1));
}

#[test]
fn test_slice_sequence_forward_and_backward() {
    let items = vec![10, 20, 30, 40, 50];
    assert_eq!(slice_sequence(&items, 1, 4, 1), vec![20, 30, 40]);
    assert_eq!(slice_sequence(&items, 0, 5, 2), vec![10, 30, 50]);
    assert_eq!(slice_sequence(&items, 4, -1, -1), vec![50, 40, 30, 20, 10]);
    assert_eq!(slice_sequence(&items, 4, 0, -2), vec![50, 30]);
    assert_eq!(slice_sequence(&items, 3, 1, 1), Vec::<i32>::new());
}

#[test]
fn test_full_and_reversed_slices() {
    let items: Vec<char> = "hello".chars().collect();
    let (s, e, st) = compute_slice_indices(None, None, None, items.len());
    assert_eq!(slice_sequence(&items, s, e, st), items);
    let (s, e, st) = compute_slice_indices(None, None, Some(-1), items.len());
    assert_eq!(slice_sequence(&items, s, e, st), "olleh".chars().collect::<Vec<_>>());
}

#[test]
fn test_list_position() {
    assert_eq!(list_position(3, 0), Some(0));
    assert_eq!(list_position(3, 2), Some(2));
    assert_eq!(list_position(3, 3), None);
    assert_eq!(list_position(3, -1), Some(2));
    assert_eq!(list_position(3, -3), Some(0));
    assert_eq!(list_position(3, -4), None);
    assert_eq!(list_position(0, 0), None);
}
