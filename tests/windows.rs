use puzzle_physics::windows::Looped;

#[test]
fn test_looped() {
    let mut iter: Looped<i32, 3> = Looped::new(vec![1, 2, 3, 4, 5]);

    assert_eq!(iter.next(), Some([1, 2, 3]));
    assert_eq!(iter.next(), Some([2, 3, 4]));
    assert_eq!(iter.next(), Some([3, 4, 5]));
    assert_eq!(iter.next(), Some([4, 5, 1]));
    assert_eq!(iter.next(), Some([5, 1, 2]));
    assert_eq!(iter.next(), None);
}

#[test]
fn looped_stays_exhausted() {
    let mut iter: Looped<u8, 2> = Looped::new(vec![7, 8]);
    assert_eq!(iter.next(), Some([7, 8]));
    assert_eq!(iter.next(), Some([8, 7]));
    assert_eq!(iter.next(), None);
    assert_eq!(iter.next(), None);
}

#[test]
fn looped_too_few_items_yields_nothing() {
    let mut iter: Looped<u8, 3> = Looped::new(vec![1, 2]);
    assert_eq!(iter.next(), None);
    let mut empty: Looped<u8, 1> = Looped::new(vec![]);
    assert_eq!(empty.next(), None);
}

#[test]
fn looped_window_as_long_as_ring() {
    let mut iter: Looped<char, 3> = Looped::new(vec!['a', 'b', 'c']);
    assert_eq!(iter.next(), Some(['a', 'b', 'c']));
    assert_eq!(iter.next(), Some(['b', 'c', 'a']));
    assert_eq!(iter.next(), Some(['c', 'a', 'b']));
    assert_eq!(iter.next(), None);
}

#[test]
fn looped_single_item_windows() {
    let mut iter: Looped<i64, 1> = Looped::new(vec![-4, 9]);
    assert_eq!(iter.next(), Some([-4]));
    assert_eq!(iter.next(), Some([9]));
    assert_eq!(iter.next(), None);
}
