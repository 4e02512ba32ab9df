use rp::gen::{range_to_iter, IntegerIter};

fn collect(mut it: IntegerIter) -> Vec<i64> {
    let mut v = Vec::new();
    while let Some(x) = it.next() {
        v.push(x);
    }
    v
}

#[test]
fn test_range_to_iter() {
    println!("{:?}", collect(range_to_iter(0, 10, false, 1).unwrap()));
    println!("{:?}", collect(range_to_iter(0, 10, true, 2).unwrap()));
    println!("{:?}", collect(range_to_iter(10, 0, false, -1).unwrap()));
    println!("{:?}", collect(range_to_iter(10, 0, true, -2).unwrap()));
}

#[test]
fn gen_with_step_two() {
    assert_eq!(collect(range_to_iter(0, 10, false, 2).unwrap()), vec![0, 2, 4, 6, 8]);
}

#[test]
fn gen_with_inclusive_end() {
    assert_eq!(collect(range_to_iter(0, 10, true, 1).unwrap()), vec![0, 1, 2, 3, 4, 5, 6, 7, 8, 9, 10]);
}

#[test]
fn gen_descending() {
    assert_eq!(collect(range_to_iter(10, 0, false, -2).unwrap()), vec![10, 8, 6, 4, 2]);
    assert_eq!(collect(range_to_iter(10, 0, true, -2).unwrap()), vec![10, 8, 6, 4, 2, 0]);
    assert_eq!(collect(range_to_iter(9, 0, false, -3).unwrap()), vec![9, 6, 3]);
    assert_eq!(collect(range_to_iter(0, 10, false, -1).unwrap()), Vec::<i64>::new());
}

#[test]
fn gen_edges() {
    assert!(range_to_iter(0, 10, false, 0).is_none());
    assert_eq!(collect(range_to_iter(5, 5, false, 1).unwrap()), Vec::<i64>::new());
    assert_eq!(collect(range_to_iter(5, 5, true, 1).unwrap()), vec![5]);
    assert_eq!(
        collect(range_to_iter(i64::MAX - 2, i64::MAX, true, 1).unwrap()),
        vec![i64::MAX - 2, i64::MAX - 1, i64::MAX]
    );
    assert_eq!(collect(range_to_iter(i64::MIN + 1, i64::MIN, true, -1).unwrap()), vec![i64::MIN + 1, i64::MIN]);
    assert_eq!(collect(range_to_iter(i64::MAX, i64::MIN, true, i64::MIN).unwrap()), vec![i64::MAX, -1]);
}

#[test]
fn gen_from_both_ends() {
    let mut it = range_to_iter(0, 5, false, 1).unwrap();
    assert_eq!(it.next(), Some(0));
    assert_eq!(it.next_back(), Some(4));
    assert_eq!(it.next(), Some(1));
    assert_eq!(it.next_back(), Some(3));
    assert_eq!(it.next(), Some(2));
    assert_eq!(it.next(), None);
    assert_eq!(it.next_back(), None);
}
