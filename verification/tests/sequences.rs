use marrow_run::sequence::Sequence;

fn words(items: &[&str]) -> Vec<String> {
    items.iter().map(|s| s.to_string()).collect()
}

#[test]
fn dense_sequences_number_from_one() {
    let seq = Sequence::dense(words(&["a", "b", "c"]));
    assert_eq!(seq.len(), 3);
    assert_eq!(seq.positions(), vec![1, 2, 3]);
    assert_eq!(seq.get(1).map(String::as_str), Some("a"));
    assert_eq!(seq.get(3).map(String::as_str), Some("c"));
    assert_eq!(seq.get(0), None);
    assert_eq!(seq.get(4), None);
    assert_eq!(seq.highest_position(), Some(3));
    let values: Vec<&str> = seq.values().into_iter().map(String::as_str).collect();
    assert_eq!(values, vec!["a", "b", "c"]);
    assert_eq!(seq.into_values(), words(&["a", "b", "c"]));
}

#[test]
fn writes_past_the_end_and_deletes_leave_holes() {
    let mut seq: Sequence<i64> = Sequence::dense(vec![10, 20, 30]);
    seq.set(6, 60);
    assert_eq!(seq.len(), 4);
    assert_eq!(seq.positions(), vec![1, 2, 3, 6]);
    assert_eq!(seq.get(5), None);
    assert_eq!(seq.get(6), Some(&60));
    assert!(seq.remove(2));
    assert!(!seq.remove(2));
    assert!(!seq.remove(5));
    assert_eq!(seq.len(), 3);
    assert_eq!(seq.rows(), vec![(1, &10), (3, &30), (6, &60)]);
    seq.set(1, 11);
    assert_eq!(seq.get(1), Some(&11));
    assert_eq!(seq.len(), 3);
    assert_eq!(seq.highest_position(), Some(6));
    seq.append(9, 90);
    assert_eq!(seq.values(), vec![&11, &30, &60, &90]);
    assert_eq!(seq.into_values(), vec![11, 30, 60, 90]);
}

#[test]
fn empty_sequences_have_no_positions() {
    let seq: Sequence<i64> = Sequence::default();
    assert_eq!(seq.len(), 0);
    assert_eq!(seq.highest_position(), None);
    assert!(seq.positions().is_empty());
    assert!(Sequence::<i64>::new().values().is_empty());
    let mut one = Sequence::new();
    one.set(-4, 7i64);
    one.set(2, 8);
    assert_eq!(one.positions(), vec![-4, 2]);
    assert_eq!(one.highest_position(), Some(2));
}
