use dors::take_while::{take_while_last, take_while_ok};

#[test]
fn test_take_while_last() {
    assert_eq!(*take_while_last(vec![1, 2, 3, 4], |i| (*i) < 3).last().unwrap(), 3);
    assert_eq!(take_while_last(vec![1, 2], |i| (*i) < 0).first(), Some(&1));
    assert_eq!(take_while_last(Vec::new(), |i: &u8| (*i) != 0).first(), None);
    assert_eq!(take_while_last(vec![1, 2], |i| (*i) < 3).last(), Some(&2));
}

#[test]
fn take_while_ok_stops_after_first_err() {
    let items: Vec<Result<i32, &str>> = vec![Ok(1), Ok(2), Err("boom"), Ok(3)];
    assert_eq!(take_while_ok(items), vec![Ok(1), Ok(2), Err("boom")]);
}

#[test]
fn take_while_ok_keeps_everything_without_errors() {
    let items: Vec<Result<i32, &str>> = vec![Ok(1), Ok(2)];
    assert_eq!(take_while_ok(items), vec![Ok(1), Ok(2)]);
    let empty: Vec<Result<i32, &str>> = Vec::new();
    assert_eq!(take_while_ok(empty), Vec::<Result<i32, &str>>::new());
}
