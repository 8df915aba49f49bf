use rustic::stack::FixedVec;

#[test]
fn fixed_vec_is_last_in_first_out() {
    let mut stack = FixedVec::<usize, 4>::new();
    assert!(stack.is_empty());
    stack.push(1);
    stack.push(2);
    stack.push(3);
    assert_eq!(stack.len(), 3);
    assert_eq!(stack.index(0), 1);
    assert_eq!(stack.pop(), Some(3));
    assert_eq!(stack.pop(), Some(2));
    assert_eq!(stack.pop(), Some(1));
    assert_eq!(stack.pop(), None);
    assert!(stack.is_empty());
}

#[test]
fn fixed_vec_fills_to_capacity_and_clears() {
    let mut stack = FixedVec::<u32, 2>::new();
    stack.push(7);
    stack.push(8);
    assert_eq!(stack.len(), 2);
    stack.clear();
    assert!(stack.is_empty());
    assert_eq!(stack.pop(), None);
}
