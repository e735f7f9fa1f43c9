use vxapo_driver::instance::ref_count::{decrement, get, increment, is_zero, reset_for_test};

#[test]
fn initial_state() {
    let mut n: u32 = 7;
    reset_for_test(&mut n);
    assert_eq!(get(&n), 0);
    assert!(is_zero(&n));
}

#[test]
fn single_increment() {
    let mut n: u32 = 7;
    reset_for_test(&mut n);
    let count = increment(&mut n);
    assert_eq!(count, 1);
    assert_eq!(get(&n), 1);
    assert!(!is_zero(&n));
}

#[test]
fn increment_decrement_cycle() {
    let mut n: u32 = 7;
    reset_for_test(&mut n);
    assert_eq!(increment(&mut n), 1);
    assert_eq!(increment(&mut n), 2);
    assert_eq!(increment(&mut n), 3);
    assert_eq!(get(&n), 3);

    assert_eq!(decrement(&mut n), 2);
    assert_eq!(decrement(&mut n), 1);
    assert_eq!(decrement(&mut n), 0);
    assert!(is_zero(&n));
}

#[test]
fn multiple_cycles() {
    let mut n: u32 = 7;
    reset_for_test(&mut n);
    for _ in 0..100 {
        increment(&mut n);
    }
    assert_eq!(get(&n), 100);
    for _ in 0..100 {
        decrement(&mut n);
    }
    assert!(is_zero(&n));
}

#[test]
fn return_value_reflects_count() {
    let mut n: u32 = 7;
    reset_for_test(&mut n);
    assert_eq!(increment(&mut n), 1);
    assert_eq!(increment(&mut n), 2);
    assert_eq!(decrement(&mut n), 1);
    assert_eq!(decrement(&mut n), 0);
}
