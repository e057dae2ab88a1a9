use std::rc::Rc;

use spsc::{padded, unpadded};

#[test]
fn readme_example_round_trip() {
    let (mut tx, mut rx) = padded::channel::<u64>(1024);
    tx.push(7).unwrap();
    assert_eq!(rx.pop(), Some(7));
    assert_eq!(rx.pop(), None);
}

#[test]
fn padded_fills_every_slot_then_refuses() {
    let (mut tx, mut rx) = padded::channel::<u32>(4);
    for i in 0..4 {
        assert_eq!(tx.push(i), Ok(()));
    }
    assert_eq!(tx.push(99), Err(99));
    for i in 0..4 {
        assert_eq!(rx.pop(), Some(i));
    }
    assert_eq!(rx.pop(), None);
}

#[test]
fn unpadded_fills_every_slot_then_refuses() {
    let (mut tx, mut rx) = unpadded::channel::<u32>(4);
    for i in 0..4 {
        assert_eq!(tx.push(i), Ok(()));
    }
    assert_eq!(tx.push(99), Err(99));
    for i in 0..4 {
        assert_eq!(rx.pop(), Some(i));
    }
    assert_eq!(rx.pop(), None);
}

#[test]
fn capacity_one_alternates() {
    let (mut tx, mut rx) = padded::channel::<&str>(1);
    assert_eq!(tx.push("a"), Ok(()));
    assert_eq!(tx.push("b"), Err("b"));
    assert_eq!(rx.pop(), Some("a"));
    assert_eq!(rx.pop(), None);
    assert_eq!(tx.push("c"), Ok(()));
    assert_eq!(rx.pop(), Some("c"));
}

#[test]
fn order_survives_many_wraparounds() {
    let (mut tx, mut rx) = unpadded::channel::<u64>(8);
    let mut next_in: u64 = 0;
    let mut next_out: u64 = 0;
    for round in 0..5_000u64 {
        let burst = round % 11;
        for _ in 0..burst {
            match tx.push(next_in) {
                Ok(()) => next_in += 1,
                Err(v) => {
                    assert_eq!(v, next_in);
                    assert_eq!(next_in - next_out, 8);
                    break;
                }
            }
        }
        let drain = round % 7;
        for _ in 0..drain {
            match rx.pop() {
                Some(v) => {
                    assert_eq!(v, next_out);
                    next_out += 1;
                }
                None => {
                    assert_eq!(next_in, next_out);
                    break;
                }
            }
        }
    }
    while let Some(v) = rx.pop() {
        assert_eq!(v, next_out);
        next_out += 1;
    }
    assert_eq!(next_out, next_in);
}

#[test]
fn dropping_both_handles_frees_unconsumed_items() {
    let token = Rc::new(());
    let (mut tx, mut rx) = padded::channel::<Rc<()>>(4);
    tx.push(Rc::clone(&token)).unwrap();
    tx.push(Rc::clone(&token)).unwrap();
    tx.push(Rc::clone(&token)).unwrap();
    drop(rx.pop());
    assert_eq!(Rc::strong_count(&token), 3);
    drop(rx);
    assert_eq!(Rc::strong_count(&token), 3);
    drop(tx);
    assert_eq!(Rc::strong_count(&token), 1);
}

#[test]
fn unpadded_drop_frees_unconsumed_items() {
    let token = Rc::new(());
    let (mut tx, rx) = unpadded::channel::<Rc<()>>(2);
    tx.push(Rc::clone(&token)).unwrap();
    drop(tx);
    assert_eq!(Rc::strong_count(&token), 2);
    drop(rx);
    assert_eq!(Rc::strong_count(&token), 1);
}

#[test]
fn refused_value_comes_back_intact() {
    let (mut tx, _rx) = padded::channel::<Vec<u8>>(1);
    tx.push(vec![1]).unwrap();
    assert_eq!(tx.push(vec![2, 3]), Err(vec![2, 3]));
}
