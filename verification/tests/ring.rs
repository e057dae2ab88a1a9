use spsc::ring::Ring;

/// Pushes and pops as listed, recording the accepted and the delivered
/// values: what was delivered, then what is still held, is what was accepted.
#[test]
fn fifo_law_on_an_interleaving() {
    let mut ring: Ring<u32> = Ring::new(2, 1);
    let mut accepted = Vec::new();
    let mut delivered = Vec::new();
    let script: [Option<u32>; 9] = [
        Some(1),
        Some(2),
        Some(3),
        None,
        Some(4),
        None,
        None,
        None,
        Some(5),
    ];
    for step in script {
        match step {
            Some(v) => {
                if ring.push(v).is_ok() {
                    accepted.push(v);
                }
            }
            None => {
                if let Some(v) = ring.pop() {
                    delivered.push(v);
                }
            }
        }
    }
    assert_eq!(accepted, vec![1, 2, 4, 5]);
    assert_eq!(delivered, vec![1, 2, 4]);
    let mut rest = Vec::new();
    while let Some(v) = ring.pop() {
        rest.push(v);
    }
    assert_eq!(rest, vec![5]);
    delivered.extend(rest);
    assert_eq!(delivered, accepted);
}

#[test]
fn bounded_law_holds_at_most_cap() {
    let mut ring: Ring<u8> = Ring::new(4, 16);
    let mut taken = 0;
    for v in 0..10u8 {
        if ring.push(v).is_ok() {
            taken += 1;
        }
    }
    assert_eq!(taken, 4);
    let mut held = 0;
    while ring.pop().is_some() {
        held += 1;
    }
    assert_eq!(held, 4);
}

#[test]
fn every_slot_usable_law() {
    let mut ring: Ring<u16> = Ring::new(8, 1);
    for v in 0..8u16 {
        assert_eq!(ring.push(v), Ok(()));
    }
    for v in 0..8u16 {
        assert_eq!(ring.pop(), Some(v));
    }
}

#[test]
fn full_refuses_law() {
    let mut ring: Ring<char> = Ring::new(2, 1);
    ring.push('x').unwrap();
    ring.push('y').unwrap();
    assert_eq!(ring.push('z'), Err('z'));
    assert_eq!(ring.pop(), Some('x'));
    assert_eq!(ring.pop(), Some('y'));
    assert_eq!(ring.pop(), None);
}

#[test]
fn empty_yields_nothing_law() {
    let mut ring: Ring<i64> = Ring::new(1, 1);
    assert_eq!(ring.pop(), None);
    ring.push(-3).unwrap();
    assert_eq!(ring.pop(), Some(-3));
    assert_eq!(ring.pop(), None);
    assert_eq!(ring.push(4), Ok(()));
}

#[test]
fn stride_does_not_change_behaviour() {
    let mut near: Ring<u32> = Ring::new(4, 1);
    let mut far: Ring<u32> = Ring::new(4, 16);
    for i in 0..50u32 {
        if i % 3 == 2 {
            assert_eq!(near.pop(), far.pop());
        } else {
            assert_eq!(near.push(i), far.push(i));
        }
    }
}
