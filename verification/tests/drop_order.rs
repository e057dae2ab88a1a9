use std::cell::RefCell;
use std::rc::Rc;

use spsc::padded;
use spsc::ring::Ring;

struct Noisy {
    id: u32,
    log: Rc<RefCell<Vec<u32>>>,
}

impl Drop for Noisy {
    fn drop(&mut self) {
        self.log.borrow_mut().push(self.id);
    }
}

fn noisy(id: u32, log: &Rc<RefCell<Vec<u32>>>) -> Noisy {
    Noisy { id, log: Rc::clone(log) }
}

#[test]
fn ring_drops_held_items_oldest_first_after_wraparound() {
    let log = Rc::new(RefCell::new(Vec::new()));
    let mut ring: Ring<Noisy> = Ring::new(4, 1);
    for id in 0..3 {
        assert!(ring.push(noisy(id, &log)).is_ok());
    }
    drop(ring.pop());
    drop(ring.pop());
    for id in 3..6 {
        assert!(ring.push(noisy(id, &log)).is_ok());
    }
    log.borrow_mut().clear();
    drop(ring);
    assert_eq!(*log.borrow(), vec![2, 3, 4, 5]);
}

#[test]
fn last_handle_drops_held_items_oldest_first() {
    let log = Rc::new(RefCell::new(Vec::new()));
    let (mut tx, mut rx) = padded::channel::<Noisy>(2);
    assert!(tx.push(noisy(10, &log)).is_ok());
    assert!(tx.push(noisy(11, &log)).is_ok());
    drop(rx.pop());
    assert!(tx.push(noisy(12, &log)).is_ok());
    log.borrow_mut().clear();
    drop(tx);
    assert!(log.borrow().is_empty());
    drop(rx);
    assert_eq!(*log.borrow(), vec![11, 12]);
}
