use std::cell::RefCell;
use std::rc::Rc;

use divan::defer::DeferBuffer;

/// A value that records the moment its release logic runs.
struct Instrumented {
    id: u32,
    released: Rc<RefCell<Vec<u32>>>,
}

impl Instrumented {
    fn release(self) {
        self.released.borrow_mut().push(self.id);
    }
}

#[test]
fn no_release_inside_timed_window() {
    let log: Rc<RefCell<Vec<u32>>> = Rc::new(RefCell::new(Vec::new()));
    let mut buffer: DeferBuffer<Instrumented> = DeferBuffer::new();

    // Timed window: each iteration's produced value is deferred, and no
    // release logic runs while the window is open.
    for id in 0..4 {
        buffer.defer(Instrumented { id, released: log.clone() });
        assert!(log.borrow().is_empty());
    }
    assert_eq!(buffer.len(), 4);
    assert!(log.borrow().is_empty());

    // The window has closed: drain at the sample boundary, release outside.
    let drained = buffer.drain();
    assert_eq!(buffer.len(), 0);
    for value in drained {
        value.release();
    }
    assert_eq!(*log.borrow(), vec![0, 1, 2, 3]);
}

#[test]
fn drain_hands_values_back_in_production_order() {
    let mut buffer: DeferBuffer<u64> = DeferBuffer::new();
    buffer.defer(10);
    buffer.defer(20);
    buffer.defer(30);
    assert_eq!(buffer.len(), 3);
    let drained = buffer.drain();
    assert_eq!(drained, vec![10, 20, 30]);
    assert_eq!(buffer.len(), 0);

    // The buffer is reusable for the next sample and stays bounded by it.
    buffer.defer(40);
    assert_eq!(buffer.len(), 1);
    assert_eq!(buffer.drain(), vec![40]);
    assert_eq!(buffer.len(), 0);
}
