use cells::{Rc, RcHeap};

struct DropProbe {
    drops: std::rc::Rc<std::cell::Cell<usize>>,
}

impl Drop for DropProbe {
    fn drop(&mut self) {
        self.drops.set(self.drops.get() + 1);
    }
}

#[test]
fn lib_bad() {
    let x = String::from("foo");
    let mut heap = RcHeap::new();
    let y = Rc::new(&mut heap, &x);
    assert_eq!(*y.deref(&heap), &x);
    assert!(y.release(&mut heap));
}

#[test]
fn clone_survives_drop_of_original() {
    let mut heap = RcHeap::new();
    let a = Rc::new(&mut heap, "x");
    let b = a.clone(&mut heap);
    assert_eq!(b.count(&heap), 2);
    assert!(!a.release(&mut heap));
    assert_eq!(*b.deref(&heap), "x");
    assert_eq!(b.count(&heap), 1);
    assert!(b.release(&mut heap));
}

#[test]
fn value_dropped_once_after_last_of_many_handles() {
    let drops = std::rc::Rc::new(std::cell::Cell::new(0usize));
    let mut heap = RcHeap::new();
    let first = Rc::new(&mut heap, DropProbe { drops: drops.clone() });
    let mut handles: Vec<Option<Rc<DropProbe>>> = Vec::new();
    for _ in 0..1000 {
        handles.push(Some(first.clone(&mut heap)));
    }
    handles.push(Some(first));
    let n = handles.len();
    assert_eq!(handles[0].as_ref().unwrap().count(&heap), 1001);
    let mut freed = 0;
    for k in 0..n {
        let i = (k * 10 + 3) % n;
        let h = handles[i].take().unwrap();
        assert_eq!(drops.get(), 0);
        if h.release(&mut heap) {
            freed += 1;
            assert_eq!(k, n - 1);
        }
    }
    assert_eq!(freed, 1);
    assert_eq!(drops.get(), 1);
}

#[test]
fn separate_allocations_are_independent() {
    let mut heap = RcHeap::new();
    let a = Rc::new(&mut heap, 1u32);
    let b = Rc::new(&mut heap, 2u32);
    let a2 = a.clone(&mut heap);
    assert!(b.release(&mut heap));
    assert_eq!(*a2.deref(&heap), 1);
    assert!(!a.release(&mut heap));
    assert!(a2.release(&mut heap));
}
