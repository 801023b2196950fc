use cells::{RefCell, RefState};

#[test]
fn shared_borrows_block_exclusive() {
    let mut rc = RefCell::new(5);
    let r1 = rc.borrow();
    let r2 = rc.borrow();
    assert!(r1.is_some());
    assert!(r2.is_some());
    let m = rc.borrow_mut();
    assert!(m.is_none());
    assert_eq!(rc.state(), RefState::Shared(2));
    assert_eq!(*r1.as_ref().unwrap().deref(&rc), 5);
}

#[test]
fn exclusive_borrow_blocks_shared() {
    let mut rc = RefCell::new(5);
    let m = rc.borrow_mut();
    assert!(m.is_some());
    let r = rc.borrow();
    assert!(r.is_none());
    assert!(rc.borrow_mut().is_none());
    assert_eq!(rc.state(), RefState::Exclusive);
}

#[test]
fn new_cell_is_unshared() {
    let rc = RefCell::new("v");
    assert_eq!(rc.state(), RefState::Unshared);
}

#[test]
fn releases_in_any_order_return_to_unshared() {
    let mut rc = RefCell::new(1u32);
    let mut views = Vec::new();
    for _ in 0..5 {
        views.push(rc.borrow().unwrap());
    }
    assert_eq!(rc.state(), RefState::Shared(5));
    let v2 = views.remove(2);
    v2.release(&mut rc);
    let v0 = views.remove(0);
    v0.release(&mut rc);
    assert_eq!(rc.state(), RefState::Shared(3));
    while let Some(v) = views.pop() {
        v.release(&mut rc);
    }
    assert_eq!(rc.state(), RefState::Unshared);
    assert!(rc.borrow_mut().is_some());
}

#[test]
fn exclusive_view_writes_and_release_restores_unshared() {
    let mut rc = RefCell::new(5);
    let m = rc.borrow_mut().unwrap();
    *m.deref_mut(&mut rc) = 9;
    assert_eq!(*m.deref(&rc), 9);
    m.release(&mut rc);
    assert_eq!(rc.state(), RefState::Unshared);
    let r = rc.borrow().unwrap();
    assert_eq!(*r.deref(&rc), 9);
    assert_eq!(rc.state(), RefState::Shared(1));
    r.release(&mut rc);
    assert_eq!(rc.state(), RefState::Unshared);
}
