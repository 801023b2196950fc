use cells::Cell;

#[test]
fn set_then_get_returns_new_value() {
    let mut c = Cell::new(5);
    c.set(10);
    assert_eq!(c.get(), 10);
}

#[test]
fn get_without_set_returns_initial_value() {
    let c = Cell::new(7u8);
    assert_eq!(c.get(), 7);
    assert_eq!(c.get(), 7);
}

#[test]
fn get_returns_most_recent_of_many_sets() {
    let mut c = Cell::new(0u64);
    for i in 1..=100u64 {
        c.set(i * 3);
        assert_eq!(c.get(), i * 3);
    }
    c.set(u64::MAX);
    assert_eq!(c.get(), u64::MAX);
}

#[test]
fn bad2() {
    let mut x = Cell::new(vec![42]);
    x.set(vec![]);
}
