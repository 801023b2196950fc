use vstd::prelude::*;

use crate::cell::Cell;
use std::marker::PhantomData;

verus! {

/// How many views of a `RefCell` are outstanding, and of which kind.
#[derive(Clone, Copy, Debug, PartialEq, Eq, Structural)]
pub enum RefState {
    /// No view is outstanding.
    Unshared,
    /// The given number (at least one) of shared views are outstanding.
    Shared(usize),
    /// One exclusive view is outstanding.
    Exclusive,
}

/// A state that the cell can be in: a shared count is never zero.
pub open spec fn state_wf(s: RefState) -> bool {
    match s {
        RefState::Shared(n) => n >= 1,
        _ => true,
    }
}

/// Whether a request for a shared view is granted in state `s`.
pub open spec fn shared_granted(s: RefState) -> bool {
    !(s is Exclusive)
}

/// Whether a request for an exclusive view is granted in state `s`.
pub open spec fn exclusive_granted(s: RefState) -> bool {
    s is Unshared
}

/// The state after a request for a shared view in state `s`.
pub open spec fn acquire_shared(s: RefState) -> RefState {
    match s {
        RefState::Unshared => RefState::Shared(1),
        RefState::Shared(n) => RefState::Shared((n + 1) as usize),
        RefState::Exclusive => RefState::Exclusive,
    }
}

/// The state after a request for an exclusive view in state `s`.
pub open spec fn acquire_exclusive(s: RefState) -> RefState {
    match s {
        RefState::Unshared => RefState::Exclusive,
        _ => s,
    }
}

/// The state after a shared view is released in state `s`.
pub open spec fn release_shared(s: RefState) -> RefState {
    match s {
        RefState::Shared(n) => if n == 1 {
            RefState::Unshared
        } else {
            RefState::Shared((n - 1) as usize)
        },
        _ => s,
    }
}

/// A value together with a run-time record of the views handed out on it:
/// either any number of shared views, or one exclusive view, never both.
pub struct RefCell<T> {
    value: T,
    state: Cell<RefState>,
}

/// A shared (read-only) view of a `RefCell`, handed out by `borrow`.
pub struct Ref<T> {
    _cell: PhantomData<T>,
}

/// An exclusive (read-write) view of a `RefCell`, handed out by `borrow_mut`.
pub struct RefMut<T> {
    _cell: PhantomData<T>,
}

impl<T> RefCell<T> {
    /// The value held.
    pub closed spec fn contents(&self) -> T {
        self.value
    }

    /// The views outstanding.
    pub closed spec fn borrow_state(&self) -> RefState {
        self.state@
    }

    pub open spec fn wf(&self) -> bool {
        state_wf(self.borrow_state())
    }

    /// Creates a cell holding `value`, with no view outstanding.
    pub fn new(value: T) -> (r: Self)
        ensures
            r.wf(),
            r.contents() == value,
            r.borrow_state() == RefState::Unshared,
    {
        Self { value, state: Cell::new(RefState::Unshared) }
    }

    /// The views outstanding.
    pub fn state(&self) -> (r: RefState)
        ensures
            r == self.borrow_state(),
    {
        self.state.get()
    }

    /// Requests a shared view; denied (`None`) while an exclusive view is
    /// outstanding.
    pub fn borrow(&mut self) -> (r: Option<Ref<T>>)
        requires
            old(self).wf(),
            old(self).borrow_state() != RefState::Shared(usize::MAX),
        ensures
            final(self).wf(),
            final(self).contents() == old(self).contents(),
            r is Some <==> shared_granted(old(self).borrow_state()),
            final(self).borrow_state() == acquire_shared(old(self).borrow_state()),
    {
        match self.state.get() {
            RefState::Unshared => {
                self.state.set(RefState::Shared(1));
                Some(Ref { _cell: PhantomData })
            },
            RefState::Shared(n) => {
                self.state.set(RefState::Shared(n + 1));
                Some(Ref { _cell: PhantomData })
            },
            RefState::Exclusive => None,
        }
    }

    /// Requests an exclusive view; denied (`None`) while any view is
    /// outstanding.
    pub fn borrow_mut(&mut self) -> (r: Option<RefMut<T>>)
        requires
            old(self).wf(),
        ensures
            final(self).wf(),
            final(self).contents() == old(self).contents(),
            r is Some <==> exclusive_granted(old(self).borrow_state()),
            final(self).borrow_state() == acquire_exclusive(old(self).borrow_state()),
    {
        if let RefState::Unshared = self.state.get() {
            self.state.set(RefState::Exclusive);
            Some(RefMut { _cell: PhantomData })
        } else {
            None
        }
    }
}

impl<T> Ref<T> {
    /// Reads the value of `cell` through this view.
    pub fn deref<'a>(&self, cell: &'a RefCell<T>) -> (r: &'a T)
        requires
            cell.borrow_state() is Shared,
        ensures
            *r == cell.contents(),
    {
        &cell.value
    }

    /// Gives this view back to `cell`.
    pub fn release(self, cell: &mut RefCell<T>)
        requires
            old(cell).wf(),
            old(cell).borrow_state() is Shared,
        ensures
            final(cell).wf(),
            final(cell).contents() == old(cell).contents(),
            final(cell).borrow_state() == release_shared(old(cell).borrow_state()),
    {
        match cell.state.get() {
            RefState::Shared(n) => {
                if n == 1 {
                    cell.state.set(RefState::Unshared);
                } else {
                    cell.state.set(RefState::Shared(n - 1));
                }
            },
            _ => {},
        }
    }
}

impl<T> RefMut<T> {
    /// Reads the value of `cell` through this view.
    pub fn deref<'a>(&self, cell: &'a RefCell<T>) -> (r: &'a T)
        requires
            cell.borrow_state() is Exclusive,
        ensures
            *r == cell.contents(),
    {
        &cell.value
    }

    /// Gives write access to the value of `cell` through this view.
    pub fn deref_mut<'a>(&self, cell: &'a mut RefCell<T>) -> (r: &'a mut T)
        requires
            old(cell).borrow_state() is Exclusive,
        ensures
            *r == old(cell).contents(),
            final(cell).contents() == *final(r),
            final(cell).borrow_state() == old(cell).borrow_state(),
    {
        &mut cell.value
    }

    /// Gives this view back to `cell`, which then has no view outstanding.
    pub fn release(self, cell: &mut RefCell<T>)
        requires
            old(cell).borrow_state() is Exclusive,
        ensures
            final(cell).wf(),
            final(cell).contents() == old(cell).contents(),
            final(cell).borrow_state() == RefState::Unshared,
    {
        cell.state.set(RefState::Unshared);
    }
}

/// A call on a `RefCell`: a request for a view, or the release of one.
pub enum BorrowOp {
    Borrow,
    BorrowMut,
    ReleaseShared,
    ReleaseExclusive,
}

/// The state after `op` in state `s`.
pub open spec fn borrow_step(s: RefState, op: BorrowOp) -> RefState {
    match op {
        BorrowOp::Borrow => acquire_shared(s),
        BorrowOp::BorrowMut => acquire_exclusive(s),
        BorrowOp::ReleaseShared => release_shared(s),
        BorrowOp::ReleaseExclusive => RefState::Unshared,
    }
}

/// The state of a new cell after the calls `ops`, in order.
pub open spec fn state_after(ops: Seq<BorrowOp>) -> RefState
    decreases ops.len(),
{
    if ops.len() == 0 {
        RefState::Unshared
    } else {
        borrow_step(state_after(ops.drop_last()), ops.last())
    }
}

/// How many shared views the calls `ops` on a new cell leave outstanding:
/// those granted less those released.
pub open spec fn shared_views(ops: Seq<BorrowOp>) -> int
    decreases ops.len(),
{
    if ops.len() == 0 {
        0
    } else {
        let before = shared_views(ops.drop_last());
        match ops.last() {
            BorrowOp::Borrow => if shared_granted(state_after(ops.drop_last())) {
                before + 1
            } else {
                before
            },
            BorrowOp::ReleaseShared => before - 1,
            _ => before,
        }
    }
}

/// How many exclusive views the calls `ops` on a new cell leave
/// outstanding: those granted less those released.
pub open spec fn exclusive_views(ops: Seq<BorrowOp>) -> int
    decreases ops.len(),
{
    if ops.len() == 0 {
        0
    } else {
        let before = exclusive_views(ops.drop_last());
        match ops.last() {
            BorrowOp::BorrowMut => if exclusive_granted(state_after(ops.drop_last())) {
                before + 1
            } else {
                before
            },
            BorrowOp::ReleaseExclusive => before - 1,
            _ => before,
        }
    }
}

/// Calls that a caller can make on a new cell: each release gives back a
/// view of its kind that is outstanding, and no shared view is requested
/// while the shared count is at its largest.
pub open spec fn valid_ops(ops: Seq<BorrowOp>) -> bool
    decreases ops.len(),
{
    ops.len() == 0 || {
        let prefix = ops.drop_last();
        &&& valid_ops(prefix)
        &&& match ops.last() {
            BorrowOp::Borrow => state_after(prefix) != RefState::Shared(usize::MAX),
            BorrowOp::ReleaseShared => shared_views(prefix) > 0,
            BorrowOp::ReleaseExclusive => exclusive_views(prefix) > 0,
            BorrowOp::BorrowMut => true,
        }
    }
}

/// After any calls a caller can make, the views outstanding are none, or
/// shared views only, or exactly one exclusive view, never a mix; and the
/// state records exactly those views.
pub proof fn lemma_views_never_mix(ops: Seq<BorrowOp>)
    requires
        valid_ops(ops),
    ensures
        0 <= shared_views(ops) <= usize::MAX,
        0 <= exclusive_views(ops) <= 1,
        shared_views(ops) == 0 || exclusive_views(ops) == 0,
        state_wf(state_after(ops)),
        state_after(ops) == (if exclusive_views(ops) == 1 {
            RefState::Exclusive
        } else if shared_views(ops) > 0 {
            RefState::Shared(shared_views(ops) as usize)
        } else {
            RefState::Unshared
        }),
    decreases ops.len(),
{
    if ops.len() > 0 {
        let prefix = ops.drop_last();
        lemma_views_never_mix(prefix);
        if let RefState::Shared(n) = state_after(prefix) {
            assert(n == shared_views(prefix));
        }
    }
}

/// Once every view handed out has been released, in whatever order, the
/// cell is back to having no view outstanding.
pub proof fn lemma_all_released_unshared(ops: Seq<BorrowOp>)
    requires
        valid_ops(ops),
        shared_views(ops) == 0,
        exclusive_views(ops) == 0,
    ensures
        state_after(ops) == RefState::Unshared,
{
    lemma_views_never_mix(ops);
}

} // verus!
