use vstd::prelude::*;

verus! {

/// A container whose value is replaced in place and read back by copy.
///
/// No reference into the stored value is ever handed out, so a replacement
/// can never leave a dangling view behind.
pub struct Cell<T> {
    value: T,
}

impl<T> View for Cell<T> {
    type V = T;

    closed spec fn view(&self) -> T {
        self.value
    }
}

impl<T> Cell<T> {
    /// Creates a cell holding `value`.
    pub fn new(value: T) -> (r: Self)
        ensures
            r@ == value,
    {
        Cell { value }
    }

    /// Replaces the stored value with `value`; the previous one is dropped.
    pub fn set(&mut self, value: T)
        ensures
            final(self)@ == value,
    {
        self.value = value;
    }

    /// Returns a copy of the stored value.
    pub fn get(&self) -> (r: T)
        where
            T: Copy,
        ensures
            r == self@,
    {
        self.value
    }
}

/// One call on a cell: a `set` with its argument, or a `get`.
pub enum CellOp<T> {
    Write(T),
    Read,
}

/// What a cell holds after `op`, given that it held `v` before.
pub open spec fn cell_step<T>(v: T, op: CellOp<T>) -> T {
    match op {
        CellOp::Write(x) => x,
        CellOp::Read => v,
    }
}

/// What a cell created with `init` holds after the calls `ops`, in order.
pub open spec fn cell_contents<T>(init: T, ops: Seq<CellOp<T>>) -> T
    decreases ops.len(),
{
    if ops.len() == 0 {
        init
    } else {
        cell_step(cell_contents(init, ops.drop_last()), ops.last())
    }
}

/// A `get` that follows the calls `ops` on a cell created with `init`
/// returns the argument of the most recent `set` among them, or `init` when
/// there was none.
pub proof fn lemma_get_returns_latest_set<T>(init: T, ops: Seq<CellOp<T>>)
    ensures
        (forall|k: int| 0 <= k < ops.len() ==> ops[k] is Read) ==> cell_contents(init, ops)
            == init,
        forall|j: int|
            0 <= j < ops.len() && #[trigger] ops[j] is Write && (forall|k: int|
                j < k < ops.len() ==> ops[k] is Read) ==> cell_contents(init, ops) == ops[j]->Write_0,
    decreases ops.len(),
{
    if ops.len() > 0 {
        let rest = ops.drop_last();
        lemma_get_returns_latest_set(init, rest);
        assert forall|j: int|
            0 <= j < ops.len() && #[trigger] ops[j] is Write && (forall|k: int|
                j < k < ops.len() ==> ops[k] is Read) implies cell_contents(init, ops)
            == ops[j]->Write_0 by {
            if j < ops.len() - 1 {
                assert(ops.last() is Read);
                assert(rest[j] is Write);
                assert forall|k: int| j < k < rest.len() implies rest[k] is Read by {
                    assert(rest[k] == ops[k]);
                }
            }
        }
        if forall|k: int| 0 <= k < ops.len() ==> ops[k] is Read {
            assert(ops.last() is Read);
            assert forall|k: int| 0 <= k < rest.len() implies rest[k] is Read by {
                assert(rest[k] == ops[k]);
            }
        }
    }
}

} // verus!
