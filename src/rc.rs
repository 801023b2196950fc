use vstd::prelude::*;

use crate::cell::Cell;
use std::marker::PhantomData;

verus! {

/// One shared allocation: the value and the number of live handles to it.
struct RcInner<T> {
    value: T,
    refcount: Cell<usize>,
}

/// The allocations that `Rc` handles refer to. A freed allocation leaves an
/// empty slot behind, so a handle's slot number is never reused.
pub struct RcHeap<T> {
    slots: Vec<Option<RcInner<T>>>,
}

/// A counted handle to a value shared through an `RcHeap`. Handles are
/// made by `new` and `clone` and given back by `release`; the value is
/// freed when its last handle is released. A handle dropped without
/// `release` keeps its count held, so the value then stays allocated.
pub struct Rc<T> {
    inner: usize,
    _marker: PhantomData<T>,
}

spec fn inner_view<T>(s: Option<RcInner<T>>) -> Option<(T, nat)> {
    match s {
        Some(i) => Some((i.value, i.refcount@ as nat)),
        None => None,
    }
}

impl<T> View for RcHeap<T> {
    /// Each slot: the value and its number of handles, or `None` once freed.
    type V = Seq<Option<(T, nat)>>;

    closed spec fn view(&self) -> Self::V {
        self.slots@.map_values(|s: Option<RcInner<T>>| inner_view(s))
    }
}

/// An allocation after one more handle to it is made.
pub open spec fn clone_step<T>(a: Option<(T, nat)>) -> Option<(T, nat)> {
    match a {
        Some((v, c)) => Some((v, c + 1)),
        None => None,
    }
}

/// An allocation after one handle to it is released: freed when that was
/// the last handle.
pub open spec fn release_step<T>(a: Option<(T, nat)>) -> Option<(T, nat)> {
    match a {
        Some((v, c)) => if c == 1 {
            None
        } else {
            Some((v, (c - 1) as nat))
        },
        None => None,
    }
}

/// Whether releasing one handle to the allocation frees it.
pub open spec fn release_frees<T>(a: Option<(T, nat)>) -> bool {
    a is Some && a->Some_0.1 == 1
}

impl<T> RcHeap<T> {
    /// Every live allocation has at least one handle.
    pub open spec fn wf(&self) -> bool {
        forall|i: int| 0 <= i < self@.len() && #[trigger] self@[i] is Some ==> self@[i]->Some_0.1 >= 1
    }

    /// Creates a heap with no allocation.
    pub fn new() -> (r: Self)
        ensures
            r.wf(),
            r@ == Seq::<Option<(T, nat)>>::empty(),
    {
        let r = RcHeap { slots: Vec::new() };
        assert(r@ =~= Seq::<Option<(T, nat)>>::empty());
        r
    }
}

impl<T> Rc<T> {
    /// The slot of the allocation this handle refers to.
    pub closed spec fn slot(&self) -> int {
        self.inner as int
    }

    /// Whether this handle refers to a live allocation among `slots`.
    pub open spec fn is_live_in(&self, slots: Seq<Option<(T, nat)>>) -> bool {
        0 <= self.slot() < slots.len() && slots[self.slot()] is Some
    }

    /// Allocates `v` in `heap` with a count of one, and returns the handle.
    pub fn new(heap: &mut RcHeap<T>, v: T) -> (r: Self)
        requires
            old(heap).wf(),
        ensures
            final(heap).wf(),
            r.slot() == old(heap)@.len(),
            final(heap)@ == old(heap)@.push(Some((v, 1nat))),
    {
        let i = heap.slots.len();
        heap.slots.push(Some(RcInner { value: v, refcount: Cell::new(1) }));
        assert(heap@ =~= old(heap)@.push(Some((v, 1nat))));
        Rc { inner: i, _marker: PhantomData }
    }

    /// Makes another handle to the same allocation, whose count grows by one.
    pub fn clone(&self, heap: &mut RcHeap<T>) -> (r: Self)
        requires
            old(heap).wf(),
            self.is_live_in(old(heap)@),
            old(heap)@[self.slot()]->Some_0.1 < usize::MAX,
        ensures
            final(heap).wf(),
            r.slot() == self.slot(),
            final(heap)@ == old(heap)@.update(self.slot(), clone_step(old(heap)@[self.slot()])),
    {
        let i = self.inner;
        match &mut heap.slots[i] {
            Some(inner) => {
                let c = inner.refcount.get();
                inner.refcount.set(c + 1);
            },
            None => {},
        }
        assert(heap@ =~= old(heap)@.update(self.slot(), clone_step(old(heap)@[self.slot()])));
        Rc { inner: i, _marker: PhantomData }
    }

    /// Reads the shared value.
    pub fn deref<'a>(&self, heap: &'a RcHeap<T>) -> (r: &'a T)
        requires
            self.is_live_in(heap@),
        ensures
            *r == heap@[self.slot()]->Some_0.0,
    {
        &heap.slots[self.inner].as_ref().unwrap().value
    }

    /// How many live handles the allocation has.
    pub fn count(&self, heap: &RcHeap<T>) -> (r: usize)
        requires
            self.is_live_in(heap@),
        ensures
            r == heap@[self.slot()]->Some_0.1,
    {
        heap.slots[self.inner].as_ref().unwrap().refcount.get()
    }

    /// Gives this handle back. The allocation's count drops by one; when this
    /// was its last handle the value is dropped instead, and `true` returned.
    pub fn release(self, heap: &mut RcHeap<T>) -> (freed: bool)
        requires
            old(heap).wf(),
            self.is_live_in(old(heap)@),
        ensures
            final(heap).wf(),
            freed == release_frees(old(heap)@[self.slot()]),
            final(heap)@ == old(heap)@.update(self.slot(), release_step(old(heap)@[self.slot()])),
    {
        let i = self.inner;
        let c = heap.slots[i].as_ref().unwrap().refcount.get();
        if c == 1 {
            heap.slots.set(i, None);
            assert(heap@ =~= old(heap)@.update(self.slot(), release_step(old(heap)@[self.slot()])));
            true
        } else {
            match &mut heap.slots[i] {
                Some(inner) => inner.refcount.set(c - 1),
                None => {},
            }
            assert(heap@ =~= old(heap)@.update(self.slot(), release_step(old(heap)@[self.slot()])));
            false
        }
    }
}

/// What is done with the handles to one allocation: a live handle is
/// duplicated, or one is released.
pub enum HandleOp {
    Duplicate,
    Release,
}

/// How many handles are live after `ops`, starting from the one handle that
/// `new` returns.
pub open spec fn live_handles(ops: Seq<HandleOp>) -> int
    decreases ops.len(),
{
    if ops.len() == 0 {
        1
    } else {
        match ops.last() {
            HandleOp::Duplicate => live_handles(ops.drop_last()) + 1,
            HandleOp::Release => live_handles(ops.drop_last()) - 1,
        }
    }
}

/// Each of `ops` is done while some handle is live.
pub open spec fn valid_handle_ops(ops: Seq<HandleOp>) -> bool {
    forall|i: int| 0 <= i < ops.len() ==> live_handles(#[trigger] ops.take(i)) > 0
}

/// The allocation made for `v` after `ops`, as `clone` and `release` leave it.
pub open spec fn allocation_after<T>(v: T, ops: Seq<HandleOp>) -> Option<(T, nat)>
    decreases ops.len(),
{
    if ops.len() == 0 {
        Some((v, 1nat))
    } else {
        let before = allocation_after(v, ops.drop_last());
        match ops.last() {
            HandleOp::Duplicate => clone_step(before),
            HandleOp::Release => release_step(before),
        }
    }
}

/// How many of the releases among `ops` free the allocation made for `v`.
pub open spec fn frees_during<T>(v: T, ops: Seq<HandleOp>) -> nat
    decreases ops.len(),
{
    if ops.len() == 0 {
        0
    } else {
        let prefix = ops.drop_last();
        frees_during(v, prefix) + if ops.last() is Release && release_frees(
            allocation_after(v, prefix),
        ) {
            1nat
        } else {
            0nat
        }
    }
}

/// However handles to one allocation are duplicated and released, while a
/// handle is live the allocation holds the value it was made with and
/// counts exactly the live handles; it has been freed exactly once when the
/// last handle is released, and never before.
pub proof fn lemma_freed_once_after_last<T>(v: T, ops: Seq<HandleOp>)
    requires
        valid_handle_ops(ops),
    ensures
        live_handles(ops) >= 0,
        live_handles(ops) > 0 ==> allocation_after(v, ops) == Some((v, live_handles(ops) as nat)),
        live_handles(ops) > 0 ==> frees_during(v, ops) == 0,
        live_handles(ops) == 0 ==> allocation_after(v, ops) is None,
        live_handles(ops) == 0 ==> frees_during(v, ops) == 1,
    decreases ops.len(),
{
    if ops.len() > 0 {
        let prefix = ops.drop_last();
        assert forall|i: int| 0 <= i < prefix.len() implies live_handles(
            #[trigger] prefix.take(i),
        ) > 0 by {
            assert(prefix.take(i) =~= ops.take(i));
        }
        lemma_freed_once_after_last(v, prefix);
        assert(ops.take(ops.len() - 1) =~= prefix);
        assert(live_handles(ops.take(ops.len() - 1)) > 0);
    }
}

} // verus!
