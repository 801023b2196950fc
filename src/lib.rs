//! Single-threaded memory primitives: a cell whose value is replaced in
//! place, a cell that tracks shared and exclusive views at run time, and a
//! reference-counted handle to a shared allocation.

pub mod cell;
pub mod rc;
pub mod refcell;

pub use cell::Cell;
pub use cell::CellOp;
pub use rc::HandleOp;
pub use rc::Rc;
pub use rc::RcHeap;
pub use refcell::BorrowOp;
pub use refcell::Ref;
pub use refcell::RefCell;
pub use refcell::RefMut;
pub use refcell::RefState;
