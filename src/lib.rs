//! Acquiring a backtrace of the running process: a frame-by-frame stack
//! walk, address-to-symbol resolution, name demangling, owned snapshots,
//! and the per-thread reentrancy lock that serialises all of it.
pub mod bomb;
pub mod capture;
pub mod demangle;
pub mod frame;
pub mod lock;
pub mod symbolize;

pub use capture::{Backtrace, BacktraceFrame, BacktraceSymbol};
pub use demangle::demangle;
pub use frame::{trace, Frame};
pub use lock::{lock, LockGuard, LockState};
pub use symbolize::{resolve, Symbol, SymbolName};
