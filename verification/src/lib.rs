//! A host-side simulator for unit-testing WebAssembly smart contracts:
//! deterministic tag-derived addresses, a native-token ledger, per-contract
//! slot storage, an append-only event log, a block/transaction context, and
//! a dispatch router that frames cross-contract calls and rolls back the
//! effects of reverted frames.

pub mod word;
pub mod addr;
pub mod event;
pub mod state;
pub mod world;
pub mod router;
pub mod samples;
pub mod laws;
