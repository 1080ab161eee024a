//! Linear arrangement of historical data with transactional support.
//!
//! Two cooperating pieces:
//!
//! - [`transaction::States`]: a global counter of the transaction layers that
//!   are currently open.
//! - [`transaction::History`]: a per-key stack of values, each tagged with the
//!   layer that wrote it, together with the reconciliation steps that collapse
//!   the stack after a layer is committed or discarded.

pub mod laws;
pub mod transaction;
