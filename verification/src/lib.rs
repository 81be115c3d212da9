//! Account scan-state coordination: a ledger of wallet accounts and their
//! provisional chain observations, the policy that orders accounts for
//! scanning, the reconciliation of worker reports against the ledger, and the
//! bookkeeping of worker sessions.

pub mod account;
pub mod error;
pub mod keys;
pub mod laws;
pub mod ledger;
pub mod model;
pub mod node;
pub mod rank;
pub mod reconcile;
pub mod scheduler;
pub mod session;
pub mod state;
pub mod store;
pub mod text;
