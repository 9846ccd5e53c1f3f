//! Turning a query's net changes into writes on the store.

pub mod constraints;
pub mod error;
pub mod identity;
pub mod laws;
pub mod stage;

pub use constraints::StoredState;
pub use error::{KeyError, PersistError};
pub use stage::{persist_changes, StagedWrite};
