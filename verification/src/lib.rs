//! The execution core of a block processor: an engine that executes the
//! transactions of one block speculatively, in any order and as often as it
//! takes, and commits them in index order, with the results that executing
//! them one after the other would give.
//!
//! - `task`: execution statuses, error categories, and the traits that
//!   executors and transaction outputs implement.
//! - `vm_status`: the category of a VM status.
//! - `state`, `view`: the state, and the view of it that a transaction
//!   executes against.
//! - `delta`, `materialize`: aggregator deltas and their resolution.
//! - `output`: the parts of a transaction output, and a plain output type.
//! - `serial`: what executing a block serially means, and what follows.
//! - `executor`: the engine.
//! - `script`: an executor of fixed instruction lists.

pub mod delta;
pub mod executor;
pub mod materialize;
pub mod output;
pub mod script;
pub mod serial;
pub mod state;
pub mod task;
pub mod view;
pub mod vm_status;
