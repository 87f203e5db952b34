//! Polling one backend on behalf of the clients that are registered with it.

pub mod batch;
pub mod cursors;
pub mod laws;
pub mod tick;

pub use batch::{BatchModel, ClientBatch};
pub use cursors::Cursor;
pub use tick::{delay_before_next_tick, BatchOutcome, Poller, PollerModel, TickModel, TickPlan};
