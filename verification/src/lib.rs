//! Room state for the PLATO nervous system: the sixteen labelled
//! dimensions of a room's state, and a bounded history of timestamped
//! states kept in chronological order.

mod clock;
mod history;
mod label;

pub use clock::{now_ms, timestamp_from_elapsed};
pub use history::{StateHistory, TimestampedState};
pub use label::{StateFusion, StateLabel, Trend};
