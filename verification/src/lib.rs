//! Reading the data feed of a crash game: its message format, the state of its rounds, the
//! statistics over past rounds, and the rules by which a session with the feed is kept
//! alive.

pub mod counter;
pub mod double;
pub mod event;
pub mod invariants;
pub mod json;
pub mod label;
pub mod message;
pub mod number;
pub mod report;
pub mod session;
pub mod settings;
pub mod state;
pub mod status;
pub mod style;
pub mod text;
