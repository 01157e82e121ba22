//! Ingestion core of a live viewer for radio channel measurements: the
//! decoder that turns one text line into per-subcarrier pairs, the bounded
//! window of recent measurements, and the decisions of the reading task.
pub mod channel;
pub mod decode;
pub mod history;
pub mod listener;

pub use history::{App, CsiPacket, CAPACITY};
