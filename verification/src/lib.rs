//! Verified host-side logic for the KSA64 mission tooling: byte codecs for
//! recorded sessions, plots, run archives and finalist archives; telemetry
//! stream checks; the link protocol between host and flight endpoints; the
//! console's and the mission session's state machines; mission disposition
//! rules; run pacing; exact decimal quantisation; and campaign sharing and
//! aggregation.

mod crc;
pub mod le;
pub mod fnv;
pub mod disposition;
pub mod pace;
pub mod session;
pub mod archive;
pub mod console;
pub mod study;
pub mod campaign;
pub mod plot;
pub mod export;
pub mod telemetry;
pub mod runs;
pub mod link;
pub mod mission;
pub mod decimal;
pub mod compiler;
