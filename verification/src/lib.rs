//! A verified per-connection HTTP/1.x protocol engine.
//!
//! The crate provides the pure core of a pipelined HTTP/1 server: a head
//! decode/encode state machine with a bounded header scratch area
//! ([`codec`]), a coarse clock that caches an IMF-fixdate timestamp
//! ([`clock`]), and a connection driver expressed as a step function from
//! events to I/O actions ([`driver`]). All byte-level framing is specified
//! over mathematical sequences and proved; the surrounding process performs
//! the actual socket reads and writes and feeds the results back in.

pub mod ascii;
pub mod num;
pub mod codec;
pub mod clock;
pub mod driver;
pub mod service;
