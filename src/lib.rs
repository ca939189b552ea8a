//! Strips ANSI escape sequences from byte streams.
//!
//! Output of a program that colours its text or moves the cursor can be
//! written through a [`Writer`] to a place that cannot show such sequences,
//! such as a log file: only printable characters and linefeeds come out, in
//! the order they went in. [`strip`] does the same for one byte string.
//!
//! Escape sequences are recognised by vte's parser; what is passed on for each
//! of its reports, the line buffering and the handling of sink failures are
//! proved here against their contracts.

pub mod dispatch;
pub mod scan;
pub mod sink;
pub mod writer;

pub use sink::BoundedSink;
pub use sink::IntoInnerError;
pub use sink::LineWriter;
pub use sink::Sink;
pub use sink::SinkError;
pub use writer::strip;
pub use writer::Performer;
pub use writer::Writer;
