//! A minimal JSON log line encoder.
//!
//! One record — an optional service name, a severity level, a message, and a
//! sequence of key/value entries — is rendered as a single JSON object and
//! handed token by token to an output sink.  The exact text of every record
//! is pinned down by the contracts in [`logger`], over the spec-level decimal
//! and escaping functions of [`conv`] and [`logger`].

pub mod conv;
pub mod logger;
pub mod stdfeatures;

pub use conv::{f64_to_str, itoa_base10, utoa_base10};
pub use logger::{log, log_with_timestamp, Atom, BufferOutputter, Entry, Level, Outputter, Value};
pub use stdfeatures::{stdout_log, StdoutOutputter};
