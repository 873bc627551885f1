//! Decoder for the telegrams that a DSMR smart meter sends over its P1 port.
//!
//! A telegram runs from a line that starts with `/` to a line that starts with
//! `!` and carries a CRC-16/ARC checksum in four hex digits. Between them each
//! line is an OBIS code followed by bracketed groups. The decoder frames
//! telegrams from a stream of lines, verifies the checksum, splits each line,
//! resolves its code against a table of known parameters and turns the first
//! group into a typed value.

pub mod checksum;
pub mod dispatcher;
pub mod error;
pub mod framer;
pub mod group_line;
pub mod message;
pub mod monitor;
pub mod registry;
pub mod session;
pub mod text;
pub mod timestamp;
pub mod value;

pub use dispatcher::{LineNote, LineOutcome, P1Mon, P1MonState, TelegramOutput};
pub use error::{ConfigError, DecodeError, StreamClosed};
pub use framer::{FrameStep, Framer, ParserState, Refusal, SerialRead};
pub use monitor::SerialStep;
pub use group_line::split_p1_line;
pub use registry::{DmsrParam, DmsrParamType, ObisCodes};
