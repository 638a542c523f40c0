//! Decoding and dispatch of a window manager's event stream.
//!
//! The stream is UTF-8 text, one event per line. [`grammar`] says which
//! lines are events and what they carry, [`stream`] cuts a byte stream into
//! lines, and [`listener`] holds the registered handlers and the loop's
//! decisions for each read.
mod event;
pub mod grammar;
pub mod listener;
pub mod stream;
pub mod text;

pub use event::{
    DecodeError, Event, EventKind, EventModel, MonitorEventData, WindowEventData, WorkspaceId,
};
pub use grammar::{decode, encode_line};
pub use listener::{EventListener, ListenError, ReadOutcome, Session, Status, Step};
pub use stream::LineBuffer;
