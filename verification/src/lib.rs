//! An asynchronous stub DNS resolver: the wire codec, the query engine and the
//! records it hands to callers, with their contracts.
//!
//! The resolver does no input or output itself. A caller submits queries to a
//! channel, tells it at each step which sockets are ready and what the clock
//! says, and lends it two functions to send and to receive with; the channel
//! hands back the outcomes that are due.

// Bytes and texts.
pub mod buf;
pub mod text;

// The wire codec.
pub mod packets;

// Configuration.
pub mod servers_csv;
pub mod sysconfig;

// The query engine.
pub mod ares;
pub mod channel;

// What is handed to callers.
pub mod af;
pub mod ares_data;
pub mod ares_hostent;
pub mod clinkedlist;
pub mod cnullterminated;
pub mod null_terminated;
pub mod offset_of;

// The operations of the C interface.
pub mod ares_options;
pub mod error;
pub mod ffi;
