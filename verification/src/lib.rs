//! A BTP (bilateral transfer protocol) multiplexer for ILP packets: one
//! session per peer account, outgoing Prepares correlated with the Fulfill
//! or Reject that answers them, inbound Prepares buffered until a handler is
//! bound and routed to it afterwards.
//!
//! The service is modelled as a state machine over plain values: `service`
//! holds the sessions map, the correlation table and the inbound buffer and
//! decides what happens to each event; `codec` maps structured BTP frames to
//! and from `(request id, ILP packet)`; `frames` holds the data types; and
//! `assoc` proves the association-sequence facts the tables rest on. The
//! surroundings own the transport: they feed frames and connection events in
//! and perform the actions — queueing a frame, resolving a caller's slot,
//! invoking the handler — that the methods return.

pub mod assoc;
pub mod codec;
pub mod frames;
pub mod service;
