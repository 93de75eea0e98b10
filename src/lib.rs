//! A local socket endpoint that takes one JSON document per connection.
//!
//! The library holds the decisions of the endpoint: how a connection's bytes
//! become a report, and how the listener is brought up and kept accepting.
//! The socket work itself is done by the caller, which hands the library the
//! events it observed and performs the actions the library answers with.
mod connection;
mod document;
mod greeting;
mod server;

pub use connection::{
    breaks_at, closes_cleanly, deliver, ingest, lemma_broken_read_is_read_failure,
    lemma_connections_are_isolated, lemma_document_is_decoded, lemma_malformed_is_parse_failure,
    own_bytes, payload_of, reports, settle, ConnectionTask, ReadEvent,
};
pub use document::{decode_payload, decodes_to, json_of, IngestError, IngestOutcome};
pub use greeting::{greet, greeting_of};
pub use server::{
    lemma_live_listener_is_left_alone, lemma_removal_follows_dead_probe, run, transition,
    BindError, MessageIngestServer, ServerAction, ServerEvent, ServerPhase,
};
