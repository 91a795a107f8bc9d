//! An inbound SMTP-to-webhook bridge: the SMTP conversation for a fixed
//! allow-list of recipients, the extraction of each accepted message, and the
//! decisions of the resilient webhook dispatcher, each with its contract.
//! The sockets, the TLS handshake, the HTTP client and the timers are driven
//! by the caller, which hands these modules plain values.
//!
//! - `codec`: CRLF framing, line trimming and dot-stuffing.
//! - `smtp_protocol`: the command state machine of one connection.
//! - `session`: one connection with its envelope and allow-list.
//! - `email_parser`, `encoding`: header, MIME and transfer-encoding handling.
//! - `webhook`: the payload, its JSON fields, and the dispatcher's retry and
//!   circuit-breaker decisions.
//! - `config`: validation of the environment's values.
//! - `health`: the health endpoint's routing.

use vstd::prelude::*;

pub mod text;
pub mod codec;
pub mod smtp_protocol;
pub mod encoding;
pub mod email_parser;
pub mod webhook;
pub mod session;
pub mod config;
pub mod health;

verus! {

} // verus!
