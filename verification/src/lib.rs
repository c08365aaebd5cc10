//! A small XMPP (Jabber) server core: stanza parsing, routing decisions,
//! SASL PLAIN login, resource binding and the in-memory session registry.
//!
//! Everything here computes on plain values; the program in `app/` owns the
//! sockets, threads and files and hands the library what it read.
pub mod text;
pub mod iq_parser;
pub mod stanza_parser;
pub mod name_map;
pub mod session_manager;
pub mod account_storer;
pub mod auth;
pub mod iq_router;
pub mod resource_binding;
pub mod message_router;
pub mod presence_router;
pub mod stream;
