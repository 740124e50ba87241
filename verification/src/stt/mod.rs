//! Speech to text: the streaming processor, the per-connection session,
//! transcript assembly and the messages sent to clients.
pub mod controller;
pub mod handler;
pub mod service;
