//! Text to speech: sentence segmentation for streaming synthesis, request checks and the
//! PCM body of a synthesis reply.
pub mod controller;
pub mod handler;
pub mod service;
