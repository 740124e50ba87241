//! The verified core of a speech server: streaming speech-to-text decisions over 16-bit PCM,
//! the messages that carry transcripts, text segmentation for streaming synthesis, request
//! checks and settings. Transcription and synthesis engines, sockets and HTTP stay outside;
//! the state machines here name the work to do and take its outcome back.
pub mod config;
pub mod pcm;
pub mod stt;
pub mod text;
pub mod tts;
