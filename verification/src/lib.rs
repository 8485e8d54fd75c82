//! Verified core of a UniMRCP speech-synthesizer plugin: the state of a
//! synthesizer channel and how audio frames are fed from it, the handling of
//! MRCP synthesizer requests, the synthesis request and response formats, and
//! the formatting of log lines for the server's logger.

pub mod channel;
pub mod engine;
pub mod logging;
pub mod message;
pub mod synthesis;
