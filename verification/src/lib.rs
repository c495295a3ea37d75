//! Verified core of a modular, monophonic software synthesizer with an
//! integrated step sequencer: the patch model and its validation, the note
//! pattern and the transport, and the command handling of the IPC protocol.
pub mod binary64;
pub mod text;
pub mod search;
pub mod domain;
pub mod ipc;
