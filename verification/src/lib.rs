//! A minimal line-oriented mail submission protocol: a verified state machine
//! that turns a stream of client command lines into structured messages and
//! response lines, and the pure session loop that drives it.

pub mod laws;
pub mod smtp;
pub mod text;
