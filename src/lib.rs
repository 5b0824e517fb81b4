//! Core TCP machinery: wrapping sequence numbers, a bounded byte stream,
//! a stream reassembler, and the receiving and sending halves of a connection.
pub mod byte_stream;
pub mod reassembler_laws;
pub mod stream_reassembler;
pub mod tcp_helpers;
pub mod tcp_receiver;
pub mod tcp_sender;
pub mod util;
pub mod wrapping_integers;
