use vstd::prelude::*;

use crate::wrapping_integers::WrappingInt32;

verus! {

/// Default capacity of a byte stream, in bytes.
pub const DEFAULT_CAPACITY: usize = 64000;

/// Largest TCP payload that fits in an IPv4 or UDP datagram.
pub const MAX_PAYLOAD_SIZE: usize = 1452;

/// Default initial retransmission timeout, in milliseconds.
pub const TIMEOUT_DFLT: u16 = 1000;

/// Consecutive retransmissions after which a connection is given up.
pub const MAX_RETX_ATTEMPTS: usize = 8;

/// Configuration of a TCP sender and receiver.
pub struct TCPConfig {
    /// Initial retransmission timeout, in milliseconds.
    pub rt_timeout: u16,
    /// Capacity of the receiving stream, in bytes.
    pub recv_capacity: usize,
    /// Capacity of the sending stream, in bytes.
    pub send_capacity: usize,
    /// Initial sequence number to use instead of a random one.
    pub fixed_isn: Option<WrappingInt32>,
}

impl TCPConfig {
    pub fn new() -> (r: TCPConfig)
        ensures
            r.rt_timeout == TIMEOUT_DFLT,
            r.recv_capacity == DEFAULT_CAPACITY,
            r.send_capacity == DEFAULT_CAPACITY,
            r.fixed_isn is None,
    {
        TCPConfig {
            rt_timeout: TIMEOUT_DFLT,
            recv_capacity: DEFAULT_CAPACITY,
            send_capacity: DEFAULT_CAPACITY,
            fixed_isn: None,
        }
    }
}

impl Default for TCPConfig {
    fn default() -> (r: Self)
        ensures
            r.rt_timeout == TIMEOUT_DFLT,
            r.recv_capacity == DEFAULT_CAPACITY,
            r.send_capacity == DEFAULT_CAPACITY,
            r.fixed_isn is None,
    {
        TCPConfig::new()
    }
}

} // verus!
