pub mod ipv4_datagram;
pub mod ipv4_header;
pub mod tcp_config;
pub mod tcp_header;
pub mod tcp_segment;
pub mod tcp_state;
