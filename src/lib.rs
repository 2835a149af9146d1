//! A small userspace TCP/IP stack over raw frames, with its wire formats, checksums and
//! connection state machine proved against mathematical models; and arbitrary-precision
//! natural and signed integers.
pub mod wire;
pub mod checksum;
pub mod traits;
pub mod ip;
pub mod icmp;
pub mod tcp;
pub mod packet;
pub mod http;
pub mod manager;
pub mod stack;
pub mod natural;
pub mod integer;
