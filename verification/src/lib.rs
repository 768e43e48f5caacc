//! A user-space network-layer packet engine for a point-to-point tunnel:
//! IPv4/ICMP/UDP header parsing, serialization and internet checksums, a
//! destination-address banlist, a UDP port registry, and a dispatcher that
//! turns each inbound framed datagram into an optional framed reply.

pub mod banlist;
pub mod checksum;
pub mod dispatcher;
pub mod frame;
pub mod icmp;
pub mod ipv4;
pub mod kv;
pub mod udp;
