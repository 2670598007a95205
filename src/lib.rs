//! Byte-level codec for IPv4/UDP datagrams: field accessors over received
//! frames, the internet checksum, and a builder for outgoing datagrams.
use vstd::prelude::*;

pub mod builder;
pub mod checksum;
pub mod error;
pub mod ipv4;
pub mod reply;
pub mod udp;

pub use builder::ipv4_udp_build;
pub use checksum::internet_checksum;
pub use error::CodecError;
pub use ipv4::{
    ipv4_checksum, ipv4_data, ipv4_dscp_ecn, ipv4_dst_addr, ipv4_flag, ipv4_ident, ipv4_ihl,
    ipv4_length, ipv4_offset, ipv4_protocol, ipv4_src_addr, ipv4_ttl, ipv4_version,
};
pub use reply::{datagram_len, echo_reply, OutgoingPacket};
pub use udp::{ipv4_udp_segment, udp_checksum, udp_data, udp_dst_port, udp_length, udp_src_port};

verus! {

} // verus!
