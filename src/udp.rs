//! Read-only field accessors over a UDP header (RFC 768) at the start of an
//! IPv4 payload, and the bounds check that leads from a frame to it.
use vstd::prelude::*;
use crate::checksum::word_at;
use crate::error::CodecError;
use crate::ipv4::{be16, ipv4_data, ipv4_data_of, ipv4_ihl, ipv4_ihl_of, IPV4_HEADER_LEN};

verus! {

/// Bytes of a UDP header.
pub const UDP_HEADER_LEN: usize = 8;

/// The payload after the UDP header.
pub open spec fn udp_data_of(d: Seq<u8>) -> Seq<u8> {
    d.subrange(8, d.len() as int)
}

/// Whether a frame holds a whole IPv4 header and, after it, room for a UDP
/// header.
pub open spec fn holds_udp_segment(d: Seq<u8>) -> bool {
    &&& d.len() >= IPV4_HEADER_LEN
    &&& ipv4_ihl_of(d) * 4 + UDP_HEADER_LEN <= d.len()
}

/// Source port.
pub fn udp_src_port(d: &[u8]) -> (r: u16)
    requires
        d@.len() >= UDP_HEADER_LEN,
    ensures
        r as nat == word_at(d@, 0),
{
    be16(d, 0)
}

/// Destination port.
pub fn udp_dst_port(d: &[u8]) -> (r: u16)
    requires
        d@.len() >= UDP_HEADER_LEN,
    ensures
        r as nat == word_at(d@, 2),
{
    be16(d, 2)
}

/// Length field: header and payload, in bytes.
pub fn udp_length(d: &[u8]) -> (r: u16)
    requires
        d@.len() >= UDP_HEADER_LEN,
    ensures
        r as nat == word_at(d@, 4),
{
    be16(d, 4)
}

/// Checksum field.
pub fn udp_checksum(d: &[u8]) -> (r: u16)
    requires
        d@.len() >= UDP_HEADER_LEN,
    ensures
        r as nat == word_at(d@, 6),
{
    be16(d, 6)
}

/// The payload after the header, borrowed from the segment.
pub fn udp_data(d: &[u8]) -> (r: &[u8])
    requires
        d@.len() >= UDP_HEADER_LEN,
    ensures
        r@ == udp_data_of(d@),
{
    vstd::slice::slice_subrange(d, 8, d.len())
}

/// The IPv4 payload of a frame, where it can hold a UDP header; a frame too
/// short for its headers is rejected as malformed.
pub fn ipv4_udp_segment(d: &[u8]) -> (r: Result<&[u8], CodecError>)
    ensures
        holds_udp_segment(d@) ==> (r matches Ok(s) && s@ == ipv4_data_of(d@)),
        !holds_udp_segment(d@) ==> r == Err::<&[u8], CodecError>(CodecError::MalformedInput),
{
    if d.len() < IPV4_HEADER_LEN {
        return Err(CodecError::MalformedInput);
    }
    let start = ipv4_ihl(d) as usize * 4;
    if d.len() < start || d.len() - start < UDP_HEADER_LEN {
        return Err(CodecError::MalformedInput);
    }
    Ok(ipv4_data(d))
}

} // verus!
