//! Read-only field accessors over an IPv4 header (RFC 791) at the start of a
//! received frame. Multi-byte fields are big-endian.
use vstd::prelude::*;
use crate::checksum::{word_at, word_of};

verus! {

/// Bytes of an IPv4 header without options.
pub const IPV4_HEADER_LEN: usize = 20;

/// Version: the high nibble of byte 0.
pub open spec fn ipv4_version_of(d: Seq<u8>) -> u8 {
    d[0] / 16
}

/// Header length in 4-byte words: the low nibble of byte 0.
pub open spec fn ipv4_ihl_of(d: Seq<u8>) -> u8 {
    d[0] % 16
}

/// Flags: the three high bits of byte 6, kept in place.
pub open spec fn ipv4_flag_of(d: Seq<u8>) -> u8 {
    (d[6] / 32 * 32) as u8
}

/// Fragment offset: the low 5 bits of byte 6, then byte 7.
pub open spec fn ipv4_offset_of(d: Seq<u8>) -> nat {
    word_of(d[6] % 32, d[7])
}

/// Source address: bytes 12 to 15.
pub open spec fn ipv4_src_addr_of(d: Seq<u8>) -> Seq<u8> {
    d.subrange(12, 16)
}

/// Destination address: bytes 16 to 19.
pub open spec fn ipv4_dst_addr_of(d: Seq<u8>) -> Seq<u8> {
    d.subrange(16, 20)
}

/// The payload: everything after the header, whose length `ihl * 4` is read
/// from the frame.
pub open spec fn ipv4_data_of(d: Seq<u8>) -> Seq<u8> {
    d.subrange(ipv4_ihl_of(d) * 4, d.len() as int)
}

/// Version field.
pub fn ipv4_version(d: &[u8]) -> (r: u8)
    requires
        d@.len() >= IPV4_HEADER_LEN,
    ensures
        r == ipv4_version_of(d@),
{
    let b = d[0];
    assert(b >> 4u8 == b / 16) by (bit_vector);
    b >> 4u8
}

/// Header length field, in 4-byte words.
pub fn ipv4_ihl(d: &[u8]) -> (r: u8)
    requires
        d@.len() >= IPV4_HEADER_LEN,
    ensures
        r == ipv4_ihl_of(d@),
{
    let b = d[0];
    assert(b & 0x0fu8 == b % 16) by (bit_vector);
    b & 0x0fu8
}

/// Type-of-service byte (DSCP and ECN).
pub fn ipv4_dscp_ecn(d: &[u8]) -> (r: u8)
    requires
        d@.len() >= IPV4_HEADER_LEN,
    ensures
        r == d@[1],
{
    d[1]
}

/// Reads the big-endian word at `i`.
pub(crate) fn be16(d: &[u8], i: usize) -> (r: u16)
    requires
        i + 1 < d@.len(),
    ensures
        r as nat == word_at(d@, i as int),
{
    let h = d[i] as u16;
    let l = d[i + 1] as u16;
    assert(h < 256 && l < 256 ==> (h << 8u16) | l == h * 256 + l) by (bit_vector);
    (h << 8u16) | l
}

/// Total length field.
pub fn ipv4_length(d: &[u8]) -> (r: u16)
    requires
        d@.len() >= IPV4_HEADER_LEN,
    ensures
        r as nat == word_at(d@, 2),
{
    be16(d, 2)
}

/// Identification field.
pub fn ipv4_ident(d: &[u8]) -> (r: u16)
    requires
        d@.len() >= IPV4_HEADER_LEN,
    ensures
        r as nat == word_at(d@, 4),
{
    be16(d, 4)
}

/// Flags, as the three high bits of byte 6 with the other bits cleared.
pub fn ipv4_flag(d: &[u8]) -> (r: u8)
    requires
        d@.len() >= IPV4_HEADER_LEN,
    ensures
        r == ipv4_flag_of(d@),
{
    let b = d[6];
    assert(b & 0xe0u8 == b / 32 * 32) by (bit_vector);
    b & 0xe0u8
}

/// Fragment offset, 13 bits.
pub fn ipv4_offset(d: &[u8]) -> (r: u16)
    requires
        d@.len() >= IPV4_HEADER_LEN,
    ensures
        r as nat == ipv4_offset_of(d@),
{
    let h = (d[6] & 0x1fu8) as u16;
    let l = d[7] as u16;
    let b = d[6];
    assert(b & 0x1fu8 == b % 32) by (bit_vector);
    assert(h < 256 && l < 256 ==> (h << 8u16) | l == h * 256 + l) by (bit_vector);
    (h << 8u16) | l
}

/// Time-to-live field.
pub fn ipv4_ttl(d: &[u8]) -> (r: u8)
    requires
        d@.len() >= IPV4_HEADER_LEN,
    ensures
        r == d@[8],
{
    d[8]
}

/// Protocol number of the payload.
pub fn ipv4_protocol(d: &[u8]) -> (r: u8)
    requires
        d@.len() >= IPV4_HEADER_LEN,
    ensures
        r == d@[9],
{
    d[9]
}

/// Header checksum field.
pub fn ipv4_checksum(d: &[u8]) -> (r: u16)
    requires
        d@.len() >= IPV4_HEADER_LEN,
    ensures
        r as nat == word_at(d@, 10),
{
    be16(d, 10)
}

/// Source address, borrowed from the frame.
pub fn ipv4_src_addr(d: &[u8]) -> (r: &[u8])
    requires
        d@.len() >= IPV4_HEADER_LEN,
    ensures
        r@ == ipv4_src_addr_of(d@),
{
    vstd::slice::slice_subrange(d, 12, 16)
}

/// Destination address, borrowed from the frame.
pub fn ipv4_dst_addr(d: &[u8]) -> (r: &[u8])
    requires
        d@.len() >= IPV4_HEADER_LEN,
    ensures
        r@ == ipv4_dst_addr_of(d@),
{
    vstd::slice::slice_subrange(d, 16, 20)
}

/// The payload after the header, borrowed from the frame.
pub fn ipv4_data(d: &[u8]) -> (r: &[u8])
    requires
        d@.len() >= IPV4_HEADER_LEN,
        ipv4_ihl_of(d@) * 4 <= d@.len(),
    ensures
        r@ == ipv4_data_of(d@),
{
    let start = ipv4_ihl(d) as usize * 4;
    vstd::slice::slice_subrange(d, start, d.len())
}

} // verus!
