//! The outgoing packet descriptor, and the reply that a received datagram
//! calls for: its payload echoed back to its sender behind a fixed prefix.
use vstd::prelude::*;
use crate::builder::{ipv4_udp_build, udp_datagram, HEADERS_LEN, MAX_LENGTH, PROTOCOL_UDP};
use crate::checksum::word_at;
use crate::error::CodecError;
use crate::ipv4::{
    ipv4_data_of, ipv4_dst_addr, ipv4_dst_addr_of, ipv4_protocol, ipv4_src_addr_of, ipv4_version,
    ipv4_version_of,
};
use crate::udp::{holds_udp_segment, ipv4_udp_segment, udp_data, udp_data_of, udp_dst_port, udp_src_port};

verus! {

/// What the builder needs for one datagram: the two endpoints and the payload.
pub struct OutgoingPacket {
    pub src_ip: [u8; 4],
    pub src_port: u16,
    pub dst_ip: [u8; 4],
    pub dst_port: u16,
    pub data: Vec<u8>,
}

/// The bytes put before an echoed payload: "Recv: ".
pub open spec fn reply_prefix() -> Seq<u8> {
    seq![82u8, 101u8, 99u8, 118u8, 58u8, 32u8]
}

/// Whether a frame is an IPv4 UDP datagram, whole enough to read, addressed
/// to `local`.
pub open spec fn is_udp_for(frame: Seq<u8>, local: Seq<u8>) -> bool {
    &&& holds_udp_segment(frame)
    &&& ipv4_version_of(frame) == 4
    &&& frame[9] == PROTOCOL_UDP
    &&& ipv4_dst_addr_of(frame) == local
}

impl OutgoingPacket {
    /// The bytes of the datagram that this descriptor stands for.
    pub open spec fn datagram(&self) -> Seq<u8> {
        udp_datagram(self.src_ip@, self.src_port, self.dst_ip@, self.dst_port, self.data@)
    }

    /// Builds the datagram into `buf`, as `ipv4_udp_build` does.
    pub fn build_into(&self, buf: &mut [u8]) -> (r: Result<(), CodecError>)
        ensures
            HEADERS_LEN + self.data@.len() > MAX_LENGTH ==> r == Err::<(), CodecError>(
                CodecError::OverflowError,
            ),
            HEADERS_LEN + self.data@.len() <= MAX_LENGTH && old(buf)@.len() != HEADERS_LEN
                + self.data@.len() ==> r == Err::<(), CodecError>(CodecError::SizeError),
            r is Err ==> final(buf)@ == old(buf)@,
            HEADERS_LEN + self.data@.len() <= MAX_LENGTH && old(buf)@.len() == HEADERS_LEN
                + self.data@.len() ==> r == Ok::<(), CodecError>(()) && final(buf)@
                == self.datagram(),
    {
        ipv4_udp_build(
            buf,
            self.src_ip.as_slice(),
            self.src_port,
            self.dst_ip.as_slice(),
            self.dst_port,
            self.data.as_slice(),
        )
    }
}

/// Length of the datagram that carries `payload_len` bytes, where it fits the
/// 16-bit total length field.
pub fn datagram_len(payload_len: usize) -> (r: Option<u16>)
    ensures
        HEADERS_LEN + payload_len <= MAX_LENGTH ==> r == Some((HEADERS_LEN + payload_len) as u16),
        HEADERS_LEN + payload_len > MAX_LENGTH ==> r is None,
{
    if payload_len > MAX_LENGTH - HEADERS_LEN {
        None
    } else {
        Some((HEADERS_LEN + payload_len) as u16)
    }
}

/// The first four bytes of `s`, as an array.
fn addr_of(s: &[u8]) -> (r: [u8; 4])
    requires
        s@.len() == 4,
    ensures
        r@ == s@,
{
    let r = [s[0], s[1], s[2], s[3]];
    assert(r@ =~= s@);
    r
}

/// The reply to `frame` for a host at `local`: where the frame is an IPv4 UDP
/// datagram addressed to `local`, a datagram back to its sender, sent from the
/// address and port it was sent to, whose payload is "Recv: " followed by the
/// received payload. Any other frame, a malformed one included, gets none.
pub fn echo_reply(frame: &[u8], local: [u8; 4]) -> (r: Option<OutgoingPacket>)
    ensures
        r is Some <==> is_udp_for(frame@, local@),
        r matches Some(p) ==> {
            let seg = ipv4_data_of(frame@);
            &&& p.src_ip@ == ipv4_dst_addr_of(frame@)
            &&& p.dst_ip@ == ipv4_src_addr_of(frame@)
            &&& p.src_port as nat == word_at(seg, 2)
            &&& p.dst_port as nat == word_at(seg, 0)
            &&& p.data@ == reply_prefix() + udp_data_of(seg)
        },
{
    let seg = match ipv4_udp_segment(frame) {
        Ok(s) => s,
        Err(_) => {
            return None;
        },
    };
    let dst = ipv4_dst_addr(frame);
    if ipv4_version(frame) != 4 || ipv4_protocol(frame) != PROTOCOL_UDP || dst[0] != local[0]
        || dst[1] != local[1] || dst[2] != local[2] || dst[3] != local[3] {
        proof {
            if ipv4_dst_addr_of(frame@) == local@ {
                assert(dst@[0] == local@[0] && dst@[1] == local@[1]);
                assert(dst@[2] == local@[2] && dst@[3] == local@[3]);
            }
        }
        return None;
    }
    assert(ipv4_dst_addr_of(frame@) =~= local@);
    let payload = udp_data(seg);
    let mut data: Vec<u8> = vec![82, 101, 99, 118, 58, 32];
    assert(data@ =~= reply_prefix());
    let mut i: usize = 0;
    while i < payload.len()
        invariant
            i <= payload@.len(),
            data@ == reply_prefix() + payload@.subrange(0, i as int),
        decreases payload@.len() - i,
    {
        data.push(payload[i]);
        i = i + 1;
        assert(data@ =~= reply_prefix() + payload@.subrange(0, i as int));
    }
    assert(payload@.subrange(0, payload@.len() as int) =~= payload@);
    let src_ip = addr_of(crate::ipv4::ipv4_src_addr(frame));
    let src_addr = addr_of(dst);
    Some(
        OutgoingPacket {
            src_ip: src_addr,
            src_port: udp_dst_port(seg),
            dst_ip: src_ip,
            dst_port: udp_src_port(seg),
            data,
        },
    )
}

} // verus!
