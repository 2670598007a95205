//! Assembly of a complete IPv4/UDP datagram into a caller's buffer, with both
//! checksums: the IPv4 header's, and the UDP one over the pseudo-header, the
//! UDP header and the payload.
use vstd::prelude::*;
use crate::checksum::{
    checksum_of, checksum_range, fold_carries, lemma_fold_carries_absorbs, lemma_fold_carries_value,
    lemma_word_sum_concat, sum_words, word_at, word_of, word_sum,
};
use crate::error::CodecError;
use crate::ipv4::{ipv4_data_of, ipv4_dst_addr_of, ipv4_ihl_of, ipv4_src_addr_of, ipv4_version_of, IPV4_HEADER_LEN};
use crate::udp::{holds_udp_segment, udp_data_of};

verus! {

/// Largest value of a 16-bit length field.
pub const MAX_LENGTH: usize = 0xffff;

/// Bytes of the IPv4 and UDP headers that precede the payload.
pub const HEADERS_LEN: usize = 28;

/// Protocol number of UDP.
pub const PROTOCOL_UDP: u8 = 17;

/// Time-to-live of a built datagram.
pub const DEFAULT_TTL: u8 = 64;

/// The two bytes of a 16-bit value, high byte first.
pub open spec fn be16_bytes(v: nat) -> Seq<u8> {
    seq![(v / 256) as u8, (v % 256) as u8]
}

/// `s` with the 16-bit value `v` stored big-endian at bytes `i` and `i + 1`.
pub open spec fn with_word(s: Seq<u8>, i: int, v: nat) -> Seq<u8> {
    s.update(i, (v / 256) as u8).update(i + 1, (v % 256) as u8)
}

/// An IPv4 header without options and with its checksum field zeroed:
/// version 4, header length 5 words, "don't fragment", TTL 64, protocol UDP.
pub open spec fn ipv4_header_unsummed(total_len: nat, src: Seq<u8>, dst: Seq<u8>) -> Seq<u8> {
    seq![0x45u8, 0u8] + be16_bytes(total_len) + seq![0u8, 0u8, 0x40u8, 0u8, 64u8, 17u8, 0u8, 0u8]
        + src + dst
}

/// The IPv4 header of a built datagram, its checksum in place.
pub open spec fn ipv4_header(total_len: nat, src: Seq<u8>, dst: Seq<u8>) -> Seq<u8> {
    let h = ipv4_header_unsummed(total_len, src, dst);
    with_word(h, 10, checksum_of(h) as nat)
}

/// The UDP pseudo-header: addresses, a zero byte, the protocol, the UDP length.
pub open spec fn pseudo_header(src: Seq<u8>, dst: Seq<u8>, udp_len: nat) -> Seq<u8> {
    src + dst + seq![0u8, 17u8] + be16_bytes(udp_len)
}

/// A UDP header with its checksum field zeroed.
pub open spec fn udp_header_unsummed(src_port: u16, dst_port: u16, udp_len: nat) -> Seq<u8> {
    be16_bytes(src_port as nat) + be16_bytes(dst_port as nat) + be16_bytes(udp_len) + seq![0u8, 0u8]
}

/// A UDP header with its checksum field zeroed, then the payload.
pub open spec fn udp_segment_unsummed(src_port: u16, dst_port: u16, data: Seq<u8>) -> Seq<u8> {
    udp_header_unsummed(src_port, dst_port, 8 + data.len()) + data
}

/// The checksum over the pseudo-header and the segment, before a zero result
/// is replaced.
pub open spec fn udp_raw_checksum(
    src: Seq<u8>,
    src_port: u16,
    dst: Seq<u8>,
    dst_port: u16,
    data: Seq<u8>,
) -> u16 {
    checksum_of(
        pseudo_header(src, dst, 8 + data.len()) + udp_segment_unsummed(src_port, dst_port, data),
    )
}

/// The value of the UDP checksum field: a zero checksum is sent as all ones,
/// since zero means that no checksum was computed.
pub open spec fn udp_checksum_field(
    src: Seq<u8>,
    src_port: u16,
    dst: Seq<u8>,
    dst_port: u16,
    data: Seq<u8>,
) -> u16 {
    let c = udp_raw_checksum(src, src_port, dst, dst_port, data);
    if c == 0 {
        0xffff
    } else {
        c
    }
}

/// The bytes of a built datagram: the IPv4 header, then the UDP segment with
/// its checksum in place.
pub open spec fn udp_datagram(
    src: Seq<u8>,
    src_port: u16,
    dst: Seq<u8>,
    dst_port: u16,
    data: Seq<u8>,
) -> Seq<u8> {
    ipv4_header(28 + data.len(), src, dst) + with_word(
        udp_segment_unsummed(src_port, dst_port, data),
        6,
        udp_checksum_field(src, src_port, dst, dst_port, data) as nat,
    )
}

/// Stores `v` big-endian at bytes `i` and `i + 1` of `buf`.
fn put_be16(buf: &mut [u8], i: usize, v: u16)
    requires
        i + 1 < old(buf)@.len(),
    ensures
        final(buf)@ == with_word(old(buf)@, i as int, v as nat),
{
    buf[i] = (v / 256) as u8;
    buf[i + 1] = (v % 256) as u8;
}

/// Writes both headers, checksum fields zeroed, into the first 28 bytes of
/// `buf`, for a UDP length of `udp_len`.
fn write_headers(
    buf: &mut [u8],
    src_ip: &[u8],
    src_port: u16,
    dst_ip: &[u8],
    dst_port: u16,
    udp_len: u16,
)
    requires
        src_ip@.len() == 4,
        dst_ip@.len() == 4,
        old(buf)@.len() == udp_len + 20,
        old(buf)@.len() <= MAX_LENGTH,
        udp_len >= 8,
    ensures
        final(buf)@.len() == old(buf)@.len(),
        final(buf)@.subrange(0, 28) == ipv4_header_unsummed(old(buf)@.len() as nat, src_ip@, dst_ip@)
            + udp_header_unsummed(src_port, dst_port, udp_len as nat),
{
    let length = buf.len();
    buf[0] = 0x45;
    buf[1] = 0;
    put_be16(buf, 2, length as u16);
    put_be16(buf, 4, 0);
    buf[6] = 0x40;
    buf[7] = 0;
    buf[8] = DEFAULT_TTL;
    buf[9] = PROTOCOL_UDP;
    put_be16(buf, 10, 0);
    buf[12] = src_ip[0];
    buf[13] = src_ip[1];
    buf[14] = src_ip[2];
    buf[15] = src_ip[3];
    buf[16] = dst_ip[0];
    buf[17] = dst_ip[1];
    buf[18] = dst_ip[2];
    buf[19] = dst_ip[3];
    put_be16(buf, 20, src_port);
    put_be16(buf, 22, dst_port);
    put_be16(buf, 24, udp_len);
    put_be16(buf, 26, 0);
    let ghost l = length as nat;
    let ghost u = udp_len as nat;
    let ghost sp = src_port as nat;
    let ghost dp = dst_port as nat;
    let ghost expected = seq![
        0x45u8, 0u8, (l / 256) as u8, (l % 256) as u8, 0u8, 0u8, 0x40u8, 0u8, 64u8, 17u8, 0u8, 0u8,
        src_ip@[0], src_ip@[1], src_ip@[2], src_ip@[3], dst_ip@[0], dst_ip@[1], dst_ip@[2], dst_ip@[3],
        (sp / 256) as u8, (sp % 256) as u8, (dp / 256) as u8, (dp % 256) as u8,
        (u / 256) as u8, (u % 256) as u8, 0u8, 0u8,
    ];
    assert(buf@.subrange(0, 28) =~= expected);
    assert(expected =~= ipv4_header_unsummed(length as nat, src_ip@, dst_ip@)
        + udp_header_unsummed(src_port, dst_port, udp_len as nat));
}

/// Copies `data` into `buf` after the 28 bytes of the headers, which stay.
fn copy_payload(buf: &mut [u8], data: &[u8])
    requires
        old(buf)@.len() == HEADERS_LEN + data@.len(),
    ensures
        final(buf)@ == old(buf)@.subrange(0, 28) + data@,
{
    let ghost head = buf@.subrange(0, 28);
    let n = buf.len();
    let mut i: usize = 0;
    while i < data.len()
        invariant
            i <= data@.len(),
            n == buf@.len(),
            buf@.len() == HEADERS_LEN + data@.len(),
            buf@.subrange(0, 28) == head,
            forall|j: int| 0 <= j < i ==> buf@[28 + j] == data@[j],
        decreases data@.len() - i,
    {
        buf[HEADERS_LEN + i] = data[i];
        i = i + 1;
        assert(buf@.subrange(0, 28) =~= head);
    }
    assert forall|k: int| 0 <= k < 28 implies buf@[k] == head[k] by {
        assert(buf@.subrange(0, 28)[k] == buf@[k]);
    }
    assert(buf@ =~= head + data@);
}

/// Builds into `ip_pack` an IPv4 datagram without options that carries a UDP
/// segment from `src_ip:src_port` to `dst_ip:dst_port` with payload `data`.
/// Lengths are checked before any byte is written: a datagram whose length
/// does not fit 16 bits is an `OverflowError`, and a buffer whose length is
/// not that of the datagram a `SizeError`.
pub fn ipv4_udp_build(
    ip_pack: &mut [u8],
    src_ip: &[u8],
    src_port: u16,
    dst_ip: &[u8],
    dst_port: u16,
    data: &[u8],
) -> (r: Result<(), CodecError>)
    requires
        src_ip@.len() == 4,
        dst_ip@.len() == 4,
    ensures
        HEADERS_LEN + data@.len() > MAX_LENGTH ==> r == Err::<(), CodecError>(
            CodecError::OverflowError,
        ),
        HEADERS_LEN + data@.len() <= MAX_LENGTH && old(ip_pack)@.len() != HEADERS_LEN
            + data@.len() ==> r == Err::<(), CodecError>(CodecError::SizeError),
        r is Err ==> final(ip_pack)@ == old(ip_pack)@,
        HEADERS_LEN + data@.len() <= MAX_LENGTH && old(ip_pack)@.len() == HEADERS_LEN
            + data@.len() ==> r == Ok::<(), CodecError>(()) && final(ip_pack)@ == udp_datagram(
            src_ip@,
            src_port,
            dst_ip@,
            dst_port,
            data@,
        ),
{
    if data.len() > MAX_LENGTH - HEADERS_LEN {
        return Err(CodecError::OverflowError);
    }
    let length = ip_pack.len();
    if length != HEADERS_LEN + data.len() {
        return Err(CodecError::SizeError);
    }
    let udp_len: u16 = (data.len() + 8) as u16;
    let ghost header = ipv4_header_unsummed(length as nat, src_ip@, dst_ip@);
    let ghost udp_header = udp_header_unsummed(src_port, dst_port, udp_len as nat);
    let ghost segment = udp_segment_unsummed(src_port, dst_port, data@);

    write_headers(ip_pack, src_ip, src_port, dst_ip, dst_port, udp_len);
    copy_payload(ip_pack, data);
    assert(segment =~= udp_header + data@);
    assert(ip_pack@ =~= header + segment);

    // IPv4 header checksum.
    assert(ip_pack@.subrange(0, 20) =~= header);
    let ip_sum = checksum_range(ip_pack, 0, IPV4_HEADER_LEN);
    put_be16(ip_pack, 10, ip_sum);
    assert(ip_pack@ =~= ipv4_header(length as nat, src_ip@, dst_ip@) + segment);

    // UDP checksum over the pseudo-header, the header and the payload.
    let pseudo: [u8; 12] = [
        src_ip[0],
        src_ip[1],
        src_ip[2],
        src_ip[3],
        dst_ip[0],
        dst_ip[1],
        dst_ip[2],
        dst_ip[3],
        0,
        PROTOCOL_UDP,
        (udp_len / 256) as u8,
        (udp_len % 256) as u8,
    ];
    let ghost ph = pseudo_header(src_ip@, dst_ip@, udp_len as nat);
    proof {
        assert(pseudo@ =~= ph);
        assert(pseudo@.subrange(0, 12) =~= ph);
        assert(ip_pack@.subrange(20, length as int) =~= segment);
        lemma_word_sum_concat(ph, segment);
        lemma_fold_carries_absorbs(word_sum(ph), word_sum(segment));
    }
    let ph_sum = sum_words(0, pseudo.as_slice(), 0, 12);
    assert(ph_sum as nat == fold_carries(word_sum(ph)));
    let udp_sum = sum_words(ph_sum, ip_pack, IPV4_HEADER_LEN, length);
    assert(udp_sum as nat == fold_carries(word_sum(ph + segment)));
    assert(!udp_sum == 0xffff - udp_sum) by (bit_vector);
    let raw = !udp_sum;
    assert(raw == udp_raw_checksum(src_ip@, src_port, dst_ip@, dst_port, data@));
    let field: u16 = if raw == 0 { 0xffff } else { raw };
    put_be16(ip_pack, 26, field);
    assert(ip_pack@ =~= udp_datagram(src_ip@, src_port, dst_ip@, dst_port, data@));
    Ok(())
}

/// Decoding a built datagram gives back what it was built from: version 4,
/// protocol UDP, a frame that holds a UDP header, the two addresses, the two
/// ports, the UDP length and the payload.
pub proof fn lemma_build_decode_round_trip(
    src: Seq<u8>,
    src_port: u16,
    dst: Seq<u8>,
    dst_port: u16,
    data: Seq<u8>,
)
    requires
        src.len() == 4,
        dst.len() == 4,
        HEADERS_LEN + data.len() <= MAX_LENGTH,
    ensures
        ({
            let p = udp_datagram(src, src_port, dst, dst_port, data);
            let seg = ipv4_data_of(p);
            &&& p.len() == HEADERS_LEN + data.len()
            &&& ipv4_version_of(p) == 4
            &&& ipv4_ihl_of(p) == 5
            &&& p[9] == PROTOCOL_UDP
            &&& word_at(p, 2) == p.len()
            &&& holds_udp_segment(p)
            &&& ipv4_src_addr_of(p) == src
            &&& ipv4_dst_addr_of(p) == dst
            &&& word_at(seg, 0) == src_port
            &&& word_at(seg, 2) == dst_port
            &&& word_at(seg, 4) == 8 + data.len()
            &&& udp_data_of(seg) == data
        }),
{
    let h = ipv4_header_unsummed((HEADERS_LEN + data.len()) as nat, src, dst);
    let c = udp_checksum_field(src, src_port, dst, dst_port, data);
    let useg = with_word(udp_segment_unsummed(src_port, dst_port, data), 6, c as nat);
    let header = ipv4_header((HEADERS_LEN + data.len()) as nat, src, dst);
    let p = udp_datagram(src, src_port, dst, dst_port, data);
    assert(header.len() == 20);
    assert(p[0] == 0x45u8);
    assert(0x45u8 / 16 == 4 && 0x45u8 % 16 == 5);
    assert(ipv4_data_of(p) =~= useg);
    assert(ipv4_src_addr_of(p) =~= src);
    assert(ipv4_dst_addr_of(p) =~= dst);
    assert(udp_data_of(useg) =~= data);
}

/// Word sum of `s` with a zeroed word at even offset `k` replaced by `v`.
proof fn lemma_word_sum_with_word(s: Seq<u8>, k: int, v: nat)
    requires
        0 <= k,
        k + 2 <= s.len(),
        k % 2 == 0,
        s[k] == 0,
        s[k + 1] == 0,
        v < 0x10000,
    ensures
        word_sum(with_word(s, k, v)) == word_sum(s) + v,
{
    let t = with_word(s, k, v);
    let pre = s.subrange(0, k);
    let post = s.subrange(k + 2, s.len() as int);
    let mid = s.subrange(k, k + 2);
    let tmid = t.subrange(k, k + 2);
    assert(s =~= pre + (mid + post));
    assert(t =~= pre + (tmid + post));
    lemma_word_sum_concat(pre, mid + post);
    lemma_word_sum_concat(mid, post);
    lemma_word_sum_concat(pre, tmid + post);
    lemma_word_sum_concat(tmid, post);
    assert(mid.subrange(2, 2) =~= Seq::<u8>::empty());
    assert(tmid.subrange(2, 2) =~= Seq::<u8>::empty());
    assert(word_sum(mid) == word_of(mid[0], mid[1]) + word_sum(mid.subrange(2, 2)));
    assert(word_sum(tmid) == word_of(tmid[0], tmid[1]) + word_sum(tmid.subrange(2, 2)));
}

/// A header whose checksum field holds the checksum of the header with that
/// field zeroed validates: its folded word sum, checksum included, is all
/// ones, so that its checksum is zero.
pub proof fn lemma_header_checksum_validates(h: Seq<u8>)
    requires
        h.len() == IPV4_HEADER_LEN,
        word_at(h, 10) == checksum_of(with_word(h, 10, 0)) as nat,
    ensures
        fold_carries(word_sum(h)) == 0xffff,
        checksum_of(h) == 0,
{
    let z = with_word(h, 10, 0);
    let c = checksum_of(z) as nat;
    assert(h =~= with_word(z, 10, c));
    lemma_word_sum_with_word(z, 10, c);
    let x = word_sum(z);
    lemma_fold_carries_value(x);
    lemma_fold_carries_value(x + c);
    let f = fold_carries(x);
    assert(c == 0xffff - f);
    if x == 0 {
        assert(x + c == 0xffff);
    } else {
        let q = (x - 1) as nat / 0xffff;
        assert((x - 1) as nat == q * 0xffff + (x - 1) as nat % 0xffff);
        assert((x + c - 1) as nat == 0xfffe + q * 0xffff);
        vstd::arithmetic::div_mod::lemma_mod_multiples_vanish(q as int, 0xfffe, 0xffff);
    }
}

/// The IPv4 header of every built datagram validates.
pub proof fn lemma_built_header_validates(
    src: Seq<u8>,
    src_port: u16,
    dst: Seq<u8>,
    dst_port: u16,
    data: Seq<u8>,
)
    requires
        src.len() == 4,
        dst.len() == 4,
        HEADERS_LEN + data.len() <= MAX_LENGTH,
    ensures
        fold_carries(word_sum(udp_datagram(src, src_port, dst, dst_port, data).subrange(0, 20)))
            == 0xffff,
{
    let p = udp_datagram(src, src_port, dst, dst_port, data);
    let hu = ipv4_header_unsummed((HEADERS_LEN + data.len()) as nat, src, dst);
    let h = ipv4_header((HEADERS_LEN + data.len()) as nat, src, dst);
    assert(p.subrange(0, 20) =~= h);
    assert(with_word(h, 10, 0) =~= hu);
    lemma_header_checksum_validates(h);
}

} // verus!
