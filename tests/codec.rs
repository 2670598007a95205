use udp_packet::{
    internet_checksum, ipv4_checksum, ipv4_data, ipv4_dscp_ecn, ipv4_dst_addr, ipv4_flag,
    ipv4_ident, ipv4_ihl, ipv4_length, ipv4_offset, ipv4_protocol, ipv4_src_addr, ipv4_ttl,
    ipv4_udp_build, ipv4_udp_segment, ipv4_version, udp_checksum, udp_data, udp_dst_port,
    udp_length, udp_src_port, datagram_len, echo_reply, CodecError,
};

fn known_header() -> Vec<u8> {
    vec![
        0x45, 0, 0, 28, 0, 0, 0, 0, 64, 17, 0, 0, 10, 0, 0, 1, 10, 0, 0, 2,
    ]
}

#[test]
fn known_vector_header_checksum() {
    let mut h = known_header();
    let c = internet_checksum(&h);
    assert_eq!(c, 0x66cf);
    h[10] = (c >> 8) as u8;
    h[11] = c as u8;
    assert_eq!(ipv4_version(&h), 4);
    assert_eq!(ipv4_ihl(&h), 5);
    assert_eq!(ipv4_dscp_ecn(&h), 0);
    assert_eq!(ipv4_length(&h), 28);
    assert_eq!(ipv4_ident(&h), 0);
    assert_eq!(ipv4_flag(&h), 0);
    assert_eq!(ipv4_offset(&h), 0);
    assert_eq!(ipv4_ttl(&h), 64);
    assert_eq!(ipv4_protocol(&h), 17);
    assert_eq!(ipv4_checksum(&h), 0x66cf);
    assert_eq!(ipv4_src_addr(&h), &[10, 0, 0, 1]);
    assert_eq!(ipv4_dst_addr(&h), &[10, 0, 0, 2]);
    assert!(ipv4_data(&h).is_empty());
}

#[test]
fn checksummed_header_validates() {
    let mut h = known_header();
    let c = internet_checksum(&h);
    h[10] = (c >> 8) as u8;
    h[11] = c as u8;
    assert_eq!(internet_checksum(&h), 0);
}

#[test]
fn checksum_folds_carries() {
    assert_eq!(internet_checksum(&[0xff, 0xff, 0x00, 0x01]), 0xfffe);
    assert_eq!(internet_checksum(&[]), 0xffff);
    assert_eq!(internet_checksum(&[0x12]), 0xedff);
    assert_eq!(internet_checksum(&[0x12, 0x00]), 0xedff);
}

#[test]
fn build_exact_bytes() {
    let data = b"Recv: hello";
    let mut buf = vec![0u8; 28 + data.len()];
    let r = ipv4_udp_build(&mut buf, &[10, 28, 13, 100], 53, &[10, 28, 13, 2], 40000, data);
    assert_eq!(r, Ok(()));
    let expected: Vec<u8> = vec![
        69, 0, 0, 39, 0, 0, 64, 0, 64, 17, 12, 41, 10, 28, 13, 100, 10, 28, 13, 2, 0, 53, 156,
        64, 0, 19, 0, 231, 82, 101, 99, 118, 58, 32, 104, 101, 108, 108, 111,
    ];
    assert_eq!(buf, expected);
}

#[test]
fn build_then_decode_round_trip() {
    let data = b"Recv: hello";
    let mut buf = vec![0u8; 28 + data.len()];
    ipv4_udp_build(&mut buf, &[10, 28, 13, 100], 53, &[10, 28, 13, 2], 40000, data).unwrap();
    assert_eq!(ipv4_version(&buf), 4);
    assert_eq!(ipv4_ihl(&buf), 5);
    assert_eq!(ipv4_protocol(&buf), 17);
    assert_eq!(ipv4_ttl(&buf), 64);
    assert_eq!(ipv4_flag(&buf), 0x40);
    assert_eq!(ipv4_offset(&buf), 0);
    assert_eq!(ipv4_length(&buf) as usize, buf.len());
    assert_eq!(ipv4_src_addr(&buf), &[10, 28, 13, 100]);
    assert_eq!(ipv4_dst_addr(&buf), &[10, 28, 13, 2]);
    let seg = ipv4_udp_segment(&buf).unwrap();
    assert_eq!(seg, ipv4_data(&buf));
    assert_eq!(udp_src_port(seg), 53);
    assert_eq!(udp_dst_port(seg), 40000);
    assert_eq!(udp_length(seg) as usize, 8 + data.len());
    assert_eq!(udp_data(seg), data);
    assert_eq!(internet_checksum(&buf[..20]), 0);
}

#[test]
fn round_trip_empty_and_largest_payload() {
    for len in [0usize, 1, 2, 65507] {
        let data: Vec<u8> = (0..len).map(|i| (i * 7 + 3) as u8).collect();
        let mut buf = vec![0u8; 28 + len];
        assert_eq!(ipv4_udp_build(&mut buf, &[1, 2, 3, 4], 65535, &[5, 6, 7, 8], 0, &data), Ok(()));
        let seg = ipv4_udp_segment(&buf).unwrap();
        assert_eq!(ipv4_length(&buf) as usize, 28 + len);
        assert_eq!(udp_src_port(seg), 65535);
        assert_eq!(udp_dst_port(seg), 0);
        assert_eq!(udp_data(seg), &data[..]);
    }
}

#[test]
fn odd_length_payload_is_padded() {
    let src = [10, 0, 0, 1];
    let dst = [10, 0, 0, 2];
    let mut buf = vec![0u8; 29];
    ipv4_udp_build(&mut buf, &src, 1234, &dst, 5678, b"A").unwrap();
    let seg = ipv4_udp_segment(&buf).unwrap();
    assert_eq!(udp_checksum(seg), 0x8fd9);
    // Pseudo-header, UDP header with its checksum zeroed, "A", one zero byte.
    let padded: Vec<u8> = vec![
        10, 0, 0, 1, 10, 0, 0, 2, 0, 17, 0, 9, 0x04, 0xd2, 0x16, 0x2e, 0, 9, 0, 0, 0x41, 0,
    ];
    assert_eq!(udp_checksum(seg), internet_checksum(&padded));
    let mut empty = vec![0u8; 28];
    ipv4_udp_build(&mut empty, &src, 1234, &dst, 5678, b"").unwrap();
    assert_ne!(udp_checksum(seg), udp_checksum(ipv4_udp_segment(&empty).unwrap()));
}

#[test]
fn overflow_writes_nothing() {
    let data = vec![0x55u8; 65508];
    let mut buf = vec![0xaau8; 65536];
    let r = ipv4_udp_build(&mut buf, &[10, 0, 0, 1], 1, &[10, 0, 0, 2], 2, &data);
    assert_eq!(r, Err(CodecError::OverflowError));
    assert!(buf.iter().all(|b| *b == 0xaa));
    let mut small = vec![0xaau8; 40];
    let r = ipv4_udp_build(&mut small, &[10, 0, 0, 1], 1, &[10, 0, 0, 2], 2, &data);
    assert_eq!(r, Err(CodecError::OverflowError));
    assert!(small.iter().all(|b| *b == 0xaa));
}

#[test]
fn size_mismatch_writes_nothing() {
    let mut buf = vec![0xaau8; 30];
    let r = ipv4_udp_build(&mut buf, &[10, 0, 0, 1], 1, &[10, 0, 0, 2], 2, b"abc");
    assert_eq!(r, Err(CodecError::SizeError));
    assert!(buf.iter().all(|b| *b == 0xaa));
}

#[test]
fn zero_checksum_sent_as_all_ones() {
    let mut buf = vec![0u8; 30];
    ipv4_udp_build(&mut buf, &[10, 0, 0, 1], 1234, &[10, 0, 0, 2], 5678, &[208, 215]).unwrap();
    let seg = ipv4_udp_segment(&buf).unwrap();
    assert_eq!(udp_checksum(seg), 0xffff);
    assert_eq!(&buf[26..28], &[0xff, 0xff]);
}

#[test]
fn flags_and_fragment_offset() {
    let mut h = known_header();
    h[6] = 0b1011_0101;
    h[7] = 0x0f;
    assert_eq!(ipv4_flag(&h), 0xa0);
    assert_eq!(ipv4_offset(&h), 0x150f);
}

#[test]
fn malformed_frames_are_rejected() {
    assert_eq!(ipv4_udp_segment(&[0x45; 19]), Err(CodecError::MalformedInput));
    let mut h = known_header();
    h.extend_from_slice(&[0u8; 7]);
    assert_eq!(ipv4_udp_segment(&h), Err(CodecError::MalformedInput));
    h.push(0);
    assert_eq!(ipv4_udp_segment(&h).map(|s| s.len()), Ok(8));
    let mut long = vec![0u8; 40];
    long[0] = 0x4f;
    assert_eq!(ipv4_udp_segment(&long), Err(CodecError::MalformedInput));
}

#[test]
fn echo_reply_swaps_endpoints() {
    let data = b"hello";
    let mut frame = vec![0u8; 28 + data.len()];
    ipv4_udp_build(&mut frame, &[10, 28, 13, 2], 40000, &[10, 28, 13, 100], 53, data).unwrap();
    let p = echo_reply(&frame, [10, 28, 13, 100]).unwrap();
    assert_eq!(p.src_ip, [10, 28, 13, 100]);
    assert_eq!(p.src_port, 53);
    assert_eq!(p.dst_ip, [10, 28, 13, 2]);
    assert_eq!(p.dst_port, 40000);
    assert_eq!(p.data, b"Recv: hello".to_vec());
    let len = datagram_len(p.data.len()).unwrap();
    assert_eq!(len, 39);
    let mut out = vec![0u8; len as usize];
    assert_eq!(p.build_into(&mut out), Ok(()));
    let mut direct = vec![0u8; len as usize];
    ipv4_udp_build(&mut direct, &[10, 28, 13, 100], 53, &[10, 28, 13, 2], 40000, b"Recv: hello")
        .unwrap();
    assert_eq!(out, direct);
}

#[test]
fn echo_reply_ignores_other_frames() {
    let mut frame = vec![0u8; 30];
    ipv4_udp_build(&mut frame, &[10, 28, 13, 2], 1, &[10, 28, 13, 100], 2, b"hi").unwrap();
    assert!(echo_reply(&frame, [10, 28, 13, 101]).is_none());
    let mut tcp = frame.clone();
    tcp[9] = 6;
    assert!(echo_reply(&tcp, [10, 28, 13, 100]).is_none());
    let mut v6 = frame.clone();
    v6[0] = 0x65;
    assert!(echo_reply(&v6, [10, 28, 13, 100]).is_none());
    assert!(echo_reply(&frame[..27], [10, 28, 13, 100]).is_none());
    assert!(echo_reply(&frame, [10, 28, 13, 100]).is_some());
}

#[test]
fn datagram_len_limits() {
    assert_eq!(datagram_len(0), Some(28));
    assert_eq!(datagram_len(65507), Some(65535));
    assert_eq!(datagram_len(65508), None);
}
