use packet_engine::banlist::Banlist;
use packet_engine::dispatcher::Dispatcher;
use packet_engine::icmp::IcmpHeader;
use packet_engine::ipv4::Ipv4Header;
use packet_engine::kv::UdpKvService;
use packet_engine::udp::UdpHeader;

/// Sums the 16-bit big-endian words (odd trailing byte padded high), then
/// folds the carries: a correctly checksummed message yields 0xFFFF.
fn fold_sum(bytes: &[u8], init: u32) -> u16 {
    let mut sum: u32 = init;
    let mut i = 0;
    while i < bytes.len() {
        let w = if i + 1 < bytes.len() {
            ((bytes[i] as u32) << 8) | (bytes[i + 1] as u32)
        } else {
            (bytes[i] as u32) << 8
        };
        sum += w;
        i += if i + 1 < bytes.len() { 2 } else { 1 };
    }
    while sum >> 16 != 0 {
        sum = (sum & 0xFFFF) + (sum >> 16);
    }
    sum as u16
}

fn udp_pseudo_init(src: [u8; 4], dst: [u8; 4], length: u16) -> u32 {
    let mut sum = 0u32;
    sum += ((src[0] as u32) << 8) + (src[1] as u32);
    sum += ((src[2] as u32) << 8) + (src[3] as u32);
    sum += ((dst[0] as u32) << 8) + (dst[1] as u32);
    sum += ((dst[2] as u32) << 8) + (dst[3] as u32);
    sum += 17;
    sum += length as u32;
    sum
}

fn sample_ip(protocol: u8, src: [u8; 4], dst: [u8; 4], total_length: u16) -> Ipv4Header {
    Ipv4Header {
        version: 4,
        ihl: 5,
        tos: 0,
        total_length,
        identification: 0x42,
        flags: 0,
        fragment_offset: 0,
        ttl: 64,
        protocol,
        checksum: 0,
        src,
        dst,
    }
}

fn frame(ip: &Ipv4Header, payload: &[u8]) -> Vec<u8> {
    let mut buf = vec![0u8, 0, 0, 2];
    buf.extend_from_slice(&ip.to_bytes());
    buf.extend_from_slice(payload);
    buf
}

fn echo_request(id: u16, seq: u16, payload: &[u8]) -> IcmpHeader {
    let mut icmp = IcmpHeader {
        icmp_type: 8,
        code: 0,
        checksum: 0,
        identifier: id,
        sequence: seq,
        payload: payload.to_vec(),
    };
    icmp.compute_checksum();
    icmp
}

fn udp_datagram(sport: u16, dport: u16, data: &[u8]) -> UdpHeader {
    let mut udp = UdpHeader {
        source_port: sport,
        destination_port: dport,
        length: 8 + data.len() as u16,
        checksum: 0,
        data: data.to_vec(),
    };
    udp.compute_checksum(&[10, 0, 0, 2], &[10, 0, 0, 1]);
    udp
}

#[test]
fn ipv4_parse_serialize_roundtrip() {
    let mut h = sample_ip(1, [10, 0, 0, 2], [10, 0, 0, 1], 31);
    h.flags = 2;
    h.fragment_offset = 0x1ABC;
    h.identification = 0xBEEF;
    h.compute_checksum();
    let bytes = h.to_bytes();
    assert_eq!(bytes.len(), 20);
    let p = Ipv4Header::from_bytes(&bytes).expect("20 bytes must parse");
    assert_eq!(p.version, h.version);
    assert_eq!(p.ihl, h.ihl);
    assert_eq!(p.tos, h.tos);
    assert_eq!(p.total_length, h.total_length);
    assert_eq!(p.identification, h.identification);
    assert_eq!(p.flags, h.flags);
    assert_eq!(p.fragment_offset, h.fragment_offset);
    assert_eq!(p.ttl, h.ttl);
    assert_eq!(p.protocol, h.protocol);
    assert_eq!(p.checksum, h.checksum);
    assert_eq!(p.src, h.src);
    assert_eq!(p.dst, h.dst);
}

#[test]
fn ipv4_short_buffer_rejected() {
    assert!(Ipv4Header::from_bytes(&[0u8; 19]).is_none());
    assert!(Ipv4Header::from_bytes(&[]).is_none());
}

#[test]
fn ipv4_checksum_verifies() {
    let mut h = sample_ip(1, [192, 168, 0, 1], [8, 8, 8, 8], 84);
    h.compute_checksum();
    assert_eq!(fold_sum(&h.to_bytes(), 0), 0xFFFF);
}

#[test]
fn icmp_checksum_verifies() {
    let icmp = echo_request(0x1234, 7, b"ping payload");
    assert_eq!(fold_sum(&icmp.to_bytes(), 0), 0xFFFF);
}

#[test]
fn icmp_short_buffer_rejected() {
    assert!(IcmpHeader::from_bytes(&[8u8, 0, 0, 0, 0, 0, 0]).is_none());
}

#[test]
fn udp_checksum_verifies_with_pseudo_header() {
    let src = [10, 0, 0, 2];
    let dst = [10, 0, 0, 1];
    let mut udp = UdpHeader {
        source_port: 5353,
        destination_port: 9000,
        length: 8 + 5,
        checksum: 0,
        data: b"hello".to_vec(),
    };
    udp.compute_checksum(&src, &dst);
    assert_ne!(udp.checksum, 0, "zero is reserved for no-checksum");
    let init = udp_pseudo_init(src, dst, udp.length);
    assert_eq!(fold_sum(&udp.to_bytes(), init), 0xFFFF);
}

#[test]
fn udp_checksum_zero_becomes_all_ones() {
    // Chosen so the folded sum is exactly 0xFFFF and the complement is 0:
    // pseudo (17 + 10) + length word (10) + data word 0xFFDA == 0xFFFF.
    let mut udp = UdpHeader {
        source_port: 0,
        destination_port: 0,
        length: 10,
        checksum: 0,
        data: vec![0xFF, 0xDA],
    };
    udp.compute_checksum(&[0, 0, 0, 0], &[0, 0, 0, 0]);
    assert_eq!(udp.checksum, 0xFFFF);
    let init = udp_pseudo_init([0, 0, 0, 0], [0, 0, 0, 0], udp.length);
    assert_eq!(fold_sum(&udp.to_bytes(), init), 0xFFFF);
}

#[test]
fn udp_parse_keeps_declared_length_field() {
    // The declared length is recorded but never used to bound the data.
    let bytes = [0u8, 53, 0x23, 0x28, 0, 3, 0, 0, 1, 2, 3, 4];
    let udp = UdpHeader::from_bytes(&bytes).expect("8 bytes must parse");
    assert_eq!(udp.length, 3);
    assert_eq!(udp.data, vec![1, 2, 3, 4]);
}

#[test]
fn udp_short_buffer_rejected() {
    assert!(UdpHeader::from_bytes(&[0u8; 7]).is_none());
}

#[test]
fn banlist_idempotent_ban_and_absent_unban() {
    let mut b = Banlist::default();
    let a = [1, 2, 3, 4];
    assert!(!b.is_banned(&a));
    b.unban(&a); // never banned: no effect
    assert!(!b.is_banned(&a));
    b.ban(a);
    b.ban(a); // banning twice leaves the set equal to {a}
    assert!(b.is_banned(&a));
    b.unban(&a);
    assert!(!b.is_banned(&a));
}

#[test]
fn echo_request_yields_echo_reply() {
    let mut d: Dispatcher<UdpKvService> = Dispatcher::default();
    let icmp = echo_request(0x1234, 1, b"abc");
    let icmp_bytes = icmp.to_bytes();
    let mut ip = sample_ip(1, [10, 0, 0, 2], [10, 0, 0, 1], (20 + icmp_bytes.len()) as u16);
    ip.compute_checksum();
    let packet = frame(&ip, &icmp_bytes);
    let reply = d.handle_packet(&packet).expect("echo request must be answered");
    assert_eq!(&reply[0..4], &[0, 0, 0, 2]);
    let rip = Ipv4Header::from_bytes(&reply[4..]).expect("reply carries an IPv4 header");
    assert_eq!(rip.src, [10, 0, 0, 1]);
    assert_eq!(rip.dst, [10, 0, 0, 2]);
    assert_eq!(rip.protocol, 1);
    assert_eq!(fold_sum(&reply[4..24], 0), 0xFFFF, "IPv4 checksum verifies");
    let ricmp = IcmpHeader::from_bytes(&reply[24..]).expect("reply carries an ICMP message");
    assert_eq!(ricmp.icmp_type, 0);
    assert_eq!(ricmp.code, 0);
    assert_eq!(ricmp.identifier, 0x1234);
    assert_eq!(ricmp.sequence, 1);
    assert_eq!(ricmp.payload, b"abc".to_vec());
    assert_eq!(fold_sum(&reply[24..], 0), 0xFFFF, "ICMP checksum verifies");
}

#[test]
fn non_echo_icmp_is_dropped() {
    let mut d: Dispatcher<UdpKvService> = Dispatcher::default();
    let mut icmp = echo_request(1, 1, b"");
    icmp.icmp_type = 13;
    icmp.compute_checksum();
    let icmp_bytes = icmp.to_bytes();
    let mut ip = sample_ip(1, [10, 0, 0, 2], [10, 0, 0, 1], (20 + icmp_bytes.len()) as u16);
    ip.compute_checksum();
    assert!(d.handle_packet(&frame(&ip, &icmp_bytes)).is_none());
}

#[test]
fn banned_destination_drops_every_protocol() {
    let mut d: Dispatcher<UdpKvService> = Dispatcher::default();
    d.udp_bind(9000, UdpKvService::default());
    d.banlist.ban([10, 0, 0, 1]);

    let icmp_bytes = echo_request(7, 7, b"x").to_bytes();
    let mut ip = sample_ip(1, [10, 0, 0, 2], [10, 0, 0, 1], (20 + icmp_bytes.len()) as u16);
    ip.compute_checksum();
    assert!(d.handle_packet(&frame(&ip, &icmp_bytes)).is_none());

    let udp_bytes = udp_datagram(5353, 9000, b"GET k").to_bytes();
    let mut ip = sample_ip(17, [10, 0, 0, 2], [10, 0, 0, 1], (20 + udp_bytes.len()) as u16);
    ip.compute_checksum();
    assert!(d.handle_packet(&frame(&ip, &udp_bytes)).is_none());

    d.banlist.unban(&[10, 0, 0, 1]);
    let icmp_bytes = echo_request(7, 7, b"x").to_bytes();
    let mut ip = sample_ip(1, [10, 0, 0, 2], [10, 0, 0, 1], (20 + icmp_bytes.len()) as u16);
    ip.compute_checksum();
    assert!(d.handle_packet(&frame(&ip, &icmp_bytes)).is_some());
}

#[test]
fn unsupported_protocol_is_dropped() {
    let mut d: Dispatcher<UdpKvService> = Dispatcher::default();
    let mut ip = sample_ip(6, [10, 0, 0, 2], [10, 0, 0, 1], 40);
    ip.compute_checksum();
    assert!(d.handle_packet(&frame(&ip, &[0u8; 20])).is_none());
}

#[test]
fn unbound_port_is_dropped() {
    let mut d: Dispatcher<UdpKvService> = Dispatcher::default();
    d.udp_bind(9000, UdpKvService::default());
    let udp_bytes = udp_datagram(5353, 9001, b"GET k").to_bytes();
    let mut ip = sample_ip(17, [10, 0, 0, 2], [10, 0, 0, 1], (20 + udp_bytes.len()) as u16);
    ip.compute_checksum();
    assert!(d.handle_packet(&frame(&ip, &udp_bytes)).is_none());
}

#[test]
fn bad_frame_and_short_buffers_are_dropped() {
    let mut d: Dispatcher<UdpKvService> = Dispatcher::default();
    assert!(d.handle_packet(&[]).is_none());
    assert!(d.handle_packet(&[0, 0, 0]).is_none());
    // Wrong address-family tag.
    let ip = sample_ip(1, [10, 0, 0, 2], [10, 0, 0, 1], 28);
    let mut pkt = vec![0u8, 0, 0, 30];
    pkt.extend_from_slice(&ip.to_bytes());
    assert!(d.handle_packet(&pkt).is_none());
    // Right tag, truncated header.
    assert!(d.handle_packet(&[0, 0, 0, 2, 4, 5]).is_none());
}

#[test]
fn header_length_beyond_buffer_is_dropped() {
    let mut d: Dispatcher<UdpKvService> = Dispatcher::default();
    // ihl claims 15 words (60 bytes) but only 20 bytes follow the tag.
    let mut ip = sample_ip(1, [10, 0, 0, 2], [10, 0, 0, 1], 28);
    ip.ihl = 15;
    let mut pkt = vec![0u8, 0, 0, 2];
    pkt.extend_from_slice(&ip.to_bytes());
    assert!(d.handle_packet(&pkt).is_none());
}

fn kv_exchange(d: &mut Dispatcher<UdpKvService>, text: &[u8]) -> Option<Vec<u8>> {
    let udp_bytes = udp_datagram(5353, 9000, text).to_bytes();
    let mut ip = sample_ip(17, [10, 0, 0, 2], [10, 0, 0, 1], (20 + udp_bytes.len()) as u16);
    ip.compute_checksum();
    d.handle_packet(&frame(&ip, &udp_bytes))
}

fn reply_payload(reply: &[u8]) -> Vec<u8> {
    assert_eq!(&reply[0..4], &[0, 0, 0, 2]);
    let rip = Ipv4Header::from_bytes(&reply[4..]).expect("reply IPv4 header");
    assert_eq!(rip.protocol, 17);
    assert_eq!(rip.ttl, 64);
    assert_eq!(rip.src, [10, 0, 0, 1]);
    assert_eq!(rip.dst, [10, 0, 0, 2]);
    assert_eq!(fold_sum(&reply[4..24], 0), 0xFFFF, "reply IPv4 checksum verifies");
    let rudp = UdpHeader::from_bytes(&reply[24..]).expect("reply UDP header");
    assert_eq!(rudp.source_port, 9000);
    assert_eq!(rudp.destination_port, 5353);
    let init = udp_pseudo_init(rip.src, rip.dst, rudp.length);
    assert_eq!(fold_sum(&reply[24..], init), 0xFFFF, "reply UDP checksum verifies");
    rudp.data
}

#[test]
fn kv_service_set_get_del() {
    let mut d: Dispatcher<UdpKvService> = Dispatcher::default();
    d.udp_bind(9000, UdpKvService::default());

    let r = kv_exchange(&mut d, b"SET k v").expect("SET is answered");
    assert_eq!(reply_payload(&r), b"OK".to_vec());

    let r = kv_exchange(&mut d, b"GET k").expect("GET is answered");
    assert_eq!(reply_payload(&r), b"VALUE v".to_vec());

    let r = kv_exchange(&mut d, b"GET missing").expect("GET of an absent key is answered");
    assert_eq!(reply_payload(&r), b"NOTFOUND".to_vec());

    let r = kv_exchange(&mut d, b"DEL k").expect("DEL is answered");
    assert_eq!(reply_payload(&r), b"OK".to_vec());

    let r = kv_exchange(&mut d, b"GET k").expect("GET after DEL is answered");
    assert_eq!(reply_payload(&r), b"NOTFOUND".to_vec());

    assert!(kv_exchange(&mut d, b"PING").is_none(), "unknown commands are dropped");
    assert!(kv_exchange(&mut d, b"SET toofew").is_none());
}

#[test]
fn kv_commands_tolerate_extra_whitespace() {
    let mut d: Dispatcher<UdpKvService> = Dispatcher::default();
    d.udp_bind(9000, UdpKvService::default());
    let r = kv_exchange(&mut d, b"  SET \t k \n v ").expect("padded SET is answered");
    assert_eq!(reply_payload(&r), b"OK".to_vec());
    let r = kv_exchange(&mut d, b"\tGET  k").expect("padded GET is answered");
    assert_eq!(reply_payload(&r), b"VALUE v".to_vec());
    assert!(kv_exchange(&mut d, b"GET k extra").is_none(), "three-token GET is dropped");
    assert!(kv_exchange(&mut d, b"").is_none(), "empty datagrams are dropped");
    assert!(kv_exchange(&mut d, b"   ").is_none(), "all-whitespace datagrams are dropped");
}

#[test]
fn rebinding_a_port_replaces_the_handler() {
    let mut d: Dispatcher<UdpKvService> = Dispatcher::default();
    d.udp_bind(9000, UdpKvService::default());
    let r = kv_exchange(&mut d, b"SET k v").expect("SET is answered");
    assert_eq!(reply_payload(&r), b"OK".to_vec());
    // A fresh handler on the same port: the old store is gone.
    d.udp_bind(9000, UdpKvService::default());
    let r = kv_exchange(&mut d, b"GET k").expect("GET is answered");
    assert_eq!(reply_payload(&r), b"NOTFOUND".to_vec());
}

#[test]
fn udp_echo_builder_swaps_and_checksums() {
    let udp = udp_datagram(5353, 9000, b"payload");
    let mut ip = sample_ip(17, [10, 0, 0, 2], [10, 0, 0, 1], 20 + 8 + 7);
    ip.compute_checksum();
    let pkt = udp.build_udp_echo(&ip);
    assert_eq!(&pkt[0..4], &[0, 0, 0, 2]);
    let rip = Ipv4Header::from_bytes(&pkt[4..]).unwrap();
    assert_eq!(rip.src, [10, 0, 0, 1]);
    assert_eq!(rip.dst, [10, 0, 0, 2]);
    assert_eq!(rip.ttl, 64);
    assert_eq!(rip.protocol, 17);
    assert_eq!(rip.total_length, 20 + 8 + 7);
    assert_eq!(fold_sum(&pkt[4..24], 0), 0xFFFF);
    let rudp = UdpHeader::from_bytes(&pkt[24..]).unwrap();
    assert_eq!(rudp.source_port, 9000);
    assert_eq!(rudp.destination_port, 5353);
    assert_eq!(rudp.data, b"payload".to_vec());
    let init = udp_pseudo_init(rip.src, rip.dst, rudp.length);
    assert_eq!(fold_sum(&pkt[24..], init), 0xFFFF);
}
