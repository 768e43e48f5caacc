//! The UDP header: fixed 8-byte layout plus data, the RFC 768 checksum with
//! its pseudo-header, the echo-reply builder, and the application-handler
//! capability that the port registry stores.

use vstd::prelude::*;
use vstd::slice::{slice_to_vec, slice_subrange};
use crate::checksum::{
    sum_words, fold_carries, checksum_of, be16_bytes, push_be16, read_be16, checksum_words,
    fold_u32, lemma_sum_words_concat, lemma_sum_words_be16, lemma_fold_carries_bound,
    lemma_fold_carries_add, lemma_checksum_verifies, lemma_checksum_all_ones_verifies,
};
use crate::ipv4::{Ipv4Header, Ipv4Model, ip_bytes, ip_checksum, word16};
use crate::frame::{frame_tag_bytes, push_frame_tag};

verus! {

/// A parsed UDP datagram; a transient per-packet value.
#[derive(Debug, Clone)]
pub struct UdpHeader {
    pub source_port: u16,
    pub destination_port: u16,
    pub length: u16,
    pub checksum: u16,
    pub data: Vec<u8>,
}

/// The mathematical value of a UDP datagram.
#[verifier::ext_equal]
pub struct UdpModel {
    pub source_port: u16,
    pub destination_port: u16,
    pub length: u16,
    pub checksum: u16,
    pub data: Seq<u8>,
}

impl View for UdpHeader {
    type V = UdpModel;

    open spec fn view(&self) -> UdpModel {
        UdpModel {
            source_port: self.source_port,
            destination_port: self.destination_port,
            length: self.length,
            checksum: self.checksum,
            data: self.data@,
        }
    }
}

/// An application handler bound to a UDP port: a stateful capability that is
/// handed the parsed headers of a matching datagram and answers with an
/// optional fully framed reply buffer.
pub trait UdpHandler: Sized {
    /// The reply (or silence) the handler gives from its current state.
    spec fn response(pre: Self, ip: Ipv4Model, udp: UdpModel) -> Option<Seq<u8>>;

    fn handle(&mut self, ip: &Ipv4Header, udp: &UdpHeader) -> (r: Option<Vec<u8>>)
        requires
            ip@.wf(),
        ensures
            match r {
                Some(v) => Self::response(*old(self), ip@, udp@) == Some(v@),
                None => Self::response(*old(self), ip@, udp@) is None,
            },
    ;
}

/// One bound port of the registry: the port number and its single handler.
pub struct UdpSocket<H> {
    pub port: u16,
    pub handler: H,
}

/// The length field a serialization carries: 8 header bytes plus the data.
pub open spec fn udp_wire_len(m: UdpModel) -> u16
    recommends
        8 + m.data.len() <= 0xFFFF,
{
    (8 + m.data.len()) as u16
}

/// The serialized bytes before the checksum field: ports and length.
pub open spec fn udp_pre_bytes(m: UdpModel) -> Seq<u8> {
    be16_bytes(m.source_port) + be16_bytes(m.destination_port) + be16_bytes(udp_wire_len(m))
}

/// The full serialization: 8-byte header (length recomputed from the data,
/// the stored field is not trusted) followed by the data verbatim.
pub open spec fn udp_bytes(m: UdpModel) -> Seq<u8> {
    udp_pre_bytes(m) + be16_bytes(m.checksum) + m.data
}

/// The datagram read from the fixed offsets of the first 8 bytes; everything
/// after them is the data. The declared length field is recorded, not used
/// to bound the data.
pub open spec fn parse_udp(b: Seq<u8>) -> Option<UdpModel> {
    if b.len() < 8 {
        None
    } else {
        Some(
            UdpModel {
                source_port: word16(b[0], b[1]),
                destination_port: word16(b[2], b[3]),
                length: word16(b[4], b[5]),
                checksum: word16(b[6], b[7]),
                data: b.skip(8),
            },
        )
    }
}

/// The RFC 768 pseudo-header sum: source and destination address words, the
/// UDP protocol number 17, and the length field.
pub open spec fn pseudo_sum(src: Seq<u8>, dst: Seq<u8>, length: u16) -> nat
    recommends
        src.len() == 4,
        dst.len() == 4,
{
    (word16(src[0], src[1]) + word16(src[2], src[3]) + word16(dst[0], dst[1]) + word16(
        dst[2],
        dst[3],
    ) + 17 + length) as nat
}

/// The checksum stored in a datagram sent from `src` to `dst`: the
/// complement of the folded sum over pseudo-header and serialization with
/// the checksum field zeroed; a result of zero is replaced by `0xFFFF`,
/// since zero is reserved to mean "no checksum".
pub open spec fn udp_checksum(m: UdpModel, src: Seq<u8>, dst: Seq<u8>) -> u16 {
    let z = UdpModel { checksum: 0, ..m };
    let c = checksum_of(pseudo_sum(src, dst, m.length) + sum_words(udp_bytes(z), 0));
    if c == 0 {
        0xFFFF
    } else {
        c
    }
}

/// The reply datagram `build_udp_echo` makes: ports swapped, length
/// recomputed, checksum computed for the reply direction.
pub open spec fn udp_reply_model(u: UdpModel, ip: Ipv4Model) -> UdpModel {
    let z = UdpModel {
        source_port: u.destination_port,
        destination_port: u.source_port,
        length: (8 + u.data.len()) as u16,
        checksum: 0,
        data: u.data,
    };
    UdpModel { checksum: udp_checksum(z, ip.dst, ip.src), ..z }
}

/// The IPv4 header of a UDP reply: source and destination swapped, ttl
/// forced to 64, protocol forced to 17, total length recomputed, checksum
/// recomputed.
pub open spec fn ip_udp_reply_model(ip: Ipv4Model, body_len: int) -> Ipv4Model {
    let z = Ipv4Model {
        src: ip.dst,
        dst: ip.src,
        ttl: 64,
        protocol: 17,
        total_length: (4 * (ip.ihl as int) + body_len) as u16,
        checksum: 0,
        ..ip
    };
    Ipv4Model { checksum: ip_checksum(z), ..z }
}

/// The framed reply packet `build_udp_echo` returns for a datagram `u` that
/// arrived under the IPv4 header `ip`.
pub open spec fn udp_echo_bytes(u: UdpModel, ip: Ipv4Model) -> Seq<u8> {
    frame_tag_bytes() + ip_bytes(ip_udp_reply_model(ip, 8 + u.data.len() as int)) + udp_bytes(
        udp_reply_model(u, ip),
    )
}

impl UdpHeader {
    /// Parses a datagram from the buffer; fewer than 8 bytes yields nothing.
    pub fn from_bytes(buf: &[u8]) -> (r: Option<UdpHeader>)
        ensures
            match r {
                Some(h) => parse_udp(buf@) == Some(h@),
                None => parse_udp(buf@) is None,
            },
    {
        if buf.len() < 8 {
            return None;
        }
        let h = UdpHeader {
            source_port: read_be16(buf, 0),
            destination_port: read_be16(buf, 2),
            length: read_be16(buf, 4),
            checksum: read_be16(buf, 6),
            data: slice_to_vec(slice_subrange(buf, 8, buf.len())),
        };
        proof {
            assert(h@.data =~= buf@.skip(8));
            assert(h@ =~= parse_udp(buf@).unwrap());
        }
        Some(h)
    }

    /// Serializes the header (length recomputed as 8 plus the data byte
    /// count) followed by the data verbatim.
    pub fn to_bytes(&self) -> (r: Vec<u8>)
        requires
            8 + self@.data.len() <= 0xFFFF,
        ensures
            r@ == udp_bytes(self@),
            r@.len() == 8 + self@.data.len(),
    {
        let mut buf: Vec<u8> = Vec::new();
        push_be16(&mut buf, self.source_port);
        push_be16(&mut buf, self.destination_port);
        push_be16(&mut buf, 8 + (self.data.len() as u16));
        push_be16(&mut buf, self.checksum);
        buf.extend_from_slice(self.data.as_slice());
        proof {
            assert(buf@ =~= udp_bytes(self@));
        }
        buf
    }

    /// Zeroes the checksum field, sums the pseudo-header (source address,
    /// destination address, protocol 17, the stored length field) and the
    /// serialized datagram, folds, complements, and forces a zero result to
    /// `0xFFFF`.
    pub fn compute_checksum(&mut self, src: &[u8; 4], dst: &[u8; 4])
        requires
            8 + old(self)@.data.len() <= 0xFFFF,
        ensures
            final(self)@ == (UdpModel {
                checksum: udp_checksum(old(self)@, src@, dst@),
                ..old(self)@
            }),
    {
        self.checksum = 0;
        proof {
            assert(self@ =~= (UdpModel { checksum: 0, ..old(self)@ }));
        }
        let pseudo: u32 = (src[0] as u32) * 256 + (src[1] as u32) + (src[2] as u32) * 256 + (
        src[3] as u32) + (dst[0] as u32) * 256 + (dst[1] as u32) + (dst[2] as u32) * 256 + (
        dst[3] as u32) + 17 + (self.length as u32);
        assert(pseudo == pseudo_sum(src@, dst@, self@.length));
        let init = fold_u32(pseudo);
        let bytes = self.to_bytes();
        proof {
            lemma_fold_carries_bound(pseudo as nat);
            lemma_fold_carries_add(pseudo as nat, sum_words(bytes@, 0));
        }
        let folded = checksum_words(bytes.as_slice(), init as u32);
        proof {
            lemma_fold_carries_bound(pseudo as nat + sum_words(bytes@, 0));
        }
        let c: u16 = 0xFFFF - folded;
        self.checksum = if c == 0 {
            0xFFFF
        } else {
            c
        };
        proof {
            assert(self@ =~= (UdpModel {
                checksum: udp_checksum(old(self)@, src@, dst@),
                ..old(self)@
            }));
        }
    }

    /// Builds the framed reply to this datagram: ports swapped, checksum
    /// computed in the reply direction, under an IPv4 header with the
    /// addresses swapped, ttl 64 and protocol 17.
    pub fn build_udp_echo(&self, ipv4: &Ipv4Header) -> (r: Vec<u8>)
        requires
            ipv4@.wf(),
            4 * (ipv4@.ihl as int) + 8 + self@.data.len() <= 0xFFFF,
        ensures
            r@ == udp_echo_bytes(self@, ipv4@),
    {
        let mut reply_udp = UdpHeader {
            source_port: self.destination_port,
            destination_port: self.source_port,
            length: 8 + (self.data.len() as u16),
            checksum: 0,
            data: slice_to_vec(self.data.as_slice()),
        };
        reply_udp.compute_checksum(&ipv4.dst, &ipv4.src);
        proof {
            assert(reply_udp@ =~= udp_reply_model(self@, ipv4@));
        }
        let body_len: u16 = 8 + (self.data.len() as u16);
        let mut reply_ip = Ipv4Header {
            version: ipv4.version,
            ihl: ipv4.ihl,
            tos: ipv4.tos,
            total_length: (ipv4.ihl as u16) * 4 + body_len,
            identification: ipv4.identification,
            flags: ipv4.flags,
            fragment_offset: ipv4.fragment_offset,
            ttl: 64,
            protocol: 17,
            checksum: 0,
            src: ipv4.dst,
            dst: ipv4.src,
        };
        reply_ip.compute_checksum();
        proof {
            assert(reply_ip@ =~= ip_udp_reply_model(ipv4@, 8 + self@.data.len() as int));
        }
        let mut pkt: Vec<u8> = Vec::new();
        push_frame_tag(&mut pkt);
        let ip_out = reply_ip.to_bytes();
        pkt.extend_from_slice(ip_out.as_slice());
        let udp_out = reply_udp.to_bytes();
        pkt.extend_from_slice(udp_out.as_slice());
        proof {
            assert(pkt@ =~= udp_echo_bytes(self@, ipv4@));
        }
        pkt
    }
}

/// The word sum of a serialized datagram splits into the checksum word and
/// the checksum-independent remainder.
proof fn lemma_udp_sum_split(m: UdpModel)
    ensures
        sum_words(udp_bytes(m), 0) == sum_words(udp_pre_bytes(m), 0) + m.checksum + sum_words(
            m.data,
            0,
        ),
{
    let pre = udp_pre_bytes(m);
    let ck = be16_bytes(m.checksum);
    assert(pre.len() == 6);
    lemma_sum_words_concat(pre + ck, m.data);
    lemma_sum_words_concat(pre, ck);
    lemma_sum_words_be16(m.checksum);
}

/// A datagram whose stored length field is consistent with its data and that
/// carries its own computed checksum verifies: the folded sum over
/// pseudo-header and full serialization is exactly `0xFFFF` — also when the
/// computed checksum was zero and `0xFFFF` was stored in its place.
pub proof fn lemma_udp_checksum_verifies(m: UdpModel, src: Seq<u8>, dst: Seq<u8>)
    requires
        src.len() == 4,
        dst.len() == 4,
        8 + m.data.len() <= 0xFFFF,
        m.length == 8 + m.data.len(),
    ensures
        fold_carries(
            pseudo_sum(src, dst, m.length) + sum_words(
                udp_bytes(UdpModel { checksum: udp_checksum(m, src, dst), ..m }),
                0,
            ),
        ) == 0xFFFF,
{
    let m0 = UdpModel { checksum: 0, ..m };
    let stored = udp_checksum(m, src, dst);
    let m1 = UdpModel { checksum: stored, ..m };
    let p = pseudo_sum(src, dst, m.length);
    let s0 = p + sum_words(udp_bytes(m0), 0);
    lemma_udp_sum_split(m0);
    lemma_udp_sum_split(m1);
    assert(udp_pre_bytes(m0) == udp_pre_bytes(m1));
    assert(p + sum_words(udp_bytes(m1), 0) == s0 + stored);
    let c = checksum_of(s0);
    if c == 0 {
        assert(stored == 0xFFFF);
        lemma_checksum_all_ones_verifies(s0);
    } else {
        assert(stored == c);
        lemma_checksum_verifies(s0);
    }
}

} // verus!
