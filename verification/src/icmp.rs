//! The ICMP message: fixed 8-byte header plus opaque payload, internet
//! checksum over the whole message, and the echo-request decision logic.

use vstd::prelude::*;
use vstd::slice::{slice_to_vec, slice_subrange};
use crate::checksum::{
    sum_words, fold_carries, checksum_of, be16_bytes, push_be16, read_be16, checksum_words,
    lemma_sum_words_concat, lemma_sum_words_be16, lemma_fold_carries_bound,
    lemma_checksum_verifies,
};
use crate::ipv4::{Ipv4Header, Ipv4Model, ip_bytes, ip_checksum};
use crate::frame::{frame_tag_bytes, push_frame_tag};
use crate::dispatcher::Desicion;

verus! {

/// A parsed ICMP message; a transient per-packet value.
#[derive(Debug, Clone)]
pub struct IcmpHeader {
    pub icmp_type: u8,
    pub code: u8,
    pub checksum: u16,
    pub identifier: u16,
    pub sequence: u16,
    pub payload: Vec<u8>,
}

/// The mathematical value of an ICMP message.
#[verifier::ext_equal]
pub struct IcmpModel {
    pub icmp_type: u8,
    pub code: u8,
    pub checksum: u16,
    pub identifier: u16,
    pub sequence: u16,
    pub payload: Seq<u8>,
}

impl View for IcmpHeader {
    type V = IcmpModel;

    open spec fn view(&self) -> IcmpModel {
        IcmpModel {
            icmp_type: self.icmp_type,
            code: self.code,
            checksum: self.checksum,
            identifier: self.identifier,
            sequence: self.sequence,
            payload: self.payload@,
        }
    }
}

/// The serialized bytes after the checksum field: identifier, sequence, and
/// the payload verbatim.
pub open spec fn icmp_post_bytes(m: IcmpModel) -> Seq<u8> {
    be16_bytes(m.identifier) + be16_bytes(m.sequence) + m.payload
}

/// The full serialization: 8-byte header followed by the payload.
pub open spec fn icmp_bytes(m: IcmpModel) -> Seq<u8> {
    seq![m.icmp_type, m.code] + be16_bytes(m.checksum) + icmp_post_bytes(m)
}

/// The message read from the fixed offsets of the first 8 bytes; everything
/// after them is the payload.
pub open spec fn parse_icmp(b: Seq<u8>) -> Option<IcmpModel> {
    if b.len() < 8 {
        None
    } else {
        Some(
            IcmpModel {
                icmp_type: b[0],
                code: b[1],
                checksum: crate::ipv4::word16(b[2], b[3]),
                identifier: crate::ipv4::word16(b[4], b[5]),
                sequence: crate::ipv4::word16(b[6], b[7]),
                payload: b.skip(8),
            },
        )
    }
}

/// The checksum of a message: complement of the folded word sum of the
/// serialization with the checksum field zeroed.
pub open spec fn icmp_checksum(m: IcmpModel) -> u16 {
    checksum_of(sum_words(icmp_bytes(IcmpModel { checksum: 0, ..m }), 0))
}

/// The echo reply to a message: type 0, everything else kept, checksum
/// recomputed.
pub open spec fn icmp_reply_model(m: IcmpModel) -> IcmpModel {
    let z = IcmpModel { icmp_type: 0, checksum: 0, ..m };
    IcmpModel { checksum: icmp_checksum(z), ..z }
}

/// The IPv4 header of a reply: source and destination swapped, total length
/// recomputed for a payload of `body_len` bytes, checksum recomputed.
pub open spec fn ip_reply_model(ip: Ipv4Model, body_len: int) -> Ipv4Model {
    let z = Ipv4Model {
        src: ip.dst,
        dst: ip.src,
        total_length: (4 * (ip.ihl as int) + body_len) as u16,
        checksum: 0,
        ..ip
    };
    Ipv4Model { checksum: ip_checksum(z), ..z }
}

/// The framed echo-reply packet for an echo request `ic` that arrived under
/// the IPv4 header `ip`.
pub open spec fn echo_reply_bytes(ip: Ipv4Model, ic: IcmpModel) -> Seq<u8> {
    frame_tag_bytes() + ip_bytes(ip_reply_model(ip, 8 + ic.payload.len() as int)) + icmp_bytes(
        icmp_reply_model(ic),
    )
}

impl IcmpHeader {
    /// Parses a message from the buffer; fewer than 8 bytes yields nothing.
    pub fn from_bytes(buf: &[u8]) -> (r: Option<IcmpHeader>)
        ensures
            match r {
                Some(h) => parse_icmp(buf@) == Some(h@),
                None => parse_icmp(buf@) is None,
            },
    {
        if buf.len() < 8 {
            return None;
        }
        let h = IcmpHeader {
            icmp_type: buf[0],
            code: buf[1],
            checksum: read_be16(buf, 2),
            identifier: read_be16(buf, 4),
            sequence: read_be16(buf, 6),
            payload: slice_to_vec(slice_subrange(buf, 8, buf.len())),
        };
        proof {
            assert(h@.payload =~= buf@.skip(8));
            assert(h@ =~= parse_icmp(buf@).unwrap());
        }
        Some(h)
    }

    /// Serializes the header fields followed by the payload verbatim.
    pub fn to_bytes(&self) -> (r: Vec<u8>)
        ensures
            r@ == icmp_bytes(self@),
            r@.len() == 8 + self@.payload.len(),
    {
        let mut buf: Vec<u8> = Vec::new();
        buf.push(self.icmp_type);
        buf.push(self.code);
        push_be16(&mut buf, self.checksum);
        push_be16(&mut buf, self.identifier);
        push_be16(&mut buf, self.sequence);
        buf.extend_from_slice(self.payload.as_slice());
        proof {
            assert(buf@ =~= icmp_bytes(self@));
        }
        buf
    }

    /// Zeroes the checksum field, checksums the full serialized message, and
    /// stores the complement.
    pub fn compute_checksum(&mut self)
        ensures
            final(self)@ == (IcmpModel { checksum: icmp_checksum(old(self)@), ..old(self)@ }),
    {
        self.checksum = 0;
        proof {
            assert(self@ =~= (IcmpModel { checksum: 0, ..old(self)@ }));
        }
        let bytes = self.to_bytes();
        let folded = checksum_words(bytes.as_slice(), 0);
        proof {
            lemma_fold_carries_bound(sum_words(bytes@, 0));
        }
        self.checksum = 0xFFFF - folded;
        proof {
            assert(self@ =~= (IcmpModel { checksum: icmp_checksum(old(self)@), ..old(self)@ }));
        }
    }

    /// Decides a reply for a message that arrived under `ipv4`: an echo
    /// request (type 8, code 0) is answered with a framed echo reply; every
    /// other message is dropped.
    pub fn handle_request(&self, ipv4: &Ipv4Header) -> (r: Desicion)
        requires
            ipv4@.wf(),
            self@.icmp_type == 8 && self@.code == 0 ==> 4 * (ipv4@.ihl as int) + 8
                + self@.payload.len() <= 0xFFFF,
        ensures
            if self@.icmp_type == 8 && self@.code == 0 {
                r matches Desicion::Reply(pkt) && pkt@ == echo_reply_bytes(ipv4@, self@)
            } else {
                r matches Desicion::Drop
            },
    {
        if !(self.icmp_type == 8 && self.code == 0) {
            return Desicion::Drop;
        }
        let mut reply_icmp = IcmpHeader {
            icmp_type: 0,
            code: self.code,
            checksum: 0,
            identifier: self.identifier,
            sequence: self.sequence,
            payload: slice_to_vec(self.payload.as_slice()),
        };
        proof {
            assert(reply_icmp@ =~= (IcmpModel { icmp_type: 0, checksum: 0, ..self@ }));
        }
        reply_icmp.compute_checksum();
        proof {
            assert(reply_icmp@ =~= icmp_reply_model(self@));
        }
        let body_len: u16 = 8 + (self.payload.len() as u16);
        let mut reply_ip = Ipv4Header {
            version: ipv4.version,
            ihl: ipv4.ihl,
            tos: ipv4.tos,
            total_length: (ipv4.ihl as u16) * 4 + body_len,
            identification: ipv4.identification,
            flags: ipv4.flags,
            fragment_offset: ipv4.fragment_offset,
            ttl: ipv4.ttl,
            protocol: ipv4.protocol,
            checksum: 0,
            src: ipv4.dst,
            dst: ipv4.src,
        };
        reply_ip.compute_checksum();
        proof {
            assert(reply_ip@ =~= ip_reply_model(ipv4@, 8 + self@.payload.len() as int));
        }
        let mut pkt: Vec<u8> = Vec::new();
        push_frame_tag(&mut pkt);
        let ip_out = reply_ip.to_bytes();
        pkt.extend_from_slice(ip_out.as_slice());
        let icmp_out = reply_icmp.to_bytes();
        pkt.extend_from_slice(icmp_out.as_slice());
        proof {
            assert(pkt@ =~= echo_reply_bytes(ipv4@, self@));
        }
        Desicion::Reply(pkt)
    }
}

/// The word sum of a serialized message splits into the checksum word and
/// the checksum-independent remainder.
proof fn lemma_icmp_sum_split(m: IcmpModel)
    ensures
        sum_words(icmp_bytes(m), 0) == sum_words(seq![m.icmp_type, m.code], 0) + m.checksum
            + sum_words(icmp_post_bytes(m), 0),
{
    let pre = seq![m.icmp_type, m.code];
    let ck = be16_bytes(m.checksum);
    lemma_sum_words_concat(pre + ck, icmp_post_bytes(m));
    lemma_sum_words_concat(pre, ck);
    lemma_sum_words_be16(m.checksum);
}

/// A message carrying its own computed checksum verifies: the folded word
/// sum of the full serialization is exactly `0xFFFF`.
pub proof fn lemma_icmp_checksum_verifies(m: IcmpModel)
    ensures
        fold_carries(
            sum_words(icmp_bytes(IcmpModel { checksum: icmp_checksum(m), ..m }), 0),
        ) == 0xFFFF,
{
    let m0 = IcmpModel { checksum: 0, ..m };
    let m1 = IcmpModel { checksum: icmp_checksum(m), ..m };
    let s0 = sum_words(icmp_bytes(m0), 0);
    lemma_icmp_sum_split(m0);
    lemma_icmp_sum_split(m1);
    assert(icmp_post_bytes(m0) == icmp_post_bytes(m1));
    assert(sum_words(icmp_bytes(m1), 0) == s0 + icmp_checksum(m));
    lemma_checksum_verifies(s0);
}

} // verus!
