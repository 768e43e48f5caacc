//! The IPv4 header: fixed 20-byte big-endian wire layout, parsing,
//! serialization and the internet checksum over the serialized header.

use vstd::prelude::*;
use crate::checksum::{
    sum_words, fold_carries, checksum_of, be16_bytes, hi8, lo8, push_be16, read_be16,
    checksum_words, lemma_sum_words_concat, lemma_sum_words_be16, lemma_fold_carries_bound,
    lemma_checksum_verifies,
};

verus! {

/// A parsed IPv4 header; a transient value reconstructed for each packet.
#[derive(Debug, Clone)]
pub struct Ipv4Header {
    pub version: u8,
    pub ihl: u8,
    pub tos: u8,
    pub total_length: u16,
    pub identification: u16,
    pub flags: u8,
    pub fragment_offset: u16,
    pub ttl: u8,
    pub protocol: u8,
    pub checksum: u16,
    pub src: [u8; 4],
    pub dst: [u8; 4],
}

/// The mathematical value of an IPv4 header, with the addresses as byte
/// sequences.
#[verifier::ext_equal]
pub struct Ipv4Model {
    pub version: u8,
    pub ihl: u8,
    pub tos: u8,
    pub total_length: u16,
    pub identification: u16,
    pub flags: u8,
    pub fragment_offset: u16,
    pub ttl: u8,
    pub protocol: u8,
    pub checksum: u16,
    pub src: Seq<u8>,
    pub dst: Seq<u8>,
}

impl View for Ipv4Header {
    type V = Ipv4Model;

    open spec fn view(&self) -> Ipv4Model {
        Ipv4Model {
            version: self.version,
            ihl: self.ihl,
            tos: self.tos,
            total_length: self.total_length,
            identification: self.identification,
            flags: self.flags,
            fragment_offset: self.fragment_offset,
            ttl: self.ttl,
            protocol: self.protocol,
            checksum: self.checksum,
            src: self.src@,
            dst: self.dst@,
        }
    }
}

impl Ipv4Model {
    /// Each field fits its wire width: version and ihl are 4 bits, flags 3
    /// bits, fragment offset 13 bits, and the addresses 4 bytes each.
    pub open spec fn wf(self) -> bool {
        &&& self.version < 16
        &&& self.ihl < 16
        &&& self.flags < 8
        &&& self.fragment_offset < 0x2000
        &&& self.src.len() == 4
        &&& self.dst.len() == 4
    }
}

/// A 16-bit value from two big-endian bytes.
pub open spec fn word16(a: u8, b: u8) -> u16 {
    ((a as int) * 256 + (b as int)) as u16
}

/// The first byte of the header: version in the high nibble, ihl low.
pub open spec fn version_ihl_byte(m: Ipv4Model) -> u8
    recommends
        m.wf(),
{
    ((m.version as int) * 16 + (m.ihl as int)) as u8
}

/// The flags-and-fragment-offset word: flags in the top 3 bits.
pub open spec fn flags_frag_word(m: Ipv4Model) -> u16
    recommends
        m.wf(),
{
    ((m.flags as int) * 8192 + (m.fragment_offset as int)) as u16
}

/// The first ten serialized bytes, which do not involve the checksum field.
pub open spec fn ip_pre_bytes(m: Ipv4Model) -> Seq<u8> {
    seq![version_ihl_byte(m), m.tos] + be16_bytes(m.total_length) + be16_bytes(m.identification)
        + be16_bytes(flags_frag_word(m)) + seq![m.ttl, m.protocol]
}

/// The 20-byte fixed serialization of an IPv4 header (options are never
/// emitted).
pub open spec fn ip_bytes(m: Ipv4Model) -> Seq<u8> {
    ip_pre_bytes(m) + be16_bytes(m.checksum) + m.src + m.dst
}

/// The header read from the fixed big-endian offsets of the first 20 bytes.
pub open spec fn parse_ip(b: Seq<u8>) -> Option<Ipv4Model> {
    if b.len() < 20 {
        None
    } else {
        Some(
            Ipv4Model {
                version: (b[0] / 16) as u8,
                ihl: (b[0] % 16) as u8,
                tos: b[1],
                total_length: word16(b[2], b[3]),
                identification: word16(b[4], b[5]),
                flags: (b[6] / 32) as u8,
                fragment_offset: (((b[6] % 32) as int) * 256 + (b[7] as int)) as u16,
                ttl: b[8],
                protocol: b[9],
                checksum: word16(b[10], b[11]),
                src: b.subrange(12, 16),
                dst: b.subrange(16, 20),
            },
        )
    }
}

/// The checksum value that belongs in a header: the complement of the folded
/// word sum of the serialization with the checksum field zeroed.
pub open spec fn ip_checksum(m: Ipv4Model) -> u16 {
    checksum_of(sum_words(ip_bytes(Ipv4Model { checksum: 0, ..m }), 0))
}

impl Ipv4Header {
    /// Parses a header from the first 20 bytes of `packet`; a shorter buffer
    /// yields nothing. Options beyond the fixed header are not read.
    pub fn from_bytes(packet: &[u8]) -> (r: Option<Ipv4Header>)
        ensures
            match r {
                Some(h) => parse_ip(packet@) == Some(h@) && h@.wf(),
                None => parse_ip(packet@) is None,
            },
    {
        if packet.len() < 20 {
            return None;
        }
        let h = Ipv4Header {
            version: packet[0] / 16,
            ihl: packet[0] % 16,
            tos: packet[1],
            total_length: read_be16(packet, 2),
            identification: read_be16(packet, 4),
            flags: packet[6] / 32,
            fragment_offset: ((packet[6] % 32) as u16) * 256 + (packet[7] as u16),
            ttl: packet[8],
            protocol: packet[9],
            checksum: read_be16(packet, 10),
            src: [packet[12], packet[13], packet[14], packet[15]],
            dst: [packet[16], packet[17], packet[18], packet[19]],
        };
        proof {
            assert(h@.src =~= packet@.subrange(12, 16));
            assert(h@.dst =~= packet@.subrange(16, 20));
            assert(h@ =~= parse_ip(packet@).unwrap());
        }
        Some(h)
    }

    /// Serializes the fixed 20-byte layout in field order.
    pub fn to_bytes(&self) -> (r: Vec<u8>)
        requires
            self@.wf(),
        ensures
            r@ == ip_bytes(self@),
            r@.len() == 20,
    {
        let mut buf: Vec<u8> = Vec::new();
        buf.push(self.version * 16 + self.ihl);
        buf.push(self.tos);
        push_be16(&mut buf, self.total_length);
        push_be16(&mut buf, self.identification);
        push_be16(&mut buf, (self.flags as u16) * 8192 + self.fragment_offset);
        buf.push(self.ttl);
        buf.push(self.protocol);
        push_be16(&mut buf, self.checksum);
        buf.push(self.src[0]);
        buf.push(self.src[1]);
        buf.push(self.src[2]);
        buf.push(self.src[3]);
        buf.push(self.dst[0]);
        buf.push(self.dst[1]);
        buf.push(self.dst[2]);
        buf.push(self.dst[3]);
        proof {
            assert(buf@ =~= ip_bytes(self@));
        }
        buf
    }

    /// Zeroes the checksum field, sums the 16-bit words of the serialized
    /// header, folds the carries, and stores the complement.
    pub fn compute_checksum(&mut self)
        requires
            old(self)@.wf(),
        ensures
            final(self)@ == (Ipv4Model { checksum: ip_checksum(old(self)@), ..old(self)@ }),
    {
        self.checksum = 0;
        proof {
            assert(self@ =~= (Ipv4Model { checksum: 0, ..old(self)@ }));
        }
        let bytes = self.to_bytes();
        let folded = checksum_words(bytes.as_slice(), 0);
        proof {
            lemma_fold_carries_bound(sum_words(bytes@, 0));
        }
        self.checksum = 0xFFFF - folded;
        proof {
            assert(self@ =~= (Ipv4Model { checksum: ip_checksum(old(self)@), ..old(self)@ }));
        }
    }
}

/// The word sum of a serialized header splits into the checksum word and the
/// checksum-independent remainder.
proof fn lemma_ip_sum_split(m: Ipv4Model)
    requires
        m.wf(),
    ensures
        sum_words(ip_bytes(m), 0) == sum_words(ip_pre_bytes(m), 0) + m.checksum + sum_words(
            m.src,
            0,
        ) + sum_words(m.dst, 0),
{
    let pre = ip_pre_bytes(m);
    let ck = be16_bytes(m.checksum);
    assert(pre.len() == 10);
    lemma_sum_words_concat(pre + ck + m.src, m.dst);
    lemma_sum_words_concat(pre + ck, m.src);
    lemma_sum_words_concat(pre, ck);
    lemma_sum_words_be16(m.checksum);
}

/// Parsing a serialized well-formed header reproduces every field.
pub proof fn lemma_ip_parse_serialize(m: Ipv4Model)
    requires
        m.wf(),
    ensures
        parse_ip(ip_bytes(m)) == Some(m),
{
    let b = ip_bytes(m);
    assert(b.len() == 20);
    assert(b[0] == version_ihl_byte(m));
    assert(b[1] == m.tos);
    assert(b[2] == hi8(m.total_length));
    assert(b[3] == lo8(m.total_length));
    assert(b[4] == hi8(m.identification));
    assert(b[5] == lo8(m.identification));
    assert(b[6] == hi8(flags_frag_word(m)));
    assert(b[7] == lo8(flags_frag_word(m)));
    assert(b[8] == m.ttl);
    assert(b[9] == m.protocol);
    assert(b[10] == hi8(m.checksum));
    assert(b[11] == lo8(m.checksum));
    let p = parse_ip(b).unwrap();
    assert(p.version == m.version && p.ihl == m.ihl) by {
        assert(version_ihl_byte(m) == m.version * 16 + m.ihl);
    };
    assert(p.total_length == m.total_length && p.identification == m.identification && p.checksum
        == m.checksum) by {
        lemma_word16_roundtrip(m.total_length);
        lemma_word16_roundtrip(m.identification);
        lemma_word16_roundtrip(m.checksum);
    };
    assert(p.flags == m.flags && p.fragment_offset == m.fragment_offset) by {
        let ff = flags_frag_word(m);
        assert(ff == m.flags * 8192 + m.fragment_offset);
        assert(ff / 256 == m.flags * 32 + m.fragment_offset / 256);
        assert(ff % 256 == m.fragment_offset % 256);
        assert((ff / 256) / 32 == m.flags);
        assert((ff / 256) % 32 == m.fragment_offset / 256);
        vstd::arithmetic::div_mod::lemma_fundamental_div_mod(m.fragment_offset as int, 256);
    };
    assert(p.src =~= m.src);
    assert(p.dst =~= m.dst);
    assert(p =~= m);
}

/// A 16-bit value is recovered from its two big-endian bytes.
proof fn lemma_word16_roundtrip(x: u16)
    ensures
        word16(hi8(x), lo8(x)) == x,
{
    vstd::arithmetic::div_mod::lemma_fundamental_div_mod(x as int, 256);
}

/// A header carrying its own computed checksum verifies: the folded word sum
/// of the full serialization is exactly `0xFFFF`.
pub proof fn lemma_ip_checksum_verifies(m: Ipv4Model)
    requires
        m.wf(),
    ensures
        fold_carries(
            sum_words(ip_bytes(Ipv4Model { checksum: ip_checksum(m), ..m }), 0),
        ) == 0xFFFF,
{
    let m0 = Ipv4Model { checksum: 0, ..m };
    let m1 = Ipv4Model { checksum: ip_checksum(m), ..m };
    let s0 = sum_words(ip_bytes(m0), 0);
    lemma_ip_sum_split(m0);
    lemma_ip_sum_split(m1);
    assert(ip_pre_bytes(m0) == ip_pre_bytes(m1));
    assert(sum_words(ip_bytes(m1), 0) == s0 + ip_checksum(m));
    lemma_checksum_verifies(s0);
}

} // verus!
