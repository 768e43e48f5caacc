//! The per-packet decision engine: frame validation, header parsing, the
//! banlist gate, and protocol dispatch to the ICMP handler or a bound UDP
//! application handler.

use vstd::prelude::*;
use vstd::slice::slice_subrange;
use std::collections::HashMap;
use crate::banlist::{Banlist, addr_key};
use crate::frame::{frame_matches, check_frame_tag};
use crate::ipv4::{Ipv4Header, Ipv4Model, parse_ip};
use crate::icmp::{IcmpHeader, IcmpModel, parse_icmp, echo_reply_bytes};
use crate::udp::{UdpHeader, UdpModel, UdpHandler, UdpSocket, parse_udp};

verus! {

broadcast use vstd::std_specs::hash::group_hash_axioms;

/// What the engine decides for one inbound packet: answer with a fully
/// framed reply buffer, or drop it silently.
pub enum Desicion {
    Reply(Vec<u8>),
    Drop,
}

/// The IPv4 header and protocol payload of a well-framed buffer: the tag
/// must match, the header must parse, and the header length computed from
/// ihl must lie within the buffer; anything else is dropped unexamined.
pub open spec fn packet_headers(b: Seq<u8>) -> Option<(Ipv4Model, Seq<u8>)> {
    if frame_matches(b) {
        match parse_ip(b.skip(4)) {
            Some(ip) => if 4 + 4 * (ip.ihl as int) <= b.len() {
                Some((ip, b.skip(4 + 4 * (ip.ihl as int))))
            } else {
                None
            },
            None => None,
        }
    } else {
        None
    }
}

/// An echo reply to `ic` under `ip` has a total length that fits the 16-bit
/// field.
pub open spec fn icmp_reply_fits(ip: Ipv4Model, ic: IcmpModel) -> bool {
    4 * (ip.ihl as int) + 8 + ic.payload.len() <= 0xFFFF
}

/// How the registry looks after a handler ran on `port`: the bound ports are
/// the same, every other binding is untouched, and the port of the invoked
/// socket is kept; only that handler's private state may have changed.
pub open spec fn registry_after<H: UdpHandler>(
    pre: Map<u16, UdpSocket<H>>,
    post: Map<u16, UdpSocket<H>>,
    port: u16,
) -> bool {
    &&& post.dom() =~= pre.dom()
    &&& forall|q: u16| q != port && pre.contains_key(q) ==> post[q] == pre[q]
    &&& post[port].port == pre[port].port
}

/// The outcome `r` is exactly what the handler `h` answers for `(ip, u)`.
pub open spec fn response_matches<H: UdpHandler>(
    h: H,
    ip: Ipv4Model,
    u: UdpModel,
    r: Option<Vec<u8>>,
) -> bool {
    match r {
        Some(v) => H::response(h, ip, u) == Some(v@),
        None => H::response(h, ip, u) is None,
    }
}

/// Owns the banlist and the port registry and decides every inbound packet;
/// each call is a pure function of the two structures and the input bytes.
pub struct Dispatcher<H: UdpHandler> {
    pub banlist: Banlist,
    pub udp_sockets: HashMap<u16, UdpSocket<H>>,
}

impl<H: UdpHandler> Dispatcher<H> {
    /// Binds `handler` to `port`, silently replacing any previous binding.
    pub fn udp_bind(&mut self, port: u16, handler: H)
        ensures
            final(self).udp_sockets@ == old(self).udp_sockets@.insert(
                port,
                UdpSocket { port, handler },
            ),
            final(self).banlist == old(self).banlist,
    {
        self.udp_sockets.insert(port, UdpSocket { port, handler });
    }

    /// Decides one inbound framed packet. A bad frame tag, an unparsable or
    /// out-of-bounds header, a banned destination, an unsupported protocol,
    /// an unanswerable ICMP message, or an unbound UDP port all converge to
    /// nothing; an echo request yields the framed echo reply, and a datagram
    /// for a bound port yields whatever its handler answers.
    pub fn handle_packet(&mut self, buf: &[u8]) -> (r: Option<Vec<u8>>)
        ensures
            final(self).banlist == old(self).banlist,
            ({
                let pre = old(self).udp_sockets;
                let post = final(self).udp_sockets;
                match packet_headers(buf@) {
                    None => r is None && post == pre,
                    Some((ip, payload)) => {
                        if old(self).banlist@.contains(addr_key(ip.dst)) {
                            r is None && post == pre
                        } else if ip.protocol == 1 {
                            post == pre && match parse_icmp(payload) {
                                Some(ic) => if ic.icmp_type == 8 && ic.code == 0
                                    && icmp_reply_fits(ip, ic) {
                                    r matches Some(v) && v@ == echo_reply_bytes(ip, ic)
                                } else {
                                    r is None
                                },
                                None => r is None,
                            }
                        } else if ip.protocol == 17 {
                            match parse_udp(payload) {
                                Some(u) => if pre@.contains_key(u.destination_port) {
                                    &&& response_matches(
                                        pre@[u.destination_port].handler,
                                        ip,
                                        u,
                                        r,
                                    )
                                    &&& registry_after(pre@, post@, u.destination_port)
                                } else {
                                    r is None && post == pre
                                },
                                None => r is None && post == pre,
                            }
                        } else {
                            r is None && post == pre
                        }
                    },
                }
            }),
    {
        if !check_frame_tag(buf) {
            return None;
        }
        let ip_slice = slice_subrange(buf, 4, buf.len());
        proof {
            assert(ip_slice@ =~= buf@.skip(4));
        }
        let ipv4_header = match Ipv4Header::from_bytes(ip_slice) {
            Some(h) => h,
            None => {
                return None;
            },
        };
        let header_len: usize = (ipv4_header.ihl as usize) * 4;
        if 4 + header_len > buf.len() {
            return None;
        }
        let payload = slice_subrange(buf, 4 + header_len, buf.len());
        proof {
            assert(payload@ =~= buf@.skip(4 + 4 * (ipv4_header@.ihl as int)));
        }
        if self.banlist.is_banned(&ipv4_header.dst) {
            return None;
        }
        match ipv4_header.protocol {
            1 => {
                match IcmpHeader::from_bytes(payload) {
                    Some(icmp_header) => {
                        let is_echo = icmp_header.icmp_type == 8 && icmp_header.code == 0;
                        if is_echo && icmp_header.payload.len() > 0xFFFF - 8 - header_len {
                            return None;
                        }
                        match icmp_header.handle_request(&ipv4_header) {
                            Desicion::Reply(pkt) => Some(pkt),
                            Desicion::Drop => None,
                        }
                    },
                    None => None,
                }
            },
            17 => {
                match UdpHeader::from_bytes(payload) {
                    Some(udp_header) => {
                        let port = udp_header.destination_port;
                        if self.udp_sockets.contains_key(&port) {
                            match self.udp_sockets.remove(&port) {
                                Some(mut sock) => {
                                    let result = sock.handler.handle(&ipv4_header, &udp_header);
                                    self.udp_sockets.insert(port, sock);
                                    result
                                },
                                None => {
                                    // contains_key held, so remove returns the socket
                                    proof {
                                        assert(false);
                                    }
                                    None
                                },
                            }
                        } else {
                            None
                        }
                    },
                    None => None,
                }
            },
            _ => None,
        }
    }
}

impl<H: UdpHandler> Default for Dispatcher<H> {
    /// A fresh dispatcher bans nothing and has no port bound.
    fn default() -> (r: Self)
        ensures
            r.banlist@ == Set::<u32>::empty(),
            r.udp_sockets@ == Map::<u16, UdpSocket<H>>::empty(),
    {
        Dispatcher { banlist: Banlist::default(), udp_sockets: HashMap::new() }
    }
}

} // verus!
