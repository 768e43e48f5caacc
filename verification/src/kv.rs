//! A key-value UDP application service: answers `SET k v`, `GET k` and
//! `DEL k` datagrams with `OK`, `VALUE v` or `NOTFOUND` echo replies. It
//! exercises the dispatch contract as a bound port handler.

use vstd::prelude::*;
use vstd::slice::{slice_to_vec, slice_index_get};
use crate::ipv4::{Ipv4Header, Ipv4Model};
use crate::udp::{UdpHeader, UdpModel, UdpHandler, udp_echo_bytes};

verus! {

/// An ASCII whitespace byte, the token separator.
pub open spec fn is_ws(b: u8) -> bool {
    b == 32 || b == 9 || b == 10 || b == 11 || b == 12 || b == 13
}

/// The whitespace-separated tokens of `s` from index `i`, with `cur` the
/// token read so far.
pub open spec fn tok_acc(s: Seq<u8>, i: int, cur: Seq<u8>) -> Seq<Seq<u8>>
    decreases s.len() - i,
{
    if i < 0 || i >= s.len() {
        if cur.len() == 0 {
            seq![]
        } else {
            seq![cur]
        }
    } else if is_ws(s[i]) {
        if cur.len() == 0 {
            tok_acc(s, i + 1, seq![])
        } else {
            seq![cur] + tok_acc(s, i + 1, seq![])
        }
    } else {
        tok_acc(s, i + 1, cur.push(s[i]))
    }
}

/// The whitespace-separated tokens of a byte sequence.
pub open spec fn tokens(s: Seq<u8>) -> Seq<Seq<u8>> {
    tok_acc(s, 0, seq![])
}

/// The byte sequences of a vector of byte vectors.
pub open spec fn toks_model(v: Seq<Vec<u8>>) -> Seq<Seq<u8>> {
    v.map(|i: int, t: Vec<u8>| t@)
}

/// The first value bound to `k` in an association list, scanning from the
/// front.
pub open spec fn kv_lookup(s: Seq<(Seq<u8>, Seq<u8>)>, k: Seq<u8>) -> Option<Seq<u8>>
    decreases s.len(),
{
    if s.len() == 0 {
        None
    } else if s[0].0 == k {
        Some(s[0].1)
    } else {
        kv_lookup(s.skip(1), k)
    }
}

/// The association list with the first binding of `k` removed.
pub open spec fn kv_remove(s: Seq<(Seq<u8>, Seq<u8>)>, k: Seq<u8>) -> Seq<(Seq<u8>, Seq<u8>)>
    decreases s.len(),
{
    if s.len() == 0 {
        seq![]
    } else if s[0].0 == k {
        s.skip(1)
    } else {
        seq![s[0]] + kv_remove(s.skip(1), k)
    }
}

pub open spec fn set_cmd() -> Seq<u8> {
    seq![83u8, 69u8, 84u8]
}

pub open spec fn get_cmd() -> Seq<u8> {
    seq![71u8, 69u8, 84u8]
}

pub open spec fn del_cmd() -> Seq<u8> {
    seq![68u8, 69u8, 76u8]
}

pub open spec fn ok_text() -> Seq<u8> {
    seq![79u8, 75u8]
}

pub open spec fn value_prefix() -> Seq<u8> {
    seq![86u8, 65u8, 76u8, 85u8, 69u8, 32u8]
}

pub open spec fn notfound_text() -> Seq<u8> {
    seq![78u8, 79u8, 84u8, 70u8, 79u8, 85u8, 78u8, 68u8]
}

/// The echo reply carrying `data`, if its length fits the 16-bit length
/// fields of the reply headers; otherwise nothing.
pub open spec fn kv_reply(ip: Ipv4Model, udp: UdpModel, data: Seq<u8>) -> Option<Seq<u8>> {
    if 4 * (ip.ihl as int) + 8 + data.len() <= 0xFFFF {
        Some(udp_echo_bytes(UdpModel { data, ..udp }, ip))
    } else {
        None
    }
}

/// What the service answers from store contents `store` to the datagram
/// `udp` under `ip`: `OK` for a well-formed `SET` or `DEL`, the bound value
/// or `NOTFOUND` for a `GET`, and silence for anything else.
pub open spec fn kv_response(
    store: Seq<(Seq<u8>, Seq<u8>)>,
    ip: Ipv4Model,
    udp: UdpModel,
) -> Option<Seq<u8>> {
    let parts = tokens(udp.data);
    if parts.len() == 3 && parts[0] == set_cmd() {
        kv_reply(ip, udp, ok_text())
    } else if parts.len() == 2 && parts[0] == get_cmd() {
        match kv_lookup(store, parts[1]) {
            Some(v) => kv_reply(ip, udp, value_prefix() + v),
            None => kv_reply(ip, udp, notfound_text()),
        }
    } else if parts.len() == 2 && parts[0] == del_cmd() {
        kv_reply(ip, udp, ok_text())
    } else {
        None
    }
}

/// How the store contents change on one datagram: a well-formed `SET` binds
/// the key to the value (replacing any earlier binding), a well-formed `DEL`
/// drops the key's binding, and everything else leaves the store unchanged.
pub open spec fn kv_next(
    store: Seq<(Seq<u8>, Seq<u8>)>,
    data: Seq<u8>,
) -> Seq<(Seq<u8>, Seq<u8>)> {
    let parts = tokens(data);
    if parts.len() == 3 && parts[0] == set_cmd() {
        kv_remove(store, parts[1]).push((parts[1], parts[2]))
    } else if parts.len() == 2 && parts[0] == del_cmd() {
        kv_remove(store, parts[1])
    } else {
        store
    }
}

/// The key-value store service; its data lives privately inside the handler.
pub struct UdpKvService {
    store: Vec<(Vec<u8>, Vec<u8>)>,
}

impl UdpKvService {
    /// The store as an association list of byte sequences.
    pub closed spec fn model(self) -> Seq<(Seq<u8>, Seq<u8>)> {
        self.store@.map(|i: int, p: (Vec<u8>, Vec<u8>)| (p.0@, p.1@))
    }

    fn store_get(&self, k: &[u8]) -> (r: Option<Vec<u8>>)
        ensures
            match r {
                Some(v) => kv_lookup(self.model(), k@) == Some(v@),
                None => kv_lookup(self.model(), k@) is None,
            },
    {
        let ghost m = self.model();
        proof {
            assert(m.skip(0) =~= m);
        }
        let mut i: usize = 0;
        while i < self.store.len()
            invariant
                0 <= i <= self.store@.len(),
                m == self.model(),
                m.len() == self.store@.len(),
                kv_lookup(m, k@) == kv_lookup(m.skip(i as int), k@),
                forall|j: int| 0 <= j < m.len() ==> m[j] == (self.store@[j].0@, self.store@[j].1@),
            decreases self.store@.len() - i,
        {
            proof {
                assert(m.skip(i as int)[0] == m[i as int]);
            }
            let entry = slice_index_get(self.store.as_slice(), i);
            if bytes_eq(entry.0.as_slice(), k) {
                return Some(slice_to_vec(entry.1.as_slice()));
            }
            proof {
                assert(m.skip(i as int).skip(1) =~= m.skip(i as int + 1));
            }
            i = i + 1;
        }
        proof {
            assert(m.skip(i as int).len() == 0);
        }
        None
    }

    fn store_remove(&mut self, k: &[u8])
        ensures
            final(self).model() == kv_remove(old(self).model(), k@),
    {
        let ghost m = old(self).model();
        let mut i: usize = 0;
        while i < self.store.len()
            invariant
                0 <= i <= self.store@.len(),
                *self == *old(self),
                m == self.model(),
                m.len() == self.store@.len(),
                forall|j: int| 0 <= j < m.len() ==> m[j] == (self.store@[j].0@, self.store@[j].1@),
                forall|j: int| 0 <= j < i ==> m[j].0 != k@,
            decreases self.store@.len() - i,
        {
            let entry = slice_index_get(self.store.as_slice(), i);
            if bytes_eq(entry.0.as_slice(), k) {
                self.store.remove(i);
                proof {
                    assert(self.model() =~= m.subrange(0, i as int) + m.skip(i as int + 1));
                    lemma_kv_remove_at(m, k@, i as int);
                }
                return ;
            }
            i = i + 1;
        }
        proof {
            lemma_kv_remove_absent(m, k@);
        }
    }

    fn store_set(&mut self, k: Vec<u8>, v: Vec<u8>)
        ensures
            final(self).model() == kv_remove(old(self).model(), k@).push((k@, v@)),
    {
        let ghost kv = (k@, v@);
        self.store_remove(k.as_slice());
        let ghost removed = self.model();
        self.store.push((k, v));
        proof {
            assert(self.model() =~= removed.push(kv));
        }
    }
}

impl Default for UdpKvService {
    /// A fresh service holds no bindings.
    fn default() -> (r: Self)
        ensures
            r.model() == Seq::<(Seq<u8>, Seq<u8>)>::empty(),
    {
        let s = UdpKvService { store: Vec::new() };
        proof {
            assert(s.model() =~= Seq::<(Seq<u8>, Seq<u8>)>::empty());
        }
        s
    }
}

impl UdpHandler for UdpKvService {
    open spec fn response(pre: Self, ip: Ipv4Model, udp: UdpModel) -> Option<Seq<u8>> {
        kv_response(pre.model(), ip, udp)
    }

    fn handle(&mut self, ip: &Ipv4Header, udp: &UdpHeader) -> (r: Option<Vec<u8>>)
        ensures
            final(self).model() == kv_next(old(self).model(), udp@.data),
    {
        let parts = tokenize(udp.data.as_slice());
        let ghost ts = tokens(udp@.data);
        let set_c: [u8; 3] = [83, 69, 84];
        let get_c: [u8; 3] = [71, 69, 84];
        let del_c: [u8; 3] = [68, 69, 76];
        proof {
            assert(set_c@ =~= set_cmd());
            assert(get_c@ =~= get_cmd());
            assert(del_c@ =~= del_cmd());
            assert(toks_model(parts@) == ts);
            assert(ts.len() == parts@.len());
            assert(forall|j: int| 0 <= j < parts@.len() ==> parts@[j]@ == ts[j]);
        }
        let n = parts.len();
        if n == 3 && bytes_eq(slice_index_get(parts.as_slice(), 0).as_slice(), set_c.as_slice()) {
            proof {
                assert(ts[0] == parts@[0]@ && ts[1] == parts@[1]@ && ts[2] == parts@[2]@);
                assert(kv_response(old(self).model(), ip@, udp@) == kv_reply(ip@, udp@, ok_text()));
            }
            let key = slice_to_vec(slice_index_get(parts.as_slice(), 1).as_slice());
            let value = slice_to_vec(slice_index_get(parts.as_slice(), 2).as_slice());
            self.store_set(key, value);
            let mut reply: Vec<u8> = Vec::new();
            reply.push(79);
            reply.push(75);
            proof {
                assert(reply@ =~= ok_text());
            }
            build_reply(ip, udp, reply)
        } else if n == 2 && bytes_eq(
            slice_index_get(parts.as_slice(), 0).as_slice(),
            get_c.as_slice(),
        ) {
            proof {
                assert(ts[0] == parts@[0]@ && ts[1] == parts@[1]@);
                assert(self.model() == old(self).model());
            }
            match self.store_get(slice_index_get(parts.as_slice(), 1).as_slice()) {
                Some(v) => {
                    let mut reply: Vec<u8> = Vec::new();
                    reply.push(86);
                    reply.push(65);
                    reply.push(76);
                    reply.push(85);
                    reply.push(69);
                    reply.push(32);
                    proof {
                        assert(reply@ =~= value_prefix());
                    }
                    reply.extend_from_slice(v.as_slice());
                    proof {
                        assert(reply@ == value_prefix() + v@);
                        assert(kv_response(old(self).model(), ip@, udp@) == kv_reply(
                            ip@,
                            udp@,
                            value_prefix() + v@,
                        ));
                    }
                    build_reply(ip, udp, reply)
                },
                None => {
                    let mut reply: Vec<u8> = Vec::new();
                    reply.push(78);
                    reply.push(79);
                    reply.push(84);
                    reply.push(70);
                    reply.push(79);
                    reply.push(85);
                    reply.push(78);
                    reply.push(68);
                    proof {
                        assert(reply@ =~= notfound_text());
                        assert(kv_response(old(self).model(), ip@, udp@) == kv_reply(
                            ip@,
                            udp@,
                            notfound_text(),
                        ));
                    }
                    build_reply(ip, udp, reply)
                },
            }
        } else if n == 2 && bytes_eq(
            slice_index_get(parts.as_slice(), 0).as_slice(),
            del_c.as_slice(),
        ) {
            proof {
                assert(ts[0] == parts@[0]@ && ts[1] == parts@[1]@);
                assert(kv_response(old(self).model(), ip@, udp@) == kv_reply(ip@, udp@, ok_text()));
            }
            self.store_remove(slice_index_get(parts.as_slice(), 1).as_slice());
            let mut reply: Vec<u8> = Vec::new();
            reply.push(79);
            reply.push(75);
            proof {
                assert(reply@ =~= ok_text());
            }
            build_reply(ip, udp, reply)
        } else {
            proof {
                assert(kv_response(old(self).model(), ip@, udp@) is None);
            }
            None
        }
    }
}

/// Builds the framed echo reply carrying `data`, or nothing where the reply
/// would not fit the 16-bit length fields.
fn build_reply(ip: &Ipv4Header, udp: &UdpHeader, data: Vec<u8>) -> (r: Option<Vec<u8>>)
    requires
        ip@.wf(),
    ensures
        match r {
            Some(v) => kv_reply(ip@, udp@, data@) == Some(v@),
            None => kv_reply(ip@, udp@, data@) is None,
        },
{
    let limit: usize = 0xFFFF - 8 - (ip.ihl as usize) * 4;
    if data.len() > limit {
        return None;
    }
    let resp = UdpHeader {
        source_port: udp.source_port,
        destination_port: udp.destination_port,
        length: udp.length,
        checksum: udp.checksum,
        data,
    };
    proof {
        assert(resp@ =~= (UdpModel { data: resp.data@, ..udp@ }));
    }
    Some(resp.build_udp_echo(ip))
}

/// Compares two byte slices for equality.
fn bytes_eq(a: &[u8], b: &[u8]) -> (r: bool)
    ensures
        r == (a@ == b@),
{
    if a.len() != b.len() {
        return false;
    }
    let mut i: usize = 0;
    while i < a.len()
        invariant
            0 <= i <= a@.len(),
            a@.len() == b@.len(),
            forall|j: int| 0 <= j < i ==> a@[j] == b@[j],
        decreases a@.len() - i,
    {
        if a[i] != b[i] {
            return false;
        }
        i = i + 1;
    }
    proof {
        assert(a@ =~= b@);
    }
    true
}

/// Splits a byte slice into its whitespace-separated tokens.
fn tokenize(data: &[u8]) -> (r: Vec<Vec<u8>>)
    ensures
        toks_model(r@) == tokens(data@),
        forall|j: int| 0 <= j < r@.len() ==> r@[j]@ == tokens(data@)[j],
{
    let ghost s = data@;
    let mut parts: Vec<Vec<u8>> = Vec::new();
    let mut cur: Vec<u8> = Vec::new();
    let mut i: usize = 0;
    proof {
        assert(toks_model(parts@) =~= Seq::<Seq<u8>>::empty());
        assert(cur@ =~= Seq::<u8>::empty());
    }
    while i < data.len()
        invariant
            0 <= i <= s.len(),
            s == data@,
            tokens(s) == toks_model(parts@) + tok_acc(s, i as int, cur@),
        decreases s.len() - i,
    {
        let b = data[i];
        if b == 32 || b == 9 || b == 10 || b == 11 || b == 12 || b == 13 {
            if cur.len() > 0 {
                let ghost prev = toks_model(parts@);
                let ghost cur0 = cur@;
                parts.push(cur);
                cur = Vec::new();
                proof {
                    assert(toks_model(parts@) =~= prev + seq![cur0]);
                    assert(cur@ =~= Seq::<u8>::empty());
                    assert(tok_acc(s, i as int, cur0) == seq![cur0] + tok_acc(
                        s,
                        i as int + 1,
                        seq![],
                    ));
                    assert(prev + (seq![cur0] + tok_acc(s, i as int + 1, seq![])) =~= (prev
                        + seq![cur0]) + tok_acc(s, i as int + 1, seq![]));
                }
            } else {
                proof {
                    assert(cur@ =~= Seq::<u8>::empty());
                }
            }
        } else {
            cur.push(b);
        }
        i = i + 1;
    }
    if cur.len() > 0 {
        let ghost prev = toks_model(parts@);
        let ghost cur0 = cur@;
        parts.push(cur);
        proof {
            assert(toks_model(parts@) =~= prev + seq![cur0]);
            assert(tok_acc(s, i as int, cur0) == seq![cur0]);
            assert(prev + seq![cur0] =~= toks_model(parts@));
        }
    } else {
        proof {
            assert(cur@ =~= Seq::<u8>::empty());
            assert(tok_acc(s, i as int, cur@) =~= Seq::<Seq<u8>>::empty());
            assert(toks_model(parts@) + Seq::<Seq<u8>>::empty() =~= toks_model(parts@));
        }
    }
    proof {
        assert(forall|j: int|
            0 <= j < parts@.len() ==> toks_model(parts@)[j] == parts@[j]@);
    }
    parts
}

/// Removing the first binding of `k`, which sits at index `i` with no
/// earlier binding, drops exactly that entry.
proof fn lemma_kv_remove_at(s: Seq<(Seq<u8>, Seq<u8>)>, k: Seq<u8>, i: int)
    requires
        0 <= i < s.len(),
        s[i].0 == k,
        forall|j: int| 0 <= j < i ==> s[j].0 != k,
    ensures
        kv_remove(s, k) == s.subrange(0, i) + s.skip(i + 1),
    decreases i,
{
    if i == 0 {
        assert(kv_remove(s, k) == s.skip(1));
        assert(s.subrange(0, 0) + s.skip(1) =~= s.skip(1));
    } else {
        let t = s.skip(1);
        assert(forall|j: int| 0 <= j < i - 1 ==> t[j] == s[j + 1]);
        lemma_kv_remove_at(t, k, i - 1);
        assert(kv_remove(s, k) == seq![s[0]] + (t.subrange(0, i - 1) + t.skip(i)));
        assert(seq![s[0]] + (t.subrange(0, i - 1) + t.skip(i)) =~= s.subrange(0, i) + s.skip(
            i + 1,
        ));
    }
}

/// Removing a key that is not bound leaves the list unchanged.
proof fn lemma_kv_remove_absent(s: Seq<(Seq<u8>, Seq<u8>)>, k: Seq<u8>)
    requires
        forall|j: int| 0 <= j < s.len() ==> s[j].0 != k,
    ensures
        kv_remove(s, k) == s,
    decreases s.len(),
{
    if s.len() > 0 {
        let t = s.skip(1);
        assert(forall|j: int| 0 <= j < t.len() ==> t[j] == s[j + 1]);
        lemma_kv_remove_absent(t, k);
        assert(seq![s[0]] + t =~= s);
    }
}

} // verus!
