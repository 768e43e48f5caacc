//! Destination-address denylist: a set of 4-byte IPv4 addresses, consulted
//! by the dispatcher before any protocol-specific work.

use vstd::prelude::*;
use std::collections::HashSet;

verus! {

broadcast use vstd::std_specs::hash::group_hash_axioms;

/// The 4 bytes of an address packed into one big-endian integer; the banned
/// set is stated over these keys.
pub open spec fn addr_key(a: Seq<u8>) -> u32
    recommends
        a.len() == 4,
{
    ((a[0] as int) * 0x1000000 + (a[1] as int) * 0x10000 + (a[2] as int) * 0x100 + (
    a[3] as int)) as u32
}

/// A set of banned destination addresses; membership is the only semantic.
pub struct Banlist {
    banned: HashSet<u32>,
}

impl View for Banlist {
    type V = Set<u32>;

    closed spec fn view(&self) -> Set<u32> {
        self.banned@
    }
}

fn pack_addr(ip: &[u8; 4]) -> (r: u32)
    ensures
        r == addr_key(ip@),
{
    (ip[0] as u32) * 0x1000000 + (ip[1] as u32) * 0x10000 + (ip[2] as u32) * 0x100 + (
    ip[3] as u32)
}

impl Banlist {
    /// Membership test for a destination address.
    pub fn is_banned(&self, ip: &[u8; 4]) -> (r: bool)
        ensures
            r == self@.contains(addr_key(ip@)),
    {
        let key = pack_addr(ip);
        self.banned.contains(&key)
    }

    /// Idempotent insert: banning an address twice is the same as once.
    pub fn ban(&mut self, ip: [u8; 4])
        ensures
            final(self)@ == old(self)@.insert(addr_key(ip@)),
    {
        let key = pack_addr(&ip);
        self.banned.insert(key);
    }

    /// Idempotent remove: unbanning an absent address changes nothing.
    pub fn unban(&mut self, ip: &[u8; 4])
        ensures
            final(self)@ == old(self)@.remove(addr_key(ip@)),
    {
        let key = pack_addr(ip);
        self.banned.remove(&key);
    }
}

impl Default for Banlist {
    /// A fresh banlist bans nothing.
    fn default() -> (r: Self)
        ensures
            r@ == Set::<u32>::empty(),
    {
        Banlist { banned: HashSet::new() }
    }
}

/// Banning the same address twice leaves the banned set equal to banning it
/// once: for a list that starts empty, `{a}`.
pub proof fn lemma_ban_idempotent(s: Set<u32>, a: u32)
    ensures
        s.insert(a).insert(a) == s.insert(a),
        Set::<u32>::empty().insert(a) == set![a],
{
    assert(s.insert(a).insert(a) =~= s.insert(a));
    assert(Set::<u32>::empty().insert(a) =~= set![a]);
}

/// Unbanning an address that is not in the banned set leaves the set
/// unchanged.
pub proof fn lemma_unban_absent(s: Set<u32>, a: u32)
    requires
        !s.contains(a),
    ensures
        s.remove(a) == s,
{
    assert(s.remove(a) =~= s);
}

} // verus!
