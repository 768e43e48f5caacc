//! The internet checksum (ones'-complement arithmetic) shared by the IPv4,
//! ICMP and UDP headers: 16-bit big-endian words are summed, carries beyond
//! bit 16 are folded back into the low 16 bits, and the result is
//! complemented.

use vstd::prelude::*;
use vstd::arithmetic::div_mod::{
    lemma_fundamental_div_mod, lemma_mod_multiples_vanish, lemma_add_mod_noop, lemma_small_mod,
};

verus! {

/// The big-endian 16-bit words of a byte sequence, summed from index `i`;
/// a trailing odd byte is padded into the high half of a final word.
pub open spec fn sum_words(b: Seq<u8>, i: int) -> nat
    decreases b.len() - i,
{
    if i < 0 || i >= b.len() {
        0
    } else if i + 1 == b.len() {
        (b[i] as nat) * 256
    } else {
        (b[i] as nat) * 256 + (b[i + 1] as nat) + sum_words(b, i + 2)
    }
}

/// Folding the carries above bit 16 back into the low 16 bits, repeated
/// until the sum fits in 16 bits.
pub open spec fn fold_carries(s: nat) -> nat
    decreases s,
    via fold_carries_decreases
{
    if s < 0x10000 {
        s
    } else {
        fold_carries(s % 0x10000 + s / 0x10000)
    }
}

proof fn lemma_fold_step_smaller(s: nat)
    requires
        s >= 0x10000,
    ensures
        s % 0x10000 + s / 0x10000 < s,
        s / 0x10000 >= 1,
{
    lemma_fundamental_div_mod(s as int, 0x10000);
    let q = s as int / 0x10000;
    let r = s as int % 0x10000;
    assert(s == 0x10000 * q + r);
    assert(q >= 1) by {
        if q <= 0 {
            assert(s == 0x10000 * q + r <= r < 0x10000);
        }
    };
    assert(r + q == s - 0xFFFF * q);
}

#[via_fn]
proof fn fold_carries_decreases(s: nat) {
    if s >= 0x10000 {
        lemma_fold_step_smaller(s);
    }
}

/// The complement of a folded sum: the value stored in a checksum field.
pub open spec fn complement16(s: nat) -> u16
    recommends
        s <= 0xFFFF,
{
    (0xFFFF - s) as u16
}

/// The internet checksum of a message whose words sum to `total`.
pub open spec fn checksum_of(total: nat) -> u16 {
    complement16(fold_carries(total))
}

pub proof fn lemma_fold_carries_bound(s: nat)
    ensures
        fold_carries(s) <= 0xFFFF,
    decreases s,
{
    if s >= 0x10000 {
        lemma_fold_step_smaller(s);
        lemma_fold_carries_bound(s % 0x10000 + s / 0x10000);
    }
}

pub proof fn lemma_fold_carries_mod(s: nat)
    ensures
        fold_carries(s) % 0xFFFF == s % 0xFFFF,
    decreases s,
{
    if s >= 0x10000 {
        lemma_fold_step_smaller(s);
        let q = s as int / 0x10000;
        let r = s as int % 0x10000;
        lemma_fundamental_div_mod(s as int, 0x10000);
        assert(s == 0xFFFF * q + (q + r));
        lemma_mod_multiples_vanish(q, q + r, 0xFFFF);
        lemma_fold_carries_mod((r + q) as nat);
    }
}

pub proof fn lemma_fold_carries_zero(s: nat)
    ensures
        (fold_carries(s) == 0) <==> (s == 0),
    decreases s,
{
    if s >= 0x10000 {
        lemma_fold_step_smaller(s);
        lemma_fold_carries_zero(s % 0x10000 + s / 0x10000);
    }
}

/// In `[0, 0xFFFF]` each nonzero residue class modulo `0xFFFF` has exactly
/// one representative, and `0` and `0xFFFF` are told apart by zeroness.
proof fn lemma_folded_unique(x: nat, y: nat)
    requires
        x <= 0xFFFF,
        y <= 0xFFFF,
        x % 0xFFFF == y % 0xFFFF,
        (x == 0) <==> (y == 0),
    ensures
        x == y,
{
    if x < 0xFFFF {
        lemma_small_mod(x, 0xFFFF);
    }
    if y < 0xFFFF {
        lemma_small_mod(y, 0xFFFF);
    }
}

/// Deferring the fold commutes with addition: folding a partial sum before
/// adding more words does not change the final folded value.
pub proof fn lemma_fold_carries_add(a: nat, b: nat)
    ensures
        fold_carries(a + b) == fold_carries(fold_carries(a) + b),
{
    let x = fold_carries(a + b);
    let y = fold_carries(fold_carries(a) + b);
    lemma_fold_carries_bound(a + b);
    lemma_fold_carries_bound(fold_carries(a) + b);
    lemma_fold_carries_mod(a + b);
    lemma_fold_carries_mod(fold_carries(a) + b);
    lemma_fold_carries_mod(a);
    lemma_fold_carries_zero(a + b);
    lemma_fold_carries_zero(fold_carries(a) + b);
    lemma_fold_carries_zero(a);
    lemma_add_mod_noop(fold_carries(a) as int, b as int, 0xFFFF);
    lemma_add_mod_noop(a as int, b as int, 0xFFFF);
    lemma_folded_unique(x, y);
}

/// One fold suffices for a sum of two 16-bit quantities.
proof fn lemma_fold_once(s: nat)
    requires
        s <= 0x1FFFE,
    ensures
        fold_carries(s) == if s < 0x10000 {
            s
        } else {
            s % 0x10000 + s / 0x10000
        },
{
    if s >= 0x10000 {
        lemma_fundamental_div_mod(s as int, 0x10000);
        assert(s / 0x10000 == 1) by {
            lemma_fold_step_smaller(s);
            if s / 0x10000 >= 2 {
                assert(s >= 0x10000 * (s as int / 0x10000) >= 0x20000);
            }
        };
        assert(s % 0x10000 + s / 0x10000 < 0x10000);
        assert(fold_carries(s) == fold_carries(s % 0x10000 + s / 0x10000));
        assert(fold_carries(s % 0x10000 + s / 0x10000) == s % 0x10000 + s / 0x10000);
    }
}

/// A message checksummed with the complement of its own folded sum verifies:
/// adding the stored checksum to the words and folding gives `0xFFFF`.
pub proof fn lemma_checksum_verifies(s0: nat)
    ensures
        fold_carries(s0 + checksum_of(s0) as nat) == 0xFFFF,
{
    lemma_fold_carries_bound(s0);
    let f = fold_carries(s0);
    let c = (0xFFFF - f) as nat;
    let x = fold_carries(s0 + c);
    lemma_fold_carries_bound(s0 + c);
    lemma_fold_carries_mod(s0 + c);
    lemma_fold_carries_mod(s0);
    lemma_fold_carries_zero(s0 + c);
    lemma_fold_carries_zero(s0);
    lemma_add_mod_noop(s0 as int, c as int, 0xFFFF);
    // s0 + c is congruent to f + c == 0xFFFF, so x % 0xFFFF == 0.
    lemma_add_mod_noop(f as int, c as int, 0xFFFF);
    assert((f + c) % 0xFFFF == 0);
    assert(f % 0xFFFF == s0 % 0xFFFF);
    // s0 + c > 0: either s0 > 0, or s0 == 0 and then c == 0xFFFF.
    assert(s0 + c > 0);
    lemma_folded_unique(x, 0xFFFF);
}

/// A stored checksum of `0xFFFF` in place of a computed `0` (the UDP rule:
/// zero means "no checksum") also verifies, because the folded sum was
/// `0xFFFF` and `0xFFFF + 0xFFFF` folds back to `0xFFFF`.
pub proof fn lemma_checksum_all_ones_verifies(s0: nat)
    requires
        checksum_of(s0) == 0,
    ensures
        fold_carries(s0 + 0xFFFF) == 0xFFFF,
{
    lemma_fold_carries_bound(s0);
    let f = fold_carries(s0);
    assert(f == 0xFFFF);
    let x = fold_carries(s0 + 0xFFFF);
    lemma_fold_carries_bound(s0 + 0xFFFF);
    lemma_fold_carries_mod(s0 + 0xFFFF);
    lemma_fold_carries_mod(s0);
    lemma_fold_carries_zero(s0 + 0xFFFF);
    lemma_fold_carries_zero(s0);
    lemma_add_mod_noop(s0 as int, 0xFFFF, 0xFFFF);
    lemma_mod_multiples_vanish(1, 0, 0xFFFF);
    lemma_folded_unique(x, 0xFFFF);
}

/// Words summed from `i` agree when the byte sequences agree from `i` on.
pub proof fn lemma_sum_words_agree(a: Seq<u8>, b: Seq<u8>, i: int)
    requires
        a.len() == b.len(),
        forall|j: int| i <= j < a.len() ==> a[j] == b[j],
    ensures
        sum_words(a, i) == sum_words(b, i),
    decreases a.len() - i,
{
    if 0 <= i && i + 1 < a.len() {
        lemma_sum_words_agree(a, b, i + 2);
    }
}

/// Summing a concatenation from an offset inside the second part reads only
/// the second part.
proof fn lemma_sum_words_tail(a: Seq<u8>, b: Seq<u8>, i: int)
    requires
        0 <= i,
    ensures
        sum_words(a + b, a.len() + i) == sum_words(b, i),
    decreases b.len() - i,
{
    if i + 1 < b.len() {
        lemma_sum_words_tail(a, b, i + 2);
    }
}

proof fn lemma_sum_words_concat_from(a: Seq<u8>, b: Seq<u8>, i: int)
    requires
        0 <= i <= a.len(),
        (a.len() - i) % 2 == 0,
    ensures
        sum_words(a + b, i) == sum_words(a, i) + sum_words(b, 0),
    decreases a.len() - i,
{
    if i == a.len() {
        lemma_sum_words_tail(a, b, 0);
    } else {
        lemma_sum_words_concat_from(a, b, i + 2);
    }
}

/// The word sum of a concatenation splits at an even boundary.
pub proof fn lemma_sum_words_concat(a: Seq<u8>, b: Seq<u8>)
    requires
        a.len() % 2 == 0,
    ensures
        sum_words(a + b, 0) == sum_words(a, 0) + sum_words(b, 0),
{
    lemma_sum_words_concat_from(a, b, 0);
}

/// The high byte of a 16-bit big-endian value.
pub open spec fn hi8(x: u16) -> u8 {
    (x / 256) as u8
}

/// The low byte of a 16-bit big-endian value.
pub open spec fn lo8(x: u16) -> u8 {
    (x % 256) as u8
}

/// A 16-bit value as its two big-endian bytes.
pub open spec fn be16_bytes(x: u16) -> Seq<u8> {
    seq![hi8(x), lo8(x)]
}

/// The word sum of a lone big-endian 16-bit value is the value.
pub proof fn lemma_sum_words_be16(x: u16)
    ensures
        sum_words(be16_bytes(x), 0) == x,
{
    let s = be16_bytes(x);
    assert(s.len() == 2);
    assert(s[0] == hi8(x));
    assert(s[1] == lo8(x));
    assert(sum_words(s, 2) == 0);
    lemma_fundamental_div_mod(x as int, 256);
}

/// Appends the two big-endian bytes of `x`.
pub fn push_be16(v: &mut Vec<u8>, x: u16)
    ensures
        final(v)@ == old(v)@ + be16_bytes(x),
{
    v.push((x / 256) as u8);
    v.push((x % 256) as u8);
    assert(v@ =~= old(v)@ + be16_bytes(x));
}

/// Reads the big-endian 16-bit value at offset `i`.
pub fn read_be16(b: &[u8], i: usize) -> (r: u16)
    requires
        i + 1 < b@.len(),
    ensures
        r == (b@[i as int] as int) * 256 + (b@[i as int + 1] as int),
{
    (b[i] as u16) * 256 + (b[i + 1] as u16)
}

/// Folds the carries of a 32-bit sum down to 16 bits.
pub fn fold_u32(s: u32) -> (r: u16)
    ensures
        r == fold_carries(s as nat),
{
    let mut x = s;
    while x >= 0x10000
        invariant
            fold_carries(x as nat) == fold_carries(s as nat),
        decreases x,
    {
        proof {
            lemma_fold_step_smaller(x as nat);
        }
        x = x % 0x10000 + x / 0x10000;
    }
    x as u16
}

/// Sums the 16-bit words of `bytes` onto `init` and folds the carries.
pub fn checksum_words(bytes: &[u8], init: u32) -> (r: u16)
    requires
        init <= 0xFFFF,
    ensures
        r == fold_carries(init as nat + sum_words(bytes@, 0)),
{
    let ghost total = init as nat + sum_words(bytes@, 0);
    let mut sum: u32 = init;
    let mut i: usize = 0;
    while i < bytes.len()
        invariant
            sum <= 0xFFFF,
            0 <= i <= bytes@.len(),
            fold_carries(total) == fold_carries(sum as nat + sum_words(bytes@, i as int)),
        decreases bytes@.len() - i,
    {
        let w: u32 = if i + 1 < bytes.len() {
            (bytes[i] as u32) * 256 + (bytes[i + 1] as u32)
        } else {
            (bytes[i] as u32) * 256
        };
        let ghost rest = sum_words(bytes@, i as int + if i + 1 < bytes@.len() { 2int } else { 1int });
        proof {
            assert(sum_words(bytes@, i as int) == w + rest);
            lemma_fold_carries_add((sum + w) as nat, rest);
            lemma_fold_once((sum + w) as nat);
            lemma_fold_carries_bound((sum + w) as nat);
        }
        let t: u32 = sum + w;
        sum = if t >= 0x10000 {
            t % 0x10000 + t / 0x10000
        } else {
            t
        };
        i = if i + 1 < bytes.len() {
            i + 2
        } else {
            i + 1
        };
    }
    assert(sum_words(bytes@, i as int) == 0);
    sum as u16
}

} // verus!
