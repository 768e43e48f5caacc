//! The tunnel framing: every packet buffer begins with a 4-byte big-endian
//! tag holding the address-family constant for IPv4.

use vstd::prelude::*;

verus! {

/// The 4 framing bytes: the address-family constant for IPv4, big-endian.
pub open spec fn frame_tag_bytes() -> Seq<u8> {
    seq![0u8, 0u8, 0u8, 2u8]
}

/// The buffer starts with the IPv4 framing tag.
pub open spec fn frame_matches(b: Seq<u8>) -> bool {
    b.len() >= 4 && b[0] == 0 && b[1] == 0 && b[2] == 0 && b[3] == 2
}

/// Relies on libc::AF_INET, the IPv4 address-family constant: 2.
#[verifier::external_body]
fn af_inet_tag() -> (r: u32)
    ensures
        r == 2,
{
    libc::AF_INET as u32
}

/// Appends the 4-byte big-endian framing tag.
pub fn push_frame_tag(buf: &mut Vec<u8>)
    ensures
        final(buf)@ == old(buf)@ + frame_tag_bytes(),
{
    let tag = af_inet_tag();
    buf.push((tag / 0x1000000 % 256) as u8);
    buf.push((tag / 0x10000 % 256) as u8);
    buf.push((tag / 0x100 % 256) as u8);
    buf.push((tag % 256) as u8);
    assert(buf@ =~= old(buf)@ + frame_tag_bytes());
}

/// Tests whether the buffer begins with the framing tag, read as one
/// big-endian 32-bit word.
pub fn check_frame_tag(buf: &[u8]) -> (r: bool)
    ensures
        r == frame_matches(buf@),
{
    if buf.len() < 4 {
        return false;
    }
    let word: u32 = (buf[0] as u32) * 0x1000000 + (buf[1] as u32) * 0x10000 + (buf[2] as u32)
        * 0x100 + (buf[3] as u32);
    let r = word == af_inet_tag();
    assert(r == frame_matches(buf@)) by {
        if word == 2 {
            assert(buf@[0] == 0 && buf@[1] == 0 && buf@[2] == 0 && buf@[3] == 2);
        }
    };
    r
}

} // verus!
