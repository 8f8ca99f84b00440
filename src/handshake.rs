//! The bytes that open a connection: a magic preamble and the protocol
//! versions the client proposes, answered by the one version agreed.

use vstd::prelude::*;
use crate::endian::{be4, be4_value, push_u32, read_u32};

verus! {

/// The versions proposed, best first; zero fills the unused places.
pub const SUPPORTED_VERSIONS: [u32; 4] = [1, 0, 0, 0];

/// The request that opens a connection: the preamble `60 60 B0 17`, then
/// four proposed versions, each as four big-endian bytes.
pub open spec fn handshake_bytes(versions: Seq<u32>) -> Seq<u8> {
    seq![0x60u8, 0x60u8, 0xB0u8, 0x17u8] + be4(versions[0] as nat) + be4(versions[1] as nat) + be4(
        versions[2] as nat,
    ) + be4(versions[3] as nat)
}

/// The handshake request proposing `versions`.
pub fn handshake_request(versions: [u32; 4]) -> (r: Vec<u8>)
    ensures
        r@ == handshake_bytes(versions@),
{
    let mut out: Vec<u8> = Vec::new();
    out.push(0x60);
    out.push(0x60);
    out.push(0xB0);
    out.push(0x17);
    push_u32(&mut out, versions[0]);
    push_u32(&mut out, versions[1]);
    push_u32(&mut out, versions[2]);
    push_u32(&mut out, versions[3]);
    proof {
        assert(out@ =~= handshake_bytes(versions@));
    }
    out
}

/// The version that the server's four-byte reply agrees on; `None` when it
/// agrees on none, which it says with zero.
pub fn agreed_version(reply: &[u8]) -> (r: Option<u32>)
    requires
        reply@.len() == 4,
    ensures
        r == (if be4_value(reply@) == 0 {
            None::<u32>
        } else {
            Some(be4_value(reply@) as u32)
        }),
{
    let v = read_u32(reply, 0);
    assert(reply@.subrange(0, 4) =~= reply@);
    if v == 0 {
        None
    } else {
        Some(v)
    }
}

} // verus!
