//! Peer network addresses.

use vstd::prelude::*;

verus! {

/// The network address of a peer: an IPv4 address as its 32 bits, or an IPv6
/// address as its 128 bits, most significant byte first.
#[derive(Clone, Copy, Debug, PartialEq, Eq, Structural, Hash)]
pub enum IpAddress {
    V4(u32),
    V6(u128),
}

} // verus!
