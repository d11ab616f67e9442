//! Network addresses and protocol numbers as plain values.

use vstd::prelude::*;

verus! {

/// IP protocol number of a flow (6 is TCP, 17 is UDP).
pub type Protocol = u8;

/// A point in time, in nanoseconds since the Unix epoch.
pub type Timestamp = u128;

/// An IP address, held as the integer that its octets spell in network order.
///
/// An IPv4 address and the IPv6 address that embeds it are different
/// addresses.
#[derive(Clone, Copy, Debug, PartialEq, Eq, Structural)]
pub enum Address {
    V4(u32),
    V6(u128),
}

} // verus!
