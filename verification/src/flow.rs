//! Flow records as a decoder hands them over.

use vstd::prelude::*;
use crate::address::{Address, Protocol};

verus! {

/// One decoded flow leg. A decoder may leave any field out.
#[derive(Clone, Copy, Debug)]
pub struct FlowRecord {
    pub src_addr: Option<Address>,
    pub dst_addr: Option<Address>,
    pub dst_port: Option<u16>,
    pub protocol_number: Option<Protocol>,
}

impl FlowRecord {
    /// The record names source, destination, destination port and protocol.
    pub open spec fn complete(self) -> bool {
        &&& self.src_addr is Some
        &&& self.dst_addr is Some
        &&& self.dst_port is Some
        &&& self.protocol_number is Some
    }

    /// Whether the record names source, destination, destination port and
    /// protocol.
    pub fn is_complete(&self) -> (r: bool)
        ensures
            r == self.complete(),
    {
        self.src_addr.is_some() && self.dst_addr.is_some() && self.dst_port.is_some()
            && self.protocol_number.is_some()
    }
}

} // verus!
