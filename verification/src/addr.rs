//! Addresses of either family.

use crate::ipv4::{v4_in, v4_text_reads_back, Ipv4Addr};
use crate::ipv6::{v6_in, v6_text_reads_back, Ipv6Addr};
use vstd::prelude::*;

verus! {

/// An address of either family.
#[derive(Clone, Copy, Debug, PartialEq, Eq, Structural)]
pub enum IpAddr {
    V4(Ipv4Addr),
    V6(Ipv6Addr),
}

/// The address of either family that the text denotes.
pub open spec fn ip_in(s: Seq<char>) -> Option<IpAddr> {
    match v4_in(s) {
        Some(v4) => Some(IpAddr::V4(v4)),
        None => match v6_in(s) {
            Some(v6) => Some(IpAddr::V6(v6)),
            None => None,
        },
    }
}

impl IpAddr {
    /// The address in the notation of its family.
    pub open spec fn text(self) -> Seq<char> {
        match self {
            IpAddr::V4(v4) => v4.text(),
            IpAddr::V6(v6) => v6.text(),
        }
    }

    /// Reads an address of either family.
    pub fn read(s: &[char]) -> (r: Option<IpAddr>)
        ensures
            r == ip_in(s@),
    {
        match Ipv4Addr::read(s) {
            Some(v4) => Some(IpAddr::V4(v4)),
            None => match Ipv6Addr::read(s) {
                Some(v6) => Some(IpAddr::V6(v6)),
                None => None,
            },
        }
    }

    /// The address in the notation of its family.
    pub fn to_text(&self) -> (r: String)
        ensures
            r@ == self.text(),
    {
        match self {
            IpAddr::V4(v4) => v4.to_text(),
            IpAddr::V6(v6) => v6.to_text(),
        }
    }
}

/// Reading the text of an address gives the address back.
pub proof fn ip_text_reads_back(ip: IpAddr)
    ensures
        ip_in(ip.text()) == Some(ip),
{
    match ip {
        IpAddr::V4(v4) => v4_text_reads_back(v4),
        IpAddr::V6(v6) => v6_text_reads_back(v6),
    }
}

} // verus!
