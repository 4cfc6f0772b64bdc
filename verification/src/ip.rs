//! Plain model of an IP address: an IPv4 address is its 32-bit value, an
//! IPv6 address its 128-bit value. All address arithmetic of the allocator
//! is carried out on these integers.

use vstd::prelude::*;

verus! {

/// An IP address of either family, held as its numeric value.
#[derive(Clone, Copy, Debug, PartialEq, Eq, Structural)]
pub enum IpAddress {
    V4(u32),
    V6(u128),
}

impl IpAddress {
    /// True iff this is an IPv4 address.
    pub open spec fn spec_is_ipv4(&self) -> bool {
        matches!(*self, IpAddress::V4(_))
    }

    /// True iff this is an IPv6 address.
    pub open spec fn spec_is_ipv6(&self) -> bool {
        matches!(*self, IpAddress::V6(_))
    }

    #[verifier::when_used_as_spec(spec_is_ipv4)]
    pub fn is_ipv4(&self) -> (r: bool)
        ensures
            r == self.spec_is_ipv4(),
    {
        matches!(*self, IpAddress::V4(_))
    }

    #[verifier::when_used_as_spec(spec_is_ipv6)]
    pub fn is_ipv6(&self) -> (r: bool)
        ensures
            r == self.spec_is_ipv6(),
    {
        matches!(*self, IpAddress::V6(_))
    }

    /// Both addresses belong to the same family.
    pub open spec fn same_family(&self, other: &IpAddress) -> bool {
        self.spec_is_ipv4() == other.spec_is_ipv4()
    }

    /// The numeric value of the address, whatever its family.
    pub open spec fn num(&self) -> nat {
        match *self {
            IpAddress::V4(a) => a as nat,
            IpAddress::V6(a) => a as nat,
        }
    }

    /// The bit width of the address family: 32 for IPv4, 128 for IPv6.
    pub open spec fn family_width(&self) -> nat {
        if self.spec_is_ipv4() {
            32
        } else {
            128
        }
    }

}

/// How the offset of an address from a pool's base address can fail.
#[derive(Clone, Copy, Debug, PartialEq, Eq, Structural)]
pub enum AddressIndexError {
    /// The distance does not fit the platform's index width.
    FailedCast,
    /// The two addresses do not belong to the same family.
    FailedAnyhow,
}

/// The bit offset of `ip` in a pool whose base address is `baseip`: the
/// family-matched saturating difference of the two numeric values. Fails
/// with `FailedAnyhow` when the families differ, and with `FailedCast`
/// when the difference does not fit in `usize`.
pub fn get_address_index(baseip: &IpAddress, ip: &IpAddress) -> (r: Result<
    usize,
    AddressIndexError,
>)
    ensures
        match r {
            Ok(i) => {
                &&& ip.same_family(baseip)
                &&& i as nat == saturating_distance(*baseip, *ip)
            },
            Err(AddressIndexError::FailedAnyhow) => !ip.same_family(baseip),
            Err(AddressIndexError::FailedCast) => {
                &&& ip.same_family(baseip)
                &&& saturating_distance(*baseip, *ip) > usize::MAX
            },
        },
{
    match (ip, baseip) {
        (IpAddress::V4(a), IpAddress::V4(b)) => Ok(a.saturating_sub(*b) as usize),
        (IpAddress::V6(a), IpAddress::V6(b)) => {
            let d: u128 = a.saturating_sub(*b);
            if d > usize::MAX as u128 {
                Err(AddressIndexError::FailedCast)
            } else {
                Ok(d as usize)
            }
        },
        _ => Err(AddressIndexError::FailedAnyhow),
    }
}

/// The numeric distance from `base` up to `ip`, zero when `ip` lies below
/// `base`.
pub open spec fn saturating_distance(base: IpAddress, ip: IpAddress) -> nat {
    if ip.num() > base.num() {
        (ip.num() - base.num()) as nat
    } else {
        0
    }
}

} // verus!
