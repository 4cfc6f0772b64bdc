//! The pool configuration object: a named network with its allocatable
//! ranges, read from the cluster and held here as plain values.

use vstd::prelude::*;

use crate::ip::IpAddress;
use crate::ipnet::{spec_parse_ipnet, IPNet};
use crate::types_common::Route as CNIRoute;

verus! {

/// The name of the pool configuration object's kind in the cluster.
pub const CRD_NAME: &'static str = "networkips.xxxx.cni.cncf.io";

/// The served version of the pool configuration object.
pub const CRD_VERSION: &'static str = "v1alpha1";

/// An explicit allocation range: a start address and an optional end.
#[derive(Clone, Copy, Debug, PartialEq, Eq, Structural)]
pub struct NetworkIPRange {
    /// The first address of the range.
    pub start: IpAddress,
    /// The last address of the range, if one is set.
    pub end: Option<IpAddress>,
}

/// A configured route: a destination in CIDR text and its gateway.
#[derive(Clone, Debug, PartialEq, Eq)]
pub struct Route {
    /// The route's destination, as CIDR text.
    pub dst: String,
    /// The gateway that serves the destination.
    pub gw: IpAddress,
}

/// One allocatable range of a network: its name, subnet, optional
/// gateway and range, the addresses withheld from allocation, and the
/// static routes handed to callers.
#[derive(Clone, Debug)]
pub struct NetworkIPAllocations {
    pub name: String,
    pub subnet: String,
    pub gateway: Option<IpAddress>,
    pub range: Option<NetworkIPRange>,
    pub exclude: Vec<IpAddress>,
    pub route: Vec<Route>,
}

/// The body of the pool configuration object.
#[derive(Clone, Debug)]
pub struct NetworkIPSpec {
    pub ip_allocations: Vec<NetworkIPAllocations>,
}

/// A pool configuration object, with the identity it carries in the
/// cluster.
#[derive(Clone, Debug)]
pub struct NetworkIP {
    pub namespace: String,
    pub name: String,
    pub spec: NetworkIPSpec,
}

impl NetworkIPAllocations {
    /// The configured routes with their destinations read into CIDR
    /// values. Every destination text must be valid CIDR text.
    pub fn get_cni_route(&self) -> (r: Vec<CNIRoute>)
        requires
            forall|j: int|
                0 <= j < self.route@.len() ==> spec_parse_ipnet(
                    (#[trigger] self.route@[j]).dst@,
                ) is Some,
        ensures
            r@.len() == self.route@.len(),
            forall|j: int|
                0 <= j < r@.len() ==> #[trigger] r@[j] == (CNIRoute {
                    dst: spec_parse_ipnet(self.route@[j].dst@)->Some_0,
                    gw: self.route@[j].gw,
                }),
    {
        let mut r: Vec<CNIRoute> = Vec::new();
        let mut i: usize = 0;
        while i < self.route.len()
            invariant
                0 <= i <= self.route@.len(),
                forall|j: int|
                    0 <= j < self.route@.len() ==> spec_parse_ipnet(
                        (#[trigger] self.route@[j]).dst@,
                    ) is Some,
                r@.len() == i,
                forall|j: int|
                    0 <= j < i ==> #[trigger] r@[j] == (CNIRoute {
                        dst: spec_parse_ipnet(self.route@[j].dst@)->Some_0,
                        gw: self.route@[j].gw,
                    }),
            decreases self.route@.len() - i,
        {
            let dst = match IPNet::from_str(self.route[i].dst.as_str()) {
                Ok(d) => d,
                Err(_) => {
                    proof {
                        assert(spec_parse_ipnet(self.route@[i as int].dst@) is Some);
                    }
                    unreached()
                },
            };
            r.push(CNIRoute { dst, gw: self.route[i].gw });
            i += 1;
        }
        r
    }

    /// The network address of this allocation's subnet, which must be
    /// valid CIDR text.
    pub fn get_network_ip(&self) -> (r: IpAddress)
        requires
            spec_parse_ipnet(self.subnet@) is Some,
        ensures
            r == spec_parse_ipnet(self.subnet@)->Some_0.spec_network_ip(),
    {
        let subnet = match IPNet::from_str(self.subnet.as_str()) {
            Ok(s) => s,
            Err(_) => {
                unreached()
            },
        };
        subnet.get_network_ip()
    }
}

/// The text `ns/name/alloc/suffix`, as the store keys are written.
pub open spec fn spec_pool_key(
    ns: Seq<char>,
    name: Seq<char>,
    alloc: Seq<char>,
    suffix: Seq<char>,
) -> Seq<char> {
    ns + seq!['/'] + name + seq!['/'] + alloc + seq!['/'] + suffix
}

/// The per-allocation bitmap keys of a pool object, one per allocation,
/// in order.
pub fn get_ipallocation_names(networkip: &NetworkIP) -> (r: Vec<String>)
    ensures
        r@.len() == networkip.spec.ip_allocations@.len(),
        forall|j: int|
            0 <= j < r@.len() ==> (#[trigger] r@[j])@ == spec_pool_key(
                networkip.namespace@,
                networkip.name@,
                networkip.spec.ip_allocations@[j].name@,
                "bitmap"@,
            ),
{
    let mut r: Vec<String> = Vec::new();
    let mut i: usize = 0;
    while i < networkip.spec.ip_allocations.len()
        invariant
            0 <= i <= networkip.spec.ip_allocations@.len(),
            r@.len() == i,
            forall|j: int|
                0 <= j < i ==> (#[trigger] r@[j])@ == spec_pool_key(
                    networkip.namespace@,
                    networkip.name@,
                    networkip.spec.ip_allocations@[j].name@,
                    "bitmap"@,
                ),
        decreases networkip.spec.ip_allocations@.len() - i,
    {
        r.push(
            crate::redisdb::get_bitmap_key_name(
                networkip,
                networkip.spec.ip_allocations[i].name.as_str(),
            ),
        );
        i += 1;
    }
    r
}

/// The first host address of a parsed subnet: for an IPv4 network of
/// prefix below 31 the address after the network address, saturating;
/// for a shorter IPv4 network and for every IPv6 network the network
/// address itself.
pub open spec fn spec_first_host(n: IPNet) -> IpAddress {
    match n.spec_network_ip() {
        IpAddress::V4(net) => if n.netmask_len < 31 {
            IpAddress::V4(net.saturating_add(1))
        } else {
            IpAddress::V4(net)
        },
        IpAddress::V6(net) => IpAddress::V6(net),
    }
}

/// The base address of an allocation: the range's start when a range is
/// given, else the first host address of the subnet, which must then be
/// valid CIDR text.
pub fn get_ipallocation_baseip(allocations: &NetworkIPAllocations) -> (r: IpAddress)
    requires
        allocations.range is None ==> spec_parse_ipnet(allocations.subnet@) is Some,
    ensures
        r == (match allocations.range {
            Some(rg) => rg.start,
            None => spec_first_host(spec_parse_ipnet(allocations.subnet@)->Some_0),
        }),
{
    match &allocations.range {
        Some(rg) => rg.start,
        None => {
            let subnet = match IPNet::from_str(allocations.subnet.as_str()) {
                Ok(s) => s,
                Err(_) => {
                    unreached()
                },
            };
            match subnet.get_network_ip() {
                IpAddress::V4(net) => {
                    if subnet.netmask_len < 31 {
                        IpAddress::V4(net.saturating_add(1))
                    } else {
                        IpAddress::V4(net)
                    }
                },
                IpAddress::V6(net) => IpAddress::V6(net),
            }
        },
    }
}

} // verus!
