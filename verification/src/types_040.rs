//! The middle generation of the result format: flat interface, address
//! and route lists, with a per-address family tag, and its conversions to
//! and from the canonical generation.

use vstd::prelude::*;

use crate::ip::IpAddress;
use crate::ipnet::IPNet;
use crate::types_100::{
    CNI100IPAddress, CNI100Interface, CNI100Result, Cni100ResultView, InterfaceView,
};
use crate::types_common::{clone_dns, clone_routes, DnsView, Route, DNS};

verus! {

/// A network interface, as the middle generation writes it.
#[derive(Clone, Debug, PartialEq, Eq)]
pub struct CNI040Interface {
    pub name: String,
    pub mac: String,
    pub sandbox: String,
}

impl View for CNI040Interface {
    type V = InterfaceView;

    open spec fn view(&self) -> InterfaceView {
        InterfaceView { name: self.name@, mac: self.mac@, sandbox: self.sandbox@ }
    }
}

impl DeepView for CNI040Interface {
    type V = InterfaceView;

    open spec fn deep_view(&self) -> InterfaceView {
        self.view()
    }
}

impl CNI040Interface {
    /// An interface carries over unchanged.
    pub fn convert_to_latest(&self) -> (r: CNI100Interface)
        ensures
            r@ == self@,
    {
        CNI100Interface { name: self.name.clone(), mac: self.mac.clone(), sandbox: self.sandbox.clone() }
    }

    /// An interface carries back unchanged.
    pub fn convert_from_latest(latest: &CNI100Interface) -> (r: CNI040Interface)
        ensures
            r@ == latest@,
    {
        CNI040Interface {
            name: latest.name.clone(),
            mac: latest.mac.clone(),
            sandbox: latest.sandbox.clone(),
        }
    }
}

/// An assigned address, tagged with the textual family version.
#[derive(Clone, Debug, PartialEq, Eq)]
pub struct CNI040IPAddress {
    pub version: String,
    pub interface: Option<u8>,
    pub address: IPNet,
    pub gateway: Option<IpAddress>,
}

/// The mathematical content of a tagged address.
#[verifier::ext_equal]
pub ghost struct Cni040IpView {
    pub version: Seq<char>,
    pub interface: Option<u8>,
    pub address: IPNet,
    pub gateway: Option<IpAddress>,
}

impl View for CNI040IPAddress {
    type V = Cni040IpView;

    open spec fn view(&self) -> Cni040IpView {
        Cni040IpView {
            version: self.version@,
            interface: self.interface,
            address: self.address,
            gateway: self.gateway,
        }
    }
}

impl DeepView for CNI040IPAddress {
    type V = Cni040IpView;

    open spec fn deep_view(&self) -> Cni040IpView {
        self.view()
    }
}

/// The family tag the middle generation gives an address: `"4"` for an
/// IPv4 address, `"6"` for an IPv6 address.
pub open spec fn spec_family_tag(a: IPNet) -> Seq<char> {
    if a.ip.spec_is_ipv4() {
        "4"@
    } else {
        "6"@
    }
}

/// A canonical address written with its family tag.
pub open spec fn spec_ip_from_latest(l: CNI100IPAddress) -> Cni040IpView {
    Cni040IpView {
        version: spec_family_tag(l.address),
        interface: l.interface,
        address: l.address,
        gateway: l.gateway,
    }
}

impl CNI040IPAddress {
    /// Dropping the family tag gives the canonical address.
    pub fn convert_to_latest(&self) -> (r: CNI100IPAddress)
        ensures
            r == (CNI100IPAddress {
                interface: self.interface,
                address: self.address,
                gateway: self.gateway,
            }),
    {
        CNI100IPAddress { interface: self.interface, address: self.address, gateway: self.gateway }
    }

    /// A canonical address gains the tag its family dictates.
    pub fn convert_from_latest(latest: &CNI100IPAddress) -> (r: CNI040IPAddress)
        ensures
            r@ == spec_ip_from_latest(*latest),
    {
        CNI040IPAddress {
            version: if latest.address.ip.is_ipv4() {
                "4".to_owned()
            } else {
                "6".to_owned()
            },
            interface: latest.interface,
            address: latest.address,
            gateway: latest.gateway,
        }
    }
}

/// A result in the middle generation.
#[derive(Clone, Debug, PartialEq, Eq)]
pub struct CNI040Result {
    pub cni_version: String,
    pub interfaces: Vec<CNI040Interface>,
    pub ips: Vec<CNI040IPAddress>,
    pub routes: Vec<Route>,
    pub dns: DNS,
}

/// The mathematical content of a middle-generation result.
#[verifier::ext_equal]
pub ghost struct Cni040ResultView {
    pub cni_version: Seq<char>,
    pub interfaces: Seq<InterfaceView>,
    pub ips: Seq<Cni040IpView>,
    pub routes: Seq<Route>,
    pub dns: DnsView,
}

impl View for CNI040Result {
    type V = Cni040ResultView;

    open spec fn view(&self) -> Cni040ResultView {
        Cni040ResultView {
            cni_version: self.cni_version@,
            interfaces: self.interfaces.deep_view(),
            ips: self.ips.deep_view(),
            routes: self.routes@,
            dns: self.dns@,
        }
    }
}

/// What converting a middle-generation result to the canonical one
/// yields: the version restamped, the family tags dropped, everything
/// else carried over.
pub open spec fn spec_040_to_latest(r: Cni040ResultView) -> Cni100ResultView {
    Cni100ResultView {
        cni_version: "1.0.0"@,
        interfaces: r.interfaces,
        ips: r.ips.map_values(
            |i: Cni040IpView| CNI100IPAddress {
                interface: i.interface,
                address: i.address,
                gateway: i.gateway,
            },
        ),
        routes: r.routes,
        dns: r.dns,
    }
}

/// What writing a canonical result in the middle generation yields: the
/// requested version stamped, every address tagged with its family,
/// everything else carried over.
pub open spec fn spec_040_from_latest(l: Cni100ResultView, ver: Seq<char>) -> Cni040ResultView {
    Cni040ResultView {
        cni_version: ver,
        interfaces: l.interfaces,
        ips: l.ips.map_values(|i: CNI100IPAddress| spec_ip_from_latest(i)),
        routes: l.routes,
        dns: l.dns,
    }
}

impl CNI040Result {
    /// Converts this result to the canonical generation.
    pub fn convert_to_latest(&self) -> (r: CNI100Result)
        ensures
            r@ == spec_040_to_latest(self@),
    {
        let mut interfaces: Vec<CNI100Interface> = Vec::new();
        let mut t: usize = 0;
        while t < self.interfaces.len()
            invariant
                0 <= t <= self.interfaces@.len(),
                interfaces@.len() == t,
                forall|j: int|
                    0 <= j < t ==> #[trigger] interfaces@[j]@ == self.interfaces@[j]@,
            decreases self.interfaces@.len() - t,
        {
            interfaces.push(self.interfaces[t].convert_to_latest());
            t += 1;
        }
        let mut ips: Vec<CNI100IPAddress> = Vec::new();
        let mut i: usize = 0;
        while i < self.ips.len()
            invariant
                0 <= i <= self.ips@.len(),
                ips@.len() == i,
                forall|j: int|
                    0 <= j < i ==> #[trigger] ips@[j] == (CNI100IPAddress {
                        interface: self.ips@[j].interface,
                        address: self.ips@[j].address,
                        gateway: self.ips@[j].gateway,
                    }),
            decreases self.ips@.len() - i,
        {
            ips.push(self.ips[i].convert_to_latest());
            i += 1;
        }
        let r = CNI100Result {
            cni_version: "1.0.0".to_owned(),
            interfaces,
            ips,
            routes: clone_routes(&self.routes),
            dns: clone_dns(&self.dns),
        };
        proof {
            assert(r@ =~~= spec_040_to_latest(self@));
        }
        r
    }

    /// Writes a canonical result in this generation, stamped with the
    /// requested version text.
    pub fn convert_from_latest(latest: &CNI100Result, cni_version: &str) -> (r: CNI040Result)
        ensures
            r@ == spec_040_from_latest(latest@, cni_version@),
    {
        let mut interfaces: Vec<CNI040Interface> = Vec::new();
        let mut i: usize = 0;
        while i < latest.interfaces.len()
            invariant
                0 <= i <= latest.interfaces@.len(),
                interfaces@.len() == i,
                forall|j: int|
                    0 <= j < i ==> #[trigger] interfaces@[j]@ == latest.interfaces@[j]@,
            decreases latest.interfaces@.len() - i,
        {
            interfaces.push(CNI040Interface::convert_from_latest(&latest.interfaces[i]));
            i += 1;
        }
        let mut ips: Vec<CNI040IPAddress> = Vec::new();
        let mut k: usize = 0;
        while k < latest.ips.len()
            invariant
                0 <= k <= latest.ips@.len(),
                ips@.len() == k,
                forall|j: int| 0 <= j < k ==> #[trigger] ips@[j]@ == spec_ip_from_latest(latest.ips@[j]),
            decreases latest.ips@.len() - k,
        {
            ips.push(CNI040IPAddress::convert_from_latest(&latest.ips[k]));
            k += 1;
        }
        let r = CNI040Result {
            cni_version: cni_version.to_owned(),
            interfaces,
            ips,
            routes: clone_routes(&latest.routes),
            dns: clone_dns(&latest.dns),
        };
        proof {
            assert(r@ =~~= spec_040_from_latest(latest@, cni_version@));
        }
        r
    }
}

} // verus!
