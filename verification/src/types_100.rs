//! The newest generation of the result format, which is also the
//! canonical in-memory model every other generation converts through.

use vstd::prelude::*;

use crate::ip::IpAddress;
use crate::ipnet::IPNet;
use crate::types_common::{DnsView, Route, DNS};

verus! {

/// A network interface of a result.
#[derive(Clone, Debug, PartialEq, Eq)]
pub struct CNI100Interface {
    pub name: String,
    pub mac: String,
    pub sandbox: String,
}

/// The mathematical content of an interface.
#[verifier::ext_equal]
pub ghost struct InterfaceView {
    pub name: Seq<char>,
    pub mac: Seq<char>,
    pub sandbox: Seq<char>,
}

impl View for CNI100Interface {
    type V = InterfaceView;

    open spec fn view(&self) -> InterfaceView {
        InterfaceView { name: self.name@, mac: self.mac@, sandbox: self.sandbox@ }
    }
}

impl DeepView for CNI100Interface {
    type V = InterfaceView;

    open spec fn deep_view(&self) -> InterfaceView {
        self.view()
    }
}

/// An assigned address of a result: an optional index into the interface
/// list, the address itself, and an optional gateway.
#[derive(Clone, Copy, Debug, PartialEq, Eq, Structural)]
pub struct CNI100IPAddress {
    pub interface: Option<u8>,
    pub address: IPNet,
    pub gateway: Option<IpAddress>,
}

/// A result in the canonical generation.
#[derive(Clone, Debug, PartialEq, Eq)]
pub struct CNI100Result {
    pub cni_version: String,
    pub interfaces: Vec<CNI100Interface>,
    pub ips: Vec<CNI100IPAddress>,
    pub routes: Vec<Route>,
    pub dns: DNS,
}

/// The mathematical content of a canonical result.
#[verifier::ext_equal]
pub ghost struct Cni100ResultView {
    pub cni_version: Seq<char>,
    pub interfaces: Seq<InterfaceView>,
    pub ips: Seq<CNI100IPAddress>,
    pub routes: Seq<Route>,
    pub dns: DnsView,
}

impl View for CNI100Result {
    type V = Cni100ResultView;

    open spec fn view(&self) -> Cni100ResultView {
        Cni100ResultView {
            cni_version: self.cni_version@,
            interfaces: self.interfaces.deep_view(),
            ips: self.ips@,
            routes: self.routes@,
            dns: self.dns@,
        }
    }
}

/// Copies an interface.
pub fn clone_interface(i: &CNI100Interface) -> (r: CNI100Interface)
    ensures
        r@ == i@,
{
    CNI100Interface { name: i.name.clone(), mac: i.mac.clone(), sandbox: i.sandbox.clone() }
}

/// Copies a list of interfaces.
pub fn clone_interfaces(v: &Vec<CNI100Interface>) -> (r: Vec<CNI100Interface>)
    ensures
        r.deep_view() == v.deep_view(),
{
    let mut r: Vec<CNI100Interface> = Vec::new();
    let mut i: usize = 0;
    while i < v.len()
        invariant
            0 <= i <= v@.len(),
            r@.len() == i,
            forall|j: int| 0 <= j < i ==> #[trigger] r@[j]@ == v@[j]@,
        decreases v@.len() - i,
    {
        r.push(clone_interface(&v[i]));
        i += 1;
    }
    proof {
        assert(r.deep_view() =~= v.deep_view());
    }
    r
}

} // verus!
