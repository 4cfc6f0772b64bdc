//! Pieces shared by every generation of the result format: the DNS
//! configuration and a route.

use vstd::prelude::*;

use crate::ip::IpAddress;
use crate::ipnet::IPNet;

verus! {

/// The DNS configuration of a result: name servers, a local domain,
/// search domains and resolver options, each possibly empty.
#[derive(Clone, Debug, PartialEq, Eq)]
pub struct DNS {
    pub nameservers: Vec<String>,
    pub domain: String,
    pub search: Vec<String>,
    pub options: Vec<String>,
}

/// The mathematical content of a DNS configuration.
#[verifier::ext_equal]
pub ghost struct DnsView {
    pub nameservers: Seq<Seq<char>>,
    pub domain: Seq<char>,
    pub search: Seq<Seq<char>>,
    pub options: Seq<Seq<char>>,
}

impl View for DNS {
    type V = DnsView;

    open spec fn view(&self) -> DnsView {
        DnsView {
            nameservers: self.nameservers.deep_view(),
            domain: self.domain@,
            search: self.search.deep_view(),
            options: self.options.deep_view(),
        }
    }
}

impl Default for DNS {
    /// The empty DNS configuration.
    fn default() -> (d: DNS)
        ensures
            d@ == (DnsView {
                nameservers: Seq::<Seq<char>>::empty(),
                domain: Seq::<char>::empty(),
                search: Seq::<Seq<char>>::empty(),
                options: Seq::<Seq<char>>::empty(),
            }),
    {
        let d = DNS {
            nameservers: Vec::new(),
            domain: String::new(),
            search: Vec::new(),
            options: Vec::new(),
        };
        proof {
            assert(d@ =~~= DnsView {
                nameservers: Seq::<Seq<char>>::empty(),
                domain: Seq::<char>::empty(),
                search: Seq::<Seq<char>>::empty(),
                options: Seq::<Seq<char>>::empty(),
            });
        }
        d
    }
}

/// Copies a list of texts.
pub fn clone_strings(v: &Vec<String>) -> (r: Vec<String>)
    ensures
        r@ == v@,
{
    let mut r: Vec<String> = Vec::new();
    let mut i: usize = 0;
    while i < v.len()
        invariant
            0 <= i <= v@.len(),
            r@ == v@.take(i as int),
        decreases v@.len() - i,
    {
        r.push(v[i].clone());
        proof {
            assert(r@ =~= v@.take(i + 1));
        }
        i += 1;
    }
    proof {
        assert(v@.take(v@.len() as int) =~= v@);
    }
    r
}

/// Copies a DNS configuration.
pub fn clone_dns(d: &DNS) -> (r: DNS)
    ensures
        r@ == d@,
        r.nameservers@ == d.nameservers@,
        r.domain@ == d.domain@,
        r.search@ == d.search@,
        r.options@ == d.options@,
{
    let r = DNS {
        nameservers: clone_strings(&d.nameservers),
        domain: d.domain.clone(),
        search: clone_strings(&d.search),
        options: clone_strings(&d.options),
    };
    proof {
        assert(r@ =~~= d@);
    }
    r
}

/// A route: a destination network and the gateway that serves it. No
/// constraint ties the two families together.
#[derive(Clone, Copy, Debug, PartialEq, Eq, Structural)]
pub struct Route {
    pub dst: IPNet,
    pub gw: IpAddress,
}

/// Copies a list of routes.
pub fn clone_routes(v: &Vec<Route>) -> (r: Vec<Route>)
    ensures
        r@ == v@,
{
    let mut r: Vec<Route> = Vec::new();
    let mut i: usize = 0;
    while i < v.len()
        invariant
            0 <= i <= v@.len(),
            r@ == v@.take(i as int),
        decreases v@.len() - i,
    {
        r.push(v[i]);
        proof {
            assert(r@ =~= v@.take(i + 1));
        }
        i += 1;
    }
    proof {
        assert(v@.take(v@.len() as int) =~= v@);
    }
    r
}

} // verus!
