//! The oldest generation of the result format: at most one address per
//! family, each bundled with its own gateway and routes, and its
//! conversions to and from the canonical generation.

use vstd::prelude::*;
use vstd::seq_lib::*;

use crate::ip::IpAddress;
use crate::ipnet::IPNet;
use crate::types_100::{CNI100IPAddress, CNI100Result, Cni100ResultView, InterfaceView};
use crate::types_common::{clone_dns, clone_routes, DnsView, Route, DNS};

verus! {

/// One family's bundle: the address, its gateway, and the routes served
/// through it.
#[derive(Clone, Debug, PartialEq, Eq)]
pub struct CNI020IPAddress {
    pub address: IPNet,
    pub gateway: Option<IpAddress>,
    pub routes: Vec<Route>,
}

/// The mathematical content of a family bundle.
#[verifier::ext_equal]
pub ghost struct Cni020IpView {
    pub address: IPNet,
    pub gateway: Option<IpAddress>,
    pub routes: Seq<Route>,
}

impl View for CNI020IPAddress {
    type V = Cni020IpView;

    open spec fn view(&self) -> Cni020IpView {
        Cni020IpView { address: self.address, gateway: self.gateway, routes: self.routes@ }
    }
}

/// A result in the oldest generation.
#[derive(Clone, Debug, PartialEq, Eq)]
pub struct CNI020Result {
    pub cni_version: String,
    pub ip4: Option<CNI020IPAddress>,
    pub ip6: Option<CNI020IPAddress>,
    pub dns: DNS,
}

/// The mathematical content of an oldest-generation result.
#[verifier::ext_equal]
pub ghost struct Cni020ResultView {
    pub cni_version: Seq<char>,
    pub ip4: Option<Cni020IpView>,
    pub ip6: Option<Cni020IpView>,
    pub dns: DnsView,
}

impl View for CNI020Result {
    type V = Cni020ResultView;

    open spec fn view(&self) -> Cni020ResultView {
        Cni020ResultView {
            cni_version: self.cni_version@,
            ip4: match self.ip4 {
                Some(ref a) => Some(a@),
                None => None,
            },
            ip6: match self.ip6 {
                Some(ref a) => Some(a@),
                None => None,
            },
            dns: self.dns@,
        }
    }
}

/// The canonical address a bundle contributes: no interface reference,
/// the address and its gateway.
pub open spec fn spec_bundle_ips(o: Option<Cni020IpView>) -> Seq<CNI100IPAddress> {
    match o {
        Some(a) => seq![
            CNI100IPAddress { interface: None, address: a.address, gateway: a.gateway },
        ],
        None => Seq::empty(),
    }
}

/// The routes a bundle contributes.
pub open spec fn spec_bundle_routes(o: Option<Cni020IpView>) -> Seq<Route> {
    match o {
        Some(a) => a.routes,
        None => Seq::empty(),
    }
}

/// What converting an oldest-generation result to the canonical one
/// yields: the addresses of the present families in IPv4-then-IPv6
/// order, their routes concatenated the same way, no interfaces.
pub open spec fn spec_020_to_latest(r: Cni020ResultView) -> Cni100ResultView {
    Cni100ResultView {
        cni_version: "1.0.0"@,
        interfaces: Seq::empty(),
        ips: spec_bundle_ips(r.ip4) + spec_bundle_ips(r.ip6),
        routes: spec_bundle_routes(r.ip4) + spec_bundle_routes(r.ip6),
        dns: r.dns,
    }
}

/// The first address of the requested family in list order, if any.
pub open spec fn spec_first_family(ips: Seq<CNI100IPAddress>, v4: bool) -> Option<CNI100IPAddress>
    decreases ips.len(),
{
    if ips.len() == 0 {
        None
    } else if ips[0].address.ip.spec_is_ipv4() == v4 {
        Some(ips[0])
    } else {
        spec_first_family(ips.drop_first(), v4)
    }
}

/// The routes whose destination is of the requested family, in order.
pub open spec fn spec_family_routes(rs: Seq<Route>, v4: bool) -> Seq<Route> {
    rs.filter(|r: Route| r.dst.ip.spec_is_ipv4() == v4)
}

/// What writing a canonical result in the oldest generation yields: for
/// each family, the first address of that family becomes the bundle —
/// later addresses of the same family are dropped — and the routes are
/// partitioned by destination family; interfaces are dropped.
pub open spec fn spec_020_from_latest(l: Cni100ResultView, ver: Seq<char>) -> Cni020ResultView {
    Cni020ResultView {
        cni_version: ver,
        ip4: match spec_first_family(l.ips, true) {
            Some(a) => Some(
                Cni020IpView {
                    address: a.address,
                    gateway: a.gateway,
                    routes: spec_family_routes(l.routes, true),
                },
            ),
            None => None,
        },
        ip6: match spec_first_family(l.ips, false) {
            Some(a) => Some(
                Cni020IpView {
                    address: a.address,
                    gateway: a.gateway,
                    routes: spec_family_routes(l.routes, false),
                },
            ),
            None => None,
        },
        dns: l.dns,
    }
}

/// The first address of the requested family, as `spec_first_family`
/// names it.
fn first_family(ips: &Vec<CNI100IPAddress>, v4: bool) -> (r: Option<CNI100IPAddress>)
    ensures
        r == spec_first_family(ips@, v4),
{
    let mut i: usize = 0;
    proof {
        assert(ips@.skip(0) =~= ips@);
    }
    while i < ips.len()
        invariant
            0 <= i <= ips@.len(),
            spec_first_family(ips@, v4) == spec_first_family(ips@.skip(i as int), v4),
            forall|j: int| 0 <= j < i ==> (ips@[j].address.ip.spec_is_ipv4() != v4),
        decreases ips@.len() - i,
    {
        let c = ips[i];
        proof {
            assert(ips@.skip(i as int)[0] == ips@[i as int]);
            assert(ips@.skip(i as int).drop_first() =~= ips@.skip(i + 1));
        }
        if c.address.ip.is_ipv4() == v4 {
            return Some(c);
        }
        i += 1;
    }
    proof {
        assert(ips@.skip(ips@.len() as int) =~= Seq::<CNI100IPAddress>::empty());
    }
    None
}

/// The routes of the requested family, as `spec_family_routes` names
/// them.
fn family_routes(rs: &Vec<Route>, v4: bool) -> (r: Vec<Route>)
    ensures
        r@ == spec_family_routes(rs@, v4),
{
    let mut out: Vec<Route> = Vec::new();
    let mut i: usize = 0;
    proof {
        reveal(Seq::filter);
        assert(rs@.take(0) =~= Seq::<Route>::empty());
    }
    while i < rs.len()
        invariant
            0 <= i <= rs@.len(),
            out@ == spec_family_routes(rs@.take(i as int), v4),
        decreases rs@.len() - i,
    {
        let c = rs[i];
        proof {
            reveal(Seq::filter);
            assert(rs@.take(i + 1).drop_last() =~= rs@.take(i as int));
            assert(rs@.take(i + 1).last() == rs@[i as int]);
        }
        if c.dst.ip.is_ipv4() == v4 {
            out.push(c);
        }
        i += 1;
    }
    proof {
        assert(rs@.take(rs@.len() as int) =~= rs@);
    }
    out
}

impl CNI020Result {
    /// Converts this result to the canonical generation.
    pub fn convert_to_latest(&self) -> (r: CNI100Result)
        ensures
            r@ == spec_020_to_latest(self@),
    {
        let mut ips: Vec<CNI100IPAddress> = Vec::new();
        let mut routes: Vec<Route> = Vec::new();
        match &self.ip4 {
            Some(a) => {
                ips.push(CNI100IPAddress { interface: None, address: a.address, gateway: a.gateway });
                let mut r4 = clone_routes(&a.routes);
                routes.append(&mut r4);
            },
            None => {},
        }
        match &self.ip6 {
            Some(a) => {
                ips.push(CNI100IPAddress { interface: None, address: a.address, gateway: a.gateway });
                let mut r6 = clone_routes(&a.routes);
                routes.append(&mut r6);
            },
            None => {},
        }
        let r = CNI100Result {
            cni_version: "1.0.0".to_owned(),
            interfaces: Vec::new(),
            ips,
            routes,
            dns: clone_dns(&self.dns),
        };
        proof {
            assert(r@.ips =~= spec_020_to_latest(self@).ips);
            assert(r@.routes =~= spec_020_to_latest(self@).routes);
            assert(r@.interfaces =~= Seq::<InterfaceView>::empty());
            assert(r@ =~~= spec_020_to_latest(self@));
        }
        r
    }

    /// Writes a canonical result in this generation, stamped with the
    /// requested version text.
    pub fn convert_from_latest(latest: &CNI100Result, cni_version: &str) -> (r: CNI020Result)
        ensures
            r@ == spec_020_from_latest(latest@, cni_version@),
    {
        let v4addr = first_family(&latest.ips, true);
        let v6addr = first_family(&latest.ips, false);
        let ip4 = match v4addr {
            Some(a) => Some(
                CNI020IPAddress {
                    address: a.address,
                    gateway: a.gateway,
                    routes: family_routes(&latest.routes, true),
                },
            ),
            None => None,
        };
        let ip6 = match v6addr {
            Some(a) => Some(
                CNI020IPAddress {
                    address: a.address,
                    gateway: a.gateway,
                    routes: family_routes(&latest.routes, false),
                },
            ),
            None => None,
        };
        let r = CNI020Result { cni_version: cni_version.to_owned(), ip4, ip6, dns: clone_dns(&latest.dns) };
        proof {
            assert(r@ =~~= spec_020_from_latest(latest@, cni_version@));
        }
        r
    }
}

/// A filter keeps a sequence whose members all pass, and empties one
/// whose members all fail.
proof fn lemma_filter_uniform(rs: Seq<Route>, pred: spec_fn(Route) -> bool)
    ensures
        (forall|i: int| 0 <= i < rs.len() ==> pred(#[trigger] rs[i])) ==> rs.filter(pred) == rs,
        (forall|i: int| 0 <= i < rs.len() ==> !pred(#[trigger] rs[i])) ==> rs.filter(pred)
            == Seq::<Route>::empty(),
    decreases rs.len(),
{
    reveal(Seq::filter);
    if rs.len() > 0 {
        let p = rs.drop_last();
        assert(forall|i: int| 0 <= i < p.len() ==> #[trigger] p[i] == rs[i]);
        lemma_filter_uniform(p, pred);
        if forall|i: int| 0 <= i < rs.len() ==> pred(#[trigger] rs[i]) {
            assert(rs.filter(pred) == p.filter(pred).push(rs.last()));
            assert(p.filter(pred).push(rs.last()) =~= rs);
        }
    }
}

/// The canonical list built from the two bundles hands each family back
/// its own entry.
proof fn lemma_bundle_first_family(g: Cni020ResultView)
    requires
        match g.ip4 {
            Some(a) => a.address.ip.spec_is_ipv4(),
            None => true,
        },
        match g.ip6 {
            Some(a) => a.address.ip.spec_is_ipv6(),
            None => true,
        },
    ensures
        spec_first_family(spec_bundle_ips(g.ip4) + spec_bundle_ips(g.ip6), true) == (match g.ip4 {
            Some(a) => Some(
                CNI100IPAddress { interface: None, address: a.address, gateway: a.gateway },
            ),
            None => None,
        }),
        spec_first_family(spec_bundle_ips(g.ip4) + spec_bundle_ips(g.ip6), false) == (match g.ip6 {
            Some(a) => Some(
                CNI100IPAddress { interface: None, address: a.address, gateway: a.gateway },
            ),
            None => None,
        }),
{
    let i4 = spec_bundle_ips(g.ip4);
    let i6 = spec_bundle_ips(g.ip6);
    let ips = i4 + i6;
    match g.ip4 {
        Some(a4) => {
            assert(ips[0] == i4[0]);
            assert(ips[0].address.ip.spec_is_ipv4());
            match g.ip6 {
                Some(a6) => {
                    assert(ips.len() == 2);
                    assert(ips[1] == i6[0]);
                    assert(ips.drop_first() =~= i6);
                    assert(!i6[0].address.ip.spec_is_ipv4());
                    assert(i6.drop_first() =~= Seq::<CNI100IPAddress>::empty());
                    assert(spec_first_family(i6, false) == Some(i6[0]));
                },
                None => {
                    assert(ips.len() == 1);
                    assert(ips.drop_first() =~= Seq::<CNI100IPAddress>::empty());
                    assert(spec_first_family(ips, false) is None);
                },
            }
        },
        None => {
            assert(ips =~= i6);
            match g.ip6 {
                Some(a6) => {
                    assert(ips.len() == 1);
                    assert(!ips[0].address.ip.spec_is_ipv4());
                    assert(ips.drop_first() =~= Seq::<CNI100IPAddress>::empty());
                    assert(spec_first_family(ips, false) == Some(ips[0]));
                    assert(spec_first_family(Seq::<CNI100IPAddress>::empty(), true) is None);
                    assert(spec_first_family(ips, true) is None);
                },
                None => {
                    assert(ips =~= Seq::<CNI100IPAddress>::empty());
                },
            }
        },
    }
}

/// The concatenated route lists split back into the two bundles.
proof fn lemma_bundle_routes(g: Cni020ResultView)
    requires
        match g.ip4 {
            Some(a) => forall|i: int|
                0 <= i < a.routes.len() ==> (#[trigger] a.routes[i]).dst.ip.spec_is_ipv4(),
            None => true,
        },
        match g.ip6 {
            Some(a) => forall|i: int|
                0 <= i < a.routes.len() ==> (#[trigger] a.routes[i]).dst.ip.spec_is_ipv6(),
            None => true,
        },
    ensures
        spec_family_routes(spec_bundle_routes(g.ip4) + spec_bundle_routes(g.ip6), true)
            == spec_bundle_routes(g.ip4),
        spec_family_routes(spec_bundle_routes(g.ip4) + spec_bundle_routes(g.ip6), false)
            == spec_bundle_routes(g.ip6),
{
    let r4 = spec_bundle_routes(g.ip4);
    let r6 = spec_bundle_routes(g.ip6);
    let is4 = (|r: Route| r.dst.ip.spec_is_ipv4() == true);
    let is6 = (|r: Route| r.dst.ip.spec_is_ipv4() == false);
    Seq::filter_distributes_over_add(r4, r6, is4);
    Seq::filter_distributes_over_add(r4, r6, is6);
    lemma_filter_uniform(r4, is4);
    lemma_filter_uniform(r6, is4);
    lemma_filter_uniform(r4, is6);
    lemma_filter_uniform(r6, is6);
    assert(spec_family_routes(r4 + r6, true) =~= r4);
    assert(spec_family_routes(r4 + r6, false) =~= r6);
}

/// Writing an oldest-generation result in the canonical form and reading
/// it back gives the result: nothing the old generation can say is lost.
/// The hypotheses say the result is well formed in the old generation's
/// sense: each family bundle holds an address of its own family and only
/// routes of that family.
pub proof fn lemma_gen_a_round_trip(g: Cni020ResultView, ver: Seq<char>)
    requires
        g.cni_version == ver,
        match g.ip4 {
            Some(a) => a.address.ip.spec_is_ipv4() && forall|i: int|
                0 <= i < a.routes.len() ==> (#[trigger] a.routes[i]).dst.ip.spec_is_ipv4(),
            None => true,
        },
        match g.ip6 {
            Some(a) => a.address.ip.spec_is_ipv6() && forall|i: int|
                0 <= i < a.routes.len() ==> (#[trigger] a.routes[i]).dst.ip.spec_is_ipv6(),
            None => true,
        },
    ensures
        spec_020_from_latest(spec_020_to_latest(g), ver) == g,
{
    let l = spec_020_to_latest(g);
    let out = spec_020_from_latest(l, ver);
    lemma_bundle_first_family(g);
    lemma_bundle_routes(g);
    assert(out.cni_version == g.cni_version);
    assert(out.dns == g.dns);
    match g.ip4 {
        Some(a) => {
            assert(out.ip4 is Some);
            assert(out.ip4->0 =~= a);
        },
        None => {
            assert(out.ip4 is None);
        },
    }
    match g.ip6 {
        Some(a) => {
            assert(out.ip6 is Some);
            assert(out.ip6->0 =~= a);
        },
        None => {
            assert(out.ip6 is None);
        },
    }
    assert(out =~~= g);
}

} // verus!

