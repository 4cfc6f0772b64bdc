use cni_ipam::ipnet::{parse_ip, IPNet};
use cni_ipam::skel::{
    effective_version, get_args, get_cmdargs_env, result_for_version, version_generation,
    CmdArgsError, Generation, ResultError, VersionedResult,
};
use cni_ipam::types_020::CNI020Result;
use cni_ipam::types_040::CNI040Result;
use cni_ipam::types_100::{CNI100IPAddress, CNI100Interface, CNI100Result};
use cni_ipam::types_common::{Route, DNS};

#[test]
fn test_get_args() {
    let args_map = get_args("K=V;K2=V2");

    assert_eq!(args_map.get("K").unwrap(), "V");
    assert_eq!(args_map.get("K2").unwrap(), "V2");
}

#[test]
fn test_get_args2() {
    let args_map = get_args("K=V;K2=V2;");

    assert_eq!(args_map.get("K").unwrap(), "V");
    assert_eq!(args_map.get("K").unwrap(), "V");
    assert_eq!(args_map.get("K2").unwrap(), "V2");
}

#[test]
fn get_args_details() {
    let m = get_args("K=1;K=2;LONE;A=B=C");
    // a later duplicate wins, a lone key maps to the empty text, and a
    // segment with more than one `=` is dropped
    assert_eq!(m.get("K").unwrap(), "2");
    assert_eq!(m.get("LONE").unwrap(), "");
    assert!(m.get("A").is_none());
    assert!(m.get("MISSING").is_none());
}

#[test]
fn cmdargs_env_decides_by_command() {
    assert_eq!(
        get_cmdargs_env("ADD", "CNI_NETNS", Some("ns".to_string()), (true, true, false)),
        Ok("ns".to_string())
    );
    assert_eq!(
        get_cmdargs_env("ADD", "CNI_NETNS", None, (true, true, false)),
        Err(CmdArgsError::MissingArgs("CNI_NETNS"))
    );
    assert_eq!(
        get_cmdargs_env("DEL", "CNI_NETNS", None, (true, true, false)),
        Ok("".to_string())
    );
    assert_eq!(
        get_cmdargs_env("VERSION", "CNI_NETNS", None, (true, true, true)),
        Ok("".to_string())
    );
}

#[test]
fn version_generation_matches_exactly() {
    assert_eq!(version_generation("0.1.0"), Some(Generation::GenA));
    assert_eq!(version_generation("0.2.0"), Some(Generation::GenA));
    assert_eq!(version_generation("0.3.0"), Some(Generation::GenB));
    assert_eq!(version_generation("0.3.1"), Some(Generation::GenB));
    assert_eq!(version_generation("0.4.0"), Some(Generation::GenB));
    assert_eq!(version_generation("1.0.0"), Some(Generation::GenC));
    assert_eq!(version_generation("9.9.9"), None);
    assert_eq!(version_generation("0.2"), None);
    assert_eq!(version_generation(""), None);
}

fn sample_result() -> CNI100Result {
    CNI100Result {
        cni_version: "1.0.0".to_string(),
        interfaces: vec![CNI100Interface {
            name: "eth0".to_string(),
            mac: "aa:bb:cc:dd:ee:ff".to_string(),
            sandbox: "/var/run/netns/x".to_string(),
        }],
        ips: vec![
            CNI100IPAddress {
                interface: None,
                address: IPNet { ip: parse_ip("10.1.1.2").unwrap(), netmask_len: 24 },
                gateway: Some(parse_ip("10.1.1.1").unwrap()),
            },
            CNI100IPAddress {
                interface: None,
                address: IPNet { ip: parse_ip("10::2").unwrap(), netmask_len: 64 },
                gateway: Some(parse_ip("10::1").unwrap()),
            },
        ],
        routes: vec![
            Route {
                dst: IPNet { ip: parse_ip("0.0.0.0").unwrap(), netmask_len: 0 },
                gw: parse_ip("10.1.1.1").unwrap(),
            },
            Route {
                dst: IPNet { ip: parse_ip("::").unwrap(), netmask_len: 0 },
                gw: parse_ip("10::1").unwrap(),
            },
        ],
        dns: DNS::default(),
    }
}

#[test]
fn bridge_rejects_unsupported_version_both_directions() {
    let r = sample_result();
    match result_for_version(&r, "9.9.9") {
        Err(ResultError::CNIVersionError(v)) => assert_eq!(v, "9.9.9"),
        other => panic!("expected a version error, got {:?}", other),
    }
    // reading: an unrecognized version names no generation to decode as
    assert_eq!(version_generation("9.9.9"), None);
}

#[test]
fn bridge_renders_gen_a() {
    let r = sample_result();
    match result_for_version(&r, "0.2.0") {
        Ok(VersionedResult::V020(g)) => {
            assert_eq!(g.cni_version, "0.2.0");
            let ip4 = g.ip4.expect("an IPv4 bundle");
            assert_eq!(ip4.address, IPNet { ip: parse_ip("10.1.1.2").unwrap(), netmask_len: 24 });
            assert_eq!(ip4.gateway, Some(parse_ip("10.1.1.1").unwrap()));
            assert_eq!(ip4.routes.len(), 1);
            assert_eq!(ip4.routes[0].gw, parse_ip("10.1.1.1").unwrap());
            let ip6 = g.ip6.expect("an IPv6 bundle");
            assert_eq!(ip6.address, IPNet { ip: parse_ip("10::2").unwrap(), netmask_len: 64 });
            assert_eq!(ip6.routes.len(), 1);
        },
        other => panic!("expected the oldest generation, got {:?}", other),
    }
}

#[test]
fn bridge_renders_gen_b_and_back() {
    let r = sample_result();
    match result_for_version(&r, "0.3.1") {
        Ok(VersionedResult::V040(g)) => {
            assert_eq!(g.cni_version, "0.3.1");
            assert_eq!(g.ips.len(), 2);
            assert_eq!(g.ips[0].version, "4");
            assert_eq!(g.ips[1].version, "6");
            assert_eq!(g.interfaces.len(), 1);
            assert_eq!(g.interfaces[0].name, "eth0");
            let back = g.convert_to_latest();
            assert_eq!(back.cni_version, "1.0.0");
            assert_eq!(back.interfaces, r.interfaces);
            assert_eq!(back.ips, r.ips);
            assert_eq!(back.routes, r.routes);
        },
        other => panic!("expected the middle generation, got {:?}", other),
    }
}

#[test]
fn gen_a_round_trip_keeps_the_result() {
    // a canonical result expressible in the oldest generation survives
    // the trip out and back
    let r = sample_result();
    let out = CNI020Result::convert_from_latest(&r, "0.2.0");
    let back = out.convert_to_latest();
    assert_eq!(back.cni_version, "1.0.0");
    assert!(back.interfaces.is_empty());
    assert_eq!(back.ips, r.ips);
    assert_eq!(back.routes, r.routes);
    assert_eq!(back.dns, r.dns);
}

#[test]
fn gen_a_drops_extra_addresses_of_a_family() {
    let mut r = sample_result();
    r.ips.push(CNI100IPAddress {
        interface: None,
        address: IPNet { ip: parse_ip("10.1.1.3").unwrap(), netmask_len: 24 },
        gateway: None,
    });
    let out = CNI020Result::convert_from_latest(&r, "0.1.0");
    // the first IPv4 entry in list order wins
    assert_eq!(
        out.ip4.unwrap().address,
        IPNet { ip: parse_ip("10.1.1.2").unwrap(), netmask_len: 24 }
    );
}

#[test]
fn gen_b_identity_on_interfaces() {
    let iface = CNI100Interface {
        name: "net1".to_string(),
        mac: "00:11:22:33:44:55".to_string(),
        sandbox: "".to_string(),
    };
    let down = cni_ipam::types_040::CNI040Interface::convert_from_latest(&iface);
    assert_eq!(down.name, "net1");
    let up = down.convert_to_latest();
    assert_eq!(up, iface);
}

#[test]
fn gen_c_is_identity() {
    let r = sample_result();
    match result_for_version(&r, "1.0.0") {
        Ok(VersionedResult::V100(g)) => assert_eq!(g, r),
        other => panic!("expected the canonical generation, got {:?}", other),
    }
}

#[test]
fn effective_version_prefers_embedded() {
    assert_eq!(effective_version(Some("0.3.0".to_string()), "1.0.0"), "0.3.0");
    assert_eq!(effective_version(None, "1.0.0"), "1.0.0");
}

#[test]
fn gen_a_conversion_to_latest() {
    let r = sample_result();
    let out = CNI020Result::convert_from_latest(&r, "0.2.0");
    let lifted: CNI100Result = out.convert_to_latest();
    assert_eq!(lifted.ips.len(), 2);
    assert_eq!(lifted.routes.len(), 2);
    let empty = CNI020Result {
        cni_version: "0.2.0".to_string(),
        ip4: None,
        ip6: None,
        dns: DNS::default(),
    };
    let lifted = empty.convert_to_latest();
    assert!(lifted.ips.is_empty());
    assert!(lifted.routes.is_empty());
}

#[test]
fn gen_b_result_version_stamp() {
    let r = sample_result();
    let out = CNI040Result::convert_from_latest(&r, "0.4.0");
    assert_eq!(out.cni_version, "0.4.0");
    assert_eq!(out.routes, r.routes);
    assert_eq!(out.dns, r.dns);
}
