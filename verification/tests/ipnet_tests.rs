use cni_ipam::ip::IpAddress;
use cni_ipam::ipnet::{parse_ip, format_ip, IPNet};

fn net(addr: &str, len: u8) -> IPNet {
    IPNet { ip: parse_ip(addr).unwrap(), netmask_len: len }
}

#[test]
fn test_ipnet_debug_v4() {
    assert_eq!(&net("10.1.1.1", 24).text(), "10.1.1.1/24");
}

#[test]
fn test_ipnet_debug_v6() {
    assert_eq!(&net("10::1", 64).text(), "10::1/64");
}

#[test]
fn test_ipnet_display_v4() {
    assert_eq!(&net("10.1.1.1", 24).text(), "10.1.1.1/24");
}

#[test]
fn test_ipnet_display_v6() {
    assert_eq!(&net("10::1", 64).text(), "10::1/64");
}

#[test]
fn test_serde_json_serialize_v4() {
    let test_var_v4 = net("10.1.1.1", 24);
    assert_eq!(format!("\"{}\"", test_var_v4.text()), "\"10.1.1.1/24\"");
}

#[test]
fn test_serde_json_serialize_6() {
    let test_var_v6 = net("10::1", 64);
    assert_eq!(format!("\"{}\"", test_var_v6.text()), "\"10::1/64\"");
}

#[test]
fn deserialize_ipnet_v4() {
    let deserialize_ipnet = IPNet::from_str("1.1.1.1/24").unwrap();
    assert_eq!(deserialize_ipnet, net("1.1.1.1", 24));
}

#[test]
fn deserialize_ipnet_v6() {
    let deserialize_ipnet = IPNet::from_str("1::1/64").unwrap();
    assert_eq!(deserialize_ipnet, net("1::1", 64));
}

#[test]
fn parse_ipnet_fromstr_v4() {
    let parsed_ipnet = IPNet::from_str("1.1.1.1/24").unwrap();
    assert_eq!(parsed_ipnet, net("1.1.1.1", 24));
}

#[test]
fn parse_ipnet_fromstr_v6() {
    let parsed_ipnet = IPNet::from_str("ff02::1/64").unwrap();
    assert_eq!(parsed_ipnet, net("ff02::1", 64));
}

#[test]
fn parse_format_round_trips() {
    for text in [
        "0.0.0.0/0",
        "255.255.255.255/32",
        "192.168.0.1/24",
        "10.1.1.1/8",
        "::/0",
        "::1/128",
        "1::/16",
        "ff02::1/64",
        "2001:db8:0:1:1:1:1:1/64",
        "1:0:0:1::1/128",
        "fe80::204:61ff:fe9d:f156/10",
    ] {
        let first = IPNet::from_str(text).unwrap();
        let again = IPNet::from_str(&first.text()).unwrap();
        assert_eq!(first, again, "{}", text);
    }
}

#[test]
fn format_is_canonical() {
    // The printer compresses the first longest run of at least two zero
    // groups and keeps a single zero group plain.
    assert_eq!(&format_ip(&parse_ip("0:0:0:0:0:0:0:0").unwrap()), "::");
    assert_eq!(&format_ip(&parse_ip("0:0:0:0:0:0:0:1").unwrap()), "::1");
    assert_eq!(&format_ip(&parse_ip("1:0:0:0:0:0:0:0").unwrap()), "1::");
    assert_eq!(&format_ip(&parse_ip("1:0:0:1:0:0:0:1").unwrap()), "1:0:0:1::1");
    assert_eq!(&format_ip(&parse_ip("2001:db8:0:1:1:1:1:1").unwrap()), "2001:db8:0:1:1:1:1:1");
    assert_eq!(&format_ip(&parse_ip("0.0.0.0").unwrap()), "0.0.0.0");
    assert_eq!(&format_ip(&parse_ip("10.1.1.0").unwrap()), "10.1.1.0");
}

#[test]
fn network_address_v4() {
    let n = net("10.1.1.1", 24);
    assert_eq!(n.get_network_ip(), parse_ip("10.1.1.0").unwrap());
}

#[test]
fn network_address_v6() {
    let n = net("10::1", 64);
    assert_eq!(n.get_network_ip(), parse_ip("10::").unwrap());
}

#[test]
fn parse_rejects_bad_cidr() {
    assert!(IPNet::from_str("1.1.1.1/33").is_err());
    assert!(IPNet::from_str("bad-ip/24").is_err());
    assert!(IPNet::from_str("1.1.1.1").is_err());
    assert!(IPNet::from_str("10::1/129").is_err());
    assert!(IPNet::from_str("1.1.1.1/24/7").is_err());
    assert!(IPNet::from_str("1.1.1/24").is_err());
    assert!(IPNet::from_str("1.1.1.256/24").is_err());
    assert!(IPNet::from_str("01.1.1.1/24").is_err());
    assert!(IPNet::from_str("/24").is_err());
    assert!(IPNet::from_str("1.1.1.1/").is_err());
    assert!(IPNet::from_str("1::2::3/64").is_err());
    assert!(IPNet::from_str("1:2:3/64").is_err());
    assert!(IPNet::from_str("1:2:3:4:5:6:7:8:9/64").is_err());
}

#[test]
fn parse_accepts_both_families() {
    assert_eq!(parse_ip("0.0.0.1"), Some(IpAddress::V4(1)));
    assert_eq!(parse_ip("::2"), Some(IpAddress::V6(2)));
    assert_eq!(parse_ip("255.255.255.255"), Some(IpAddress::V4(u32::MAX)));
    assert_eq!(parse_ip("nonsense"), None);
}
