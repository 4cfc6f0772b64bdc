use cni_ipam::ip::{get_address_index, AddressIndexError, IpAddress};
use cni_ipam::ipnet::parse_ip;
use cni_ipam::kube_crd::{
    get_ipallocation_baseip, get_ipallocation_names, NetworkIP, NetworkIPAllocations,
    NetworkIPRange, NetworkIPSpec, Route,
};
use cni_ipam::redisdb::{
    add_pod_information, check_network_bitmap, create_network_bitmap, del_pod_information,
    get_baseip_key_name, get_bitmap_key_name, get_first_available_ip, get_pod_info_key_name,
    return_ip, AllocError, PoolState,
};

fn allocation(name: &str, subnet: &str, exclude: Vec<&str>) -> NetworkIPAllocations {
    NetworkIPAllocations {
        name: name.to_string(),
        subnet: subnet.to_string(),
        gateway: None,
        range: None,
        exclude: exclude.into_iter().map(|e| parse_ip(e).unwrap()).collect(),
        route: Vec::new(),
    }
}

fn network(allocs: Vec<NetworkIPAllocations>) -> NetworkIP {
    NetworkIP {
        namespace: "default".to_string(),
        name: "testnet".to_string(),
        spec: NetworkIPSpec { ip_allocations: allocs },
    }
}

fn initialized_pool(subnet: &str, exclude: Vec<&str>) -> PoolState {
    let mut pools = vec![PoolState::new()];
    let net = network(vec![allocation("pool0", subnet, exclude)]);
    create_network_bitmap(&mut pools, &net);
    pools.pop().unwrap()
}

#[test]
fn allocate_on_uninitialized_pool_fails() {
    let mut pool = PoolState::new();
    assert_eq!(get_first_available_ip(&mut pool), Err(AllocError::BaseAddressMissing));
}

#[test]
fn first_allocation_returns_the_base_address() {
    let mut pool = initialized_pool("10.1.1.0/24", vec![]);
    // the base is the subnet's first host address
    assert_eq!(get_first_available_ip(&mut pool), Ok(parse_ip("10.1.1.1").unwrap()));
}

#[test]
fn exclusions_are_never_handed_out() {
    // base+3 is excluded: three allocations return base, base+1, base+2
    let mut pool = initialized_pool("10.1.1.0/24", vec!["10.1.1.4"]);
    assert_eq!(get_first_available_ip(&mut pool), Ok(parse_ip("10.1.1.1").unwrap()));
    assert_eq!(get_first_available_ip(&mut pool), Ok(parse_ip("10.1.1.2").unwrap()));
    assert_eq!(get_first_available_ip(&mut pool), Ok(parse_ip("10.1.1.3").unwrap()));
    // and the next one skips the excluded address
    assert_eq!(get_first_available_ip(&mut pool), Ok(parse_ip("10.1.1.5").unwrap()));
}

#[test]
fn release_then_allocate_returns_the_released_address() {
    let mut pool = initialized_pool("10.1.1.0/24", vec![]);
    let a = get_first_available_ip(&mut pool).unwrap();
    let b = get_first_available_ip(&mut pool).unwrap();
    let c = get_first_available_ip(&mut pool).unwrap();
    assert_ne!(a, b);
    assert_ne!(b, c);
    assert_ne!(a, c);
    assert_eq!(return_ip(&mut pool, b), Ok(()));
    assert_eq!(get_first_available_ip(&mut pool), Ok(b));
}

#[test]
fn release_of_never_allocated_address_is_a_no_op() {
    let mut pool = initialized_pool("10.1.1.0/24", vec![]);
    // clearing an already-clear bit succeeds and moves nothing
    assert_eq!(return_ip(&mut pool, parse_ip("10.1.1.9").unwrap()), Ok(()));
    assert_eq!(get_first_available_ip(&mut pool), Ok(parse_ip("10.1.1.1").unwrap()));
}

#[test]
fn release_rejects_the_wrong_family() {
    let mut pool = initialized_pool("10.1.1.0/24", vec![]);
    assert_eq!(
        return_ip(&mut pool, parse_ip("10::1").unwrap()),
        Err(AddressIndexError::FailedAnyhow)
    );
    let mut empty = PoolState::new();
    assert_eq!(
        return_ip(&mut empty, parse_ip("10.1.1.1").unwrap()),
        Err(AddressIndexError::FailedAnyhow)
    );
}

#[test]
fn release_rejects_an_offset_too_wide() {
    let mut pool = initialized_pool("::/0", vec![]);
    // an IPv6 address astronomically far from the base has no index
    assert_eq!(
        return_ip(&mut pool, IpAddress::V6(u128::MAX)),
        Err(AddressIndexError::FailedCast)
    );
}

#[test]
fn ipv6_pool_allocates_from_its_base() {
    let mut pool = initialized_pool("10::/64", vec![]);
    assert_eq!(get_first_available_ip(&mut pool), Ok(parse_ip("10::").unwrap()));
    assert_eq!(get_first_available_ip(&mut pool), Ok(parse_ip("10::1").unwrap()));
}

#[test]
fn address_index_is_the_distance() {
    let base = parse_ip("10.1.1.1").unwrap();
    assert_eq!(get_address_index(&base, &parse_ip("10.1.1.5").unwrap()), Ok(4));
    assert_eq!(get_address_index(&base, &parse_ip("10.1.1.1").unwrap()), Ok(0));
    // below the base the saturating difference is zero
    assert_eq!(get_address_index(&base, &parse_ip("10.1.1.0").unwrap()), Ok(0));
    assert_eq!(
        get_address_index(&base, &parse_ip("10::1").unwrap()),
        Err(AddressIndexError::FailedAnyhow)
    );
}

#[test]
fn base_address_comes_from_range_or_subnet() {
    let mut a = allocation("p", "10.1.1.0/24", vec![]);
    assert_eq!(get_ipallocation_baseip(&a), parse_ip("10.1.1.1").unwrap());
    a.range = Some(NetworkIPRange { start: parse_ip("10.1.1.100").unwrap(), end: None });
    assert_eq!(get_ipallocation_baseip(&a), parse_ip("10.1.1.100").unwrap());
    // a /31 network has no separate network address to skip
    let b = allocation("p", "10.1.1.0/31", vec![]);
    assert_eq!(get_ipallocation_baseip(&b), parse_ip("10.1.1.0").unwrap());
    // an IPv6 subnet starts at its network address
    let c = allocation("p", "10::/64", vec![]);
    assert_eq!(get_ipallocation_baseip(&c), parse_ip("10::").unwrap());
}

#[test]
fn pool_keys_are_namespaced() {
    let net = network(vec![allocation("pool0", "10.1.1.0/24", vec![])]);
    assert_eq!(get_bitmap_key_name(&net, "pool0"), "default/testnet/pool0/bitmap");
    assert_eq!(get_baseip_key_name(&net, "pool0"), "default/testnet/pool0/baseip");
    assert_eq!(
        get_pod_info_key_name(&net, "pool0", &parse_ip("10.1.1.2").unwrap()),
        "default/testnet/pool0/10.1.1.2"
    );
    assert_eq!(get_ipallocation_names(&net), vec!["default/testnet/pool0/bitmap".to_string()]);
}

#[test]
fn counting_initialized_pools() {
    let mut pools = vec![PoolState::new(), PoolState::new()];
    assert_eq!(check_network_bitmap(&pools), 0);
    let net = network(vec![
        allocation("a", "10.1.1.0/24", vec!["10.1.1.2"]),
        allocation("b", "10.2.0.0/16", vec![]),
    ]);
    create_network_bitmap(&mut pools, &net);
    // only the pool with an exclusion has written a bitmap value
    assert_eq!(check_network_bitmap(&pools), 1);
    let _ = get_first_available_ip(&mut pools[1]);
    assert_eq!(check_network_bitmap(&pools), 2);
}

#[test]
fn ownership_records_follow_the_address() {
    let mut pool = initialized_pool("10.1.1.0/24", vec![]);
    let a = get_first_available_ip(&mut pool).unwrap();
    add_pod_information(&mut pool, &a, "ns/pod cid".to_string());
    assert_eq!(pool.owners.len(), 1);
    assert_eq!(pool.owners[0].0, "10.1.1.1");
    assert_eq!(pool.owners[0].1, "ns/pod cid");
    del_pod_information(&mut pool, &a);
    assert!(pool.owners.is_empty());
}

#[test]
fn reinitialization_keeps_allocated_bits() {
    let mut pools = vec![PoolState::new()];
    let net = network(vec![allocation("pool0", "10.1.1.0/24", vec![])]);
    create_network_bitmap(&mut pools, &net);
    let first = get_first_available_ip(&mut pools[0]).unwrap();
    assert_eq!(first, parse_ip("10.1.1.1").unwrap());
    // initializing again overwrites the base and exclusions but does not
    // clear the bit of the earlier allocation
    create_network_bitmap(&mut pools, &net);
    assert_eq!(get_first_available_ip(&mut pools[0]), Ok(parse_ip("10.1.1.2").unwrap()));
}

#[test]
fn configured_routes_parse_to_cidr_values() {
    let a = NetworkIPAllocations {
        name: "p".to_string(),
        subnet: "10.1.1.0/24".to_string(),
        gateway: Some(parse_ip("10.1.1.1").unwrap()),
        range: None,
        exclude: Vec::new(),
        route: vec![Route { dst: "0.0.0.0/0".to_string(), gw: parse_ip("10.1.1.1").unwrap() }],
    };
    let routes = a.get_cni_route();
    assert_eq!(routes.len(), 1);
    assert_eq!(routes[0].dst.netmask_len, 0);
    assert_eq!(routes[0].gw, parse_ip("10.1.1.1").unwrap());
    assert_eq!(a.get_network_ip(), parse_ip("10.1.1.0").unwrap());
}

#[test]
fn successive_allocations_are_distinct_and_dense() {
    // what each racing allocator commits through the store's conditional
    // write is one of these serialized transitions: offsets strictly
    // grow, so N successes hand out N distinct addresses with no free
    // offset skipped below the highest one
    let mut pool = initialized_pool("10.1.1.0/24", vec![]);
    let mut seen: Vec<IpAddress> = Vec::new();
    for step in 0u32..5 {
        let a = get_first_available_ip(&mut pool).unwrap();
        assert!(!seen.contains(&a));
        assert_eq!(a, IpAddress::V4(u32::from_be_bytes([10, 1, 1, 1]) + step));
        seen.push(a);
    }
}
