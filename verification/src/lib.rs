//! IP address management (IPAM) for a container-networking plugin: a CIDR
//! address value with parsing and printing, a canonical network-attachment
//! result model with bridges to the historical wire generations, and a
//! bitmap allocator over a pool of addresses backed by a shared key-value
//! store.

pub mod ip;
pub mod ip_text;
pub mod ipnet;
pub mod kube_crd;
pub mod redisdb;
pub mod skel;
pub mod text;
pub mod types_020;
pub mod types_040;
pub mod types_100;
pub mod types_common;
