//! The per-pool allocator state as the shared key-value store holds it:
//! a base address, a bitmap with one bit per allocatable offset, and the
//! ownership records of handed-out addresses, with the operations the
//! plugin performs on them.

use vstd::prelude::*;

use crate::ip::{get_address_index, AddressIndexError, IpAddress};
use crate::ipnet::{format_ip, spec_format_ip, spec_parse_ipnet};
use crate::kube_crd::{spec_first_host, spec_pool_key, NetworkIP, NetworkIPAllocations};
use crate::text::str_eq;

verus! {

/// A growable bit sequence, the highest-order bit of the first byte
/// first, every bit past the stored bytes reading as zero — exactly the
/// store's bitmap value.
#[derive(Clone, Debug, PartialEq, Eq)]
pub struct Bitmap {
    bytes: Vec<u8>,
}

impl Bitmap {
    /// How many bits the stored bytes cover.
    pub closed spec fn spec_len_bits(&self) -> int {
        self.bytes@.len() as int * 8
    }

    /// The bit at offset `i`; an offset past the stored bytes is zero.
    pub closed spec fn bit(&self, i: int) -> bool {
        0 <= i < self.bytes@.len() * 8 && (self.bytes@[i / 8] >> ((7 - (i % 8)) as u8)) & 1 == 1
    }

    /// The empty bitmap: no byte stored, every bit zero.
    pub fn new() -> (r: Bitmap)
        ensures
            r.spec_len_bits() == 0,
            forall|i: int| !r.bit(i),
    {
        Bitmap { bytes: Vec::new() }
    }

    /// Reads the bit at offset `i`.
    pub fn get_bit(&self, i: usize) -> (r: bool)
        ensures
            r == self.bit(i as int),
    {
        let k = i / 8;
        if k >= self.bytes.len() {
            proof {
                assert(i as int >= 8 * (i as int / 8));
                assert(8 * (i as int / 8) >= 8 * self.bytes@.len()) by (nonlinear_arith)
                    requires
                        i as int / 8 >= self.bytes@.len(),
                ;
            }
            return false;
        }
        let sh = (7 - (i % 8)) as u8;
        let b = self.bytes[k];
        proof {
            assert((i as int) < 8 * self.bytes@.len()) by (nonlinear_arith)
                requires
                    i as int / 8 < self.bytes@.len(),
                    i >= 0,
            ;
        }
        ((b >> sh) & 1) == 1
    }

    /// Writes the bit at offset `i`, growing the stored bytes with
    /// zeros as far as needed; every other bit keeps its value.
    pub fn set_bit(&mut self, i: usize, v: bool)
        ensures
            final(self).bit(i as int) == v,
            forall|j: int| j != i as int ==> final(self).bit(j) == old(self).bit(j),
            final(self).spec_len_bits() >= old(self).spec_len_bits(),
            final(self).spec_len_bits() > i as int,
            final(self).spec_len_bits() == old(self).spec_len_bits() || final(self).spec_len_bits()
                <= i as int + 8,
    {
        let k = i / 8;
        proof {
            assert(8 * (i as int / 8) <= i as int);
        }
        while self.bytes.len() <= k
            invariant
                forall|j: int| self.bit(j) == old(self).bit(j),
                self.spec_len_bits() >= old(self).spec_len_bits(),
                self.spec_len_bits() == old(self).spec_len_bits() || self.bytes@.len() <= k + 1,
            decreases k + 1 - self.bytes@.len(),
        {
            self.bytes.push(0u8);
            proof {
                let n = self.bytes@.len() as int;
                assert forall|j: int| self.bit(j) == old(self).bit(j) by {
                    if 0 <= j && j / 8 == n - 1 {
                        assert(self.bytes@[j / 8] == 0u8);
                        let s8: u8 = (7 - (j % 8)) as u8;
                        assert((0u8 >> s8) & 1 == 0) by (bit_vector);
                        assert(j >= 8 * (n - 1)) by (nonlinear_arith)
                            requires
                                j / 8 == n - 1,
                                j >= 0,
                        ;
                    }
                }
            }
        }
        let sh = (7 - (i % 8)) as u8;
        let b = self.bytes[k];
        let nb = if v {
            b | (1u8 << sh)
        } else {
            b & !(1u8 << sh)
        };
        self.bytes.set(k, nb);
        proof {
            let ki = i as int / 8;
            let shi = (7 - (i as int % 8)) as u8;
            assert((i as int) < 8 * self.bytes@.len()) by (nonlinear_arith)
                requires
                    i as int / 8 < self.bytes@.len(),
                    i >= 0,
            ;
            if v {
                assert(((b | (1u8 << shi)) >> shi) & 1 == 1) by (bit_vector)
                    requires
                        shi < 8,
                ;
            } else {
                assert(((b & !(1u8 << shi)) >> shi) & 1 == 0) by (bit_vector)
                    requires
                        shi < 8,
                ;
            }
            assert forall|j: int| j != i as int implies self.bit(j) == old(self).bit(j) by {
                if 0 <= j && j / 8 == ki {
                    let t = (7 - (j % 8)) as u8;
                    assert(j == 8 * (j / 8) + j % 8);
                    assert(i as int == 8 * ki + i as int % 8);
                    assert(t != shi);
                    assert(t < 8 && shi < 8);
                    assert(((b | (1u8 << shi)) >> t) & 1 == (b >> t) & 1) by (bit_vector)
                        requires
                            t < 8,
                            shi < 8,
                            t != shi,
                    ;
                    assert(((b & !(1u8 << shi)) >> t) & 1 == (b >> t) & 1) by (bit_vector)
                        requires
                            t < 8,
                            shi < 8,
                            t != shi,
                    ;
                }
            }
        }
    }

    /// The first clear offset at or after `i`.
    pub open spec fn first_free_from(&self, i: int) -> int
        decreases self.spec_len_bits() - i,
    {
        if i >= self.spec_len_bits() || !self.bit(i) {
            i
        } else {
            self.first_free_from(i + 1)
        }
    }

    /// The lowest clear offset of the whole bitmap.
    pub open spec fn spec_first_free(&self) -> int {
        self.first_free_from(0)
    }

    /// The first clear offset is clear, everything before it from the
    /// start of the search is set, and it lies within one step of the
    /// stored bits.
    pub proof fn lemma_first_free_from(&self, i: int)
        requires
            0 <= i <= self.spec_len_bits(),
        ensures
            i <= self.first_free_from(i) <= self.spec_len_bits(),
            !self.bit(self.first_free_from(i)),
            forall|j: int| i <= j < self.first_free_from(i) ==> self.bit(j),
        decreases self.spec_len_bits() - i,
    {
        if i < self.spec_len_bits() && self.bit(i) {
            self.lemma_first_free_from(i + 1);
        }
    }

    /// A bitmap over the given bytes, as the store hands them back.
    pub fn from_bytes(bytes: Vec<u8>) -> (r: Bitmap)
        ensures
            r.spec_len_bits() == bytes@.len() * 8,
            forall|i: int| #[trigger] r.bit(i) == byte_bit(bytes@, i),
    {
        Bitmap { bytes }
    }

    /// The stored bytes, to hand to the store.
    pub fn to_bytes(self) -> (r: Vec<u8>)
        ensures
            r@.len() * 8 == self.spec_len_bits(),
            forall|i: int| #[trigger] self.bit(i) == byte_bit(r@, i),
    {
        self.bytes
    }

    /// How many bytes the bitmap stores.
    pub fn stored_bytes(&self) -> (r: usize)
        ensures
            r as int * 8 == self.spec_len_bits(),
    {
        self.bytes.len()
    }

    /// Scans for the lowest clear offset.
    pub fn first_zero_bit(&self) -> (r: usize)
        requires
            self.spec_len_bits() < usize::MAX,
        ensures
            r as int == self.spec_first_free(),
            r as int <= self.spec_len_bits(),
            !self.bit(r as int),
            forall|j: int| 0 <= j < r as int ==> self.bit(j),
    {
        let mut i: usize = 0;
        while self.get_bit(i)
            invariant
                0 <= i <= self.spec_len_bits() < usize::MAX,
                self.spec_first_free() == self.first_free_from(i as int),
                forall|j: int| 0 <= j < i as int ==> self.bit(j),
            decreases self.spec_len_bits() - i,
        {
            i += 1;
        }
        proof {
            self.lemma_first_free_from(i as int);
        }
        i
    }
}

/// The bit at offset `i` of a byte string, the highest-order bit of the
/// first byte first.
pub open spec fn byte_bit(bytes: Seq<u8>, i: int) -> bool {
    0 <= i < bytes.len() * 8 && (bytes[i / 8] >> ((7 - (i % 8)) as u8)) & 1 == 1
}

/// Where the next free offset lands once an offset below it is cleared:
/// when every offset below `i` is taken and the store then clears `i`,
/// the next allocation observes `i` as the lowest free offset — a
/// released address is handed out again first.
pub proof fn lemma_release_then_allocate(c: Bitmap, i: int)
    requires
        0 <= i,
        forall|j: int| 0 <= j < i ==> c.bit(j),
        !c.bit(i),
    ensures
        c.spec_first_free() == i,
{
    lemma_first_free_at(c, 0, i);
}

/// The search from `k` lands on `i` when everything from `k` up to `i`
/// is taken and `i` is free.
proof fn lemma_first_free_at(c: Bitmap, k: int, i: int)
    requires
        0 <= k <= i,
        forall|j: int| k <= j < i ==> c.bit(j),
        !c.bit(i),
    ensures
        c.first_free_from(k) == i,
    decreases i - k,
{
    if k < i {
        assert(c.bit(k));
        lemma_first_free_at(c, k + 1, i);
    }
}

/// Claimed offsets grow strictly: once the lowest free offset is set,
/// the next lowest free offset is strictly higher. Across any number of
/// racing allocators, serialized by the store's conditional commit, each
/// successful allocation therefore claims a fresh offset — no address is
/// handed out twice, and no free offset below a claimed one is skipped.
pub proof fn lemma_allocate_monotonic(b: Bitmap, c: Bitmap)
    requires
        b.spec_first_free() >= 0,
        forall|j: int| j != b.spec_first_free() ==> c.bit(j) == b.bit(j),
        c.bit(b.spec_first_free()),
    ensures
        c.spec_first_free() > b.spec_first_free(),
{
    let f = b.spec_first_free();
    b.lemma_first_free_from(0);
    let g = c.spec_first_free();
    c.lemma_first_free_from(0);
    if g <= f {
        assert(c.bit(g));
    }
}

} // verus!

verus! {

/// Appends `ns/name/alloc/` to a fresh text.
fn push_key_prefix(networkip: &NetworkIP, alloc_name: &str) -> (r: String)
    ensures
        r@ == networkip.namespace@ + seq!['/'] + networkip.name@ + seq!['/'] + alloc_name@ + seq![
            '/',
        ],
{
    proof {
        reveal_strlit("/");
        assert("/"@ =~= seq!['/']);
    }
    let mut r = String::new();
    r.append(networkip.namespace.as_str());
    r.append("/");
    r.append(networkip.name.as_str());
    r.append("/");
    r.append(alloc_name);
    r.append("/");
    proof {
        assert(r@ =~= networkip.namespace@ + seq!['/'] + networkip.name@ + seq!['/'] + alloc_name@
            + seq!['/']);
    }
    r
}

/// The store key of an allocation's bitmap.
pub fn get_bitmap_key_name(networkip: &NetworkIP, alloc_name: &str) -> (r: String)
    ensures
        r@ == spec_pool_key(networkip.namespace@, networkip.name@, alloc_name@, "bitmap"@),
{
    let mut r = push_key_prefix(networkip, alloc_name);
    r.append("bitmap");
    proof {
        assert(r@ =~= spec_pool_key(networkip.namespace@, networkip.name@, alloc_name@, "bitmap"@));
    }
    r
}

/// The store key of an allocation's base address.
pub fn get_baseip_key_name(networkip: &NetworkIP, alloc_name: &str) -> (r: String)
    ensures
        r@ == spec_pool_key(networkip.namespace@, networkip.name@, alloc_name@, "baseip"@),
{
    let mut r = push_key_prefix(networkip, alloc_name);
    r.append("baseip");
    proof {
        assert(r@ =~= spec_pool_key(networkip.namespace@, networkip.name@, alloc_name@, "baseip"@));
    }
    r
}

/// The store key of one address's ownership record.
pub fn get_pod_info_key_name(networkip: &NetworkIP, alloc_name: &str, ip: &IpAddress) -> (r: String)
    ensures
        r@ == spec_pool_key(networkip.namespace@, networkip.name@, alloc_name@, spec_format_ip(*ip)),
{
    let mut r = push_key_prefix(networkip, alloc_name);
    let t = format_ip(ip);
    r.append(t.as_str());
    proof {
        assert(r@ =~= spec_pool_key(
            networkip.namespace@,
            networkip.name@,
            alloc_name@,
            spec_format_ip(*ip),
        ));
    }
    r
}

/// How an allocation fails.
#[derive(Clone, Copy, Debug, PartialEq, Eq, Structural)]
pub enum AllocError {
    /// The store could not be reached.
    StoreUnavailable,
    /// The pool has no recorded base address: it was never initialized.
    BaseAddressMissing,
    /// The free offset does not fit the address family's integer width.
    IndexOverflow,
}

/// One pool's state as the store holds it: the base address — absent
/// until the pool is initialized — the allocation bitmap, and the
/// ownership records, each an address text with its free-text payload.
#[derive(Clone, Debug, PartialEq, Eq)]
pub struct PoolState {
    pub base: Option<IpAddress>,
    pub bitmap: Bitmap,
    pub owners: Vec<(String, String)>,
}

/// The address `off` places above `base`, saturating at the top of the
/// family's range.
pub open spec fn spec_add_offset(base: IpAddress, off: int) -> IpAddress {
    match base {
        IpAddress::V4(b) => IpAddress::V4(
            if b + off > u32::MAX {
                u32::MAX
            } else {
                (b + off) as u32
            },
        ),
        IpAddress::V6(b) => IpAddress::V6(
            if b + off > u128::MAX {
                u128::MAX
            } else {
                (b + off) as u128
            },
        ),
    }
}

impl PoolState {
    /// A pool as it stands before initialization: no base address, no
    /// bit set, no ownership record.
    pub fn new() -> (r: PoolState)
        ensures
            r.base is None,
            forall|i: int| !r.bitmap.bit(i),
            r.bitmap.spec_len_bits() == 0,
            r.owners@.len() == 0,
    {
        PoolState { base: None, bitmap: Bitmap::new(), owners: Vec::new() }
    }
}

/// Clears the bit of a handed-back address. Fails with the mismatch
/// error when the pool has no base address or the address is of the
/// other family, and with the cast error when the offset does not fit;
/// the pool is unchanged on failure. Clearing a bit that was never set
/// leaves every bit as it was and still succeeds.
pub fn return_ip(pool: &mut PoolState, ip: IpAddress) -> (r: Result<(), AddressIndexError>)
    ensures
        match r {
            Ok(_) => {
                &&& old(pool).base is Some
                &&& ip.same_family(&old(pool).base->0)
                &&& crate::ip::saturating_distance(old(pool).base->0, ip) <= usize::MAX
                &&& final(pool).base == old(pool).base
                &&& final(pool).owners == old(pool).owners
                &&& forall|j: int|
                    final(pool).bitmap.bit(j) == (old(pool).bitmap.bit(j) && j != crate::ip::saturating_distance(
                        old(pool).base->0,
                        ip,
                    ) as int)
                &&& (final(pool).bitmap.spec_len_bits() == old(pool).bitmap.spec_len_bits()
                    || final(pool).bitmap.spec_len_bits() <= crate::ip::saturating_distance(
                        old(pool).base->0,
                        ip,
                    ) + 8)
            },
            Err(AddressIndexError::FailedAnyhow) => {
                &&& (old(pool).base is None || !ip.same_family(&old(pool).base->0))
                &&& *final(pool) == *old(pool)
            },
            Err(AddressIndexError::FailedCast) => {
                &&& old(pool).base is Some
                &&& ip.same_family(&old(pool).base->0)
                &&& crate::ip::saturating_distance(old(pool).base->0, ip) > usize::MAX
                &&& *final(pool) == *old(pool)
            },
        },
{
    let base = match pool.base {
        Some(b) => b,
        None => {
            return Err(AddressIndexError::FailedAnyhow);
        },
    };
    let index = match get_address_index(&base, &ip) {
        Ok(v) => v,
        Err(e) => {
            return Err(e);
        },
    };
    pool.bitmap.set_bit(index, false);
    Ok(())
}

/// Records the ownership of a handed-out address: the record keyed by
/// the address's text is appended with the given payload; nothing else
/// moves.
pub fn add_pod_information(pool: &mut PoolState, ip: &IpAddress, pod_info: String)
    ensures
        final(pool).base == old(pool).base,
        final(pool).bitmap == old(pool).bitmap,
        final(pool).owners@.len() == old(pool).owners@.len() + 1,
        forall|j: int|
            0 <= j < old(pool).owners@.len() ==> final(pool).owners@[j] == old(pool).owners@[j],
        final(pool).owners@.last().0@ == spec_format_ip(*ip),
        final(pool).owners@.last().1 == pod_info,
{
    let key = format_ip(ip);
    pool.owners.push((key, pod_info));
}

/// Erases every ownership record of an address; nothing else moves.
pub fn del_pod_information(pool: &mut PoolState, ip: &IpAddress)
    ensures
        final(pool).base == old(pool).base,
        final(pool).bitmap == old(pool).bitmap,
        final(pool).owners@ == old(pool).owners@.filter(
            |e: (String, String)| e.0@ != spec_format_ip(*ip),
        ),
{
    let key = format_ip(ip);
    let ghost pred = (|e: (String, String)| e.0@ != spec_format_ip(*ip));
    let mut kept: Vec<(String, String)> = Vec::new();
    let mut i: usize = 0;
    proof {
        reveal(Seq::filter);
        assert(pool.owners@.take(0) =~= Seq::<(String, String)>::empty());
    }
    while i < pool.owners.len()
        invariant
            0 <= i <= pool.owners@.len(),
            pred == (|e: (String, String)| e.0@ != spec_format_ip(*ip)),
            key@ == spec_format_ip(*ip),
            kept@ == pool.owners@.take(i as int).filter(pred),
        decreases pool.owners@.len() - i,
    {
        proof {
            reveal(Seq::filter);
            assert(pool.owners@.take(i + 1).drop_last() =~= pool.owners@.take(i as int));
            assert(pool.owners@.take(i + 1).last() == pool.owners@[i as int]);
        }
        let entry = (pool.owners[i].0.clone(), pool.owners[i].1.clone());
        proof {
            assert(entry == pool.owners@[i as int]);
        }
        if !str_eq(entry.0.as_str(), key.as_str()) {
            kept.push(entry);
        }
        i += 1;
    }
    proof {
        assert(pool.owners@.take(pool.owners@.len() as int) =~= pool.owners@);
    }
    pool.owners = kept;
}

/// Claims the lowest free offset of the pool and hands out the address
/// that offset names: the offset's bit is the only one that changes,
/// and the result is the base address plus the offset, saturating.
/// Fails with the missing-base error on an uninitialized pool and with
/// the overflow error when the offset does not fit the family's integer
/// width; the pool is unchanged on failure.
pub fn get_first_available_ip(pool: &mut PoolState) -> (r: Result<IpAddress, AllocError>)
    requires
        old(pool).bitmap.spec_len_bits() < usize::MAX,
    ensures
        match r {
            Ok(a) => {
                &&& old(pool).base is Some
                &&& final(pool).base == old(pool).base
                &&& final(pool).owners == old(pool).owners
                &&& forall|j: int|
                    final(pool).bitmap.bit(j) == (old(pool).bitmap.bit(j) || j == old(
                        pool,
                    ).bitmap.spec_first_free())
                &&& final(pool).bitmap.bit(old(pool).bitmap.spec_first_free())
                &&& final(pool).bitmap.spec_len_bits() <= old(pool).bitmap.spec_len_bits() + 8
                &&& a == spec_add_offset(old(pool).base->0, old(pool).bitmap.spec_first_free())
            },
            Err(AllocError::BaseAddressMissing) => {
                &&& old(pool).base is None
                &&& *final(pool) == *old(pool)
            },
            Err(AllocError::IndexOverflow) => {
                &&& old(pool).base is Some
                &&& old(pool).base->0 is V4
                &&& old(pool).bitmap.spec_first_free() > u32::MAX
                &&& *final(pool) == *old(pool)
            },
            Err(AllocError::StoreUnavailable) => false,
        },
{
    let base = match pool.base {
        Some(b) => b,
        None => {
            return Err(AllocError::BaseAddressMissing);
        },
    };
    let index = pool.bitmap.first_zero_bit();
    match base {
        IpAddress::V4(b) => {
            if index as u128 > u32::MAX as u128 {
                return Err(AllocError::IndexOverflow);
            }
            pool.bitmap.set_bit(index, true);
            Ok(IpAddress::V4(b.saturating_add(index as u32)))
        },
        IpAddress::V6(b) => {
            pool.bitmap.set_bit(index, true);
            Ok(IpAddress::V6(b.saturating_add(index as u128)))
        },
    }
}

/// The base address an allocation is initialized with: the range's
/// start when a range is given, else the subnet's first host address.
pub open spec fn spec_alloc_base(a: NetworkIPAllocations) -> IpAddress {
    match a.range {
        Some(rg) => rg.start,
        None => spec_first_host(spec_parse_ipnet(a.subnet@)->Some_0),
    }
}

/// `j` is the offset of one of the allocation's excluded addresses.
pub open spec fn spec_excluded_offset(a: NetworkIPAllocations, j: int) -> bool {
    exists|e: int|
        0 <= e < a.exclude@.len() && crate::ip::saturating_distance(
            spec_alloc_base(a),
            #[trigger] a.exclude@[e],
        ) as int == j
}

/// The allocation is fit to initialize a pool: its subnet text parses
/// where the base comes from it, and every excluded address shares the
/// base's family with an offset that fits.
pub open spec fn spec_can_initialize(a: NetworkIPAllocations) -> bool {
    &&& (a.range is None ==> spec_parse_ipnet(a.subnet@) is Some)
    &&& forall|e: int|
        0 <= e < a.exclude@.len() ==> (#[trigger] a.exclude@[e]).same_family(&spec_alloc_base(a))
            && crate::ip::saturating_distance(spec_alloc_base(a), a.exclude@[e]) <= usize::MAX
}

impl PoolState {
    /// Initializes the pool from an allocation: the base address is
    /// recorded — overwriting any earlier one — and the bit of every
    /// excluded address is set. Bits set earlier are not cleared, and
    /// the ownership records are untouched.
    pub fn initialize(&mut self, alloc: &NetworkIPAllocations)
        requires
            spec_can_initialize(*alloc),
        ensures
            final(self).base == Some(spec_alloc_base(*alloc)),
            final(self).owners == old(self).owners,
            forall|j: int|
                (#[trigger] final(self).bitmap.bit(j)) == (old(self).bitmap.bit(j)
                    || spec_excluded_offset(*alloc, j)),
    {
        let base = crate::kube_crd::get_ipallocation_baseip(alloc);
        self.base = Some(base);
        let mut e: usize = 0;
        while e < alloc.exclude.len()
            invariant
                0 <= e <= alloc.exclude@.len(),
                spec_can_initialize(*alloc),
                base == spec_alloc_base(*alloc),
                self.base == Some(base),
                self.owners == old(self).owners,
                forall|j: int|
                    (#[trigger] self.bitmap.bit(j)) == (old(self).bitmap.bit(j) || exists|k: int|
                        0 <= k < e && crate::ip::saturating_distance(
                            base,
                            #[trigger] alloc.exclude@[k],
                        ) as int == j),
            decreases alloc.exclude@.len() - e,
        {
            let idx = match get_address_index(&base, &alloc.exclude[e]) {
                Ok(v) => v,
                Err(_) => {
                    proof {
                        assert(alloc.exclude@[e as int].same_family(&spec_alloc_base(*alloc)));
                    }
                    unreached()
                },
            };
            self.bitmap.set_bit(idx, true);
            proof {
                assert forall|j: int|
                    (#[trigger] self.bitmap.bit(j)) == (old(self).bitmap.bit(j) || exists|k: int|
                        0 <= k < e + 1 && crate::ip::saturating_distance(
                            base,
                            #[trigger] alloc.exclude@[k],
                        ) as int == j) by {
                    if j == idx as int {
                        assert(crate::ip::saturating_distance(
                            base,
                            alloc.exclude@[e as int],
                        ) as int == j);
                    }
                }
            }
            e += 1;
        }
    }
}

/// Initializes the pool at position `k` from the allocation at the
/// same position; every other pool keeps its value.
fn init_pool_at(pools: &mut Vec<PoolState>, networkip: &NetworkIP, k: usize)
    requires
        k < old(pools)@.len(),
        k < networkip.spec.ip_allocations@.len(),
        spec_can_initialize(networkip.spec.ip_allocations@[k as int]),
    ensures
        final(pools)@.len() == old(pools)@.len(),
        forall|t: int|
            0 <= t < old(pools)@.len() && t != k as int ==> #[trigger] final(pools)@[t] == old(
                pools,
            )@[t],
        final(pools)@[k as int].base == Some(
            spec_alloc_base(networkip.spec.ip_allocations@[k as int]),
        ),
        final(pools)@[k as int].owners == old(pools)@[k as int].owners,
        forall|j: int|
            (#[trigger] final(pools)@[k as int].bitmap.bit(j)) == (old(pools)@[k as int].bitmap.bit(
                j,
            ) || spec_excluded_offset(networkip.spec.ip_allocations@[k as int], j)),
{
    let ghost before = pools@;
    let mut p = pools.remove(k);
    let ghost mid = pools@;
    proof {
        assert(p == before[k as int]);
        assert(forall|t: int| 0 <= t < k ==> #[trigger] mid[t] == before[t]);
        assert(forall|t: int| k <= t < mid.len() ==> #[trigger] mid[t] == before[t + 1]);
    }
    p.initialize(&networkip.spec.ip_allocations[k]);
    pools.insert(k, p);
    proof {
        assert(pools@.len() == before.len());
        assert(pools@[k as int] == p);
        assert(forall|t: int| 0 <= t < k ==> #[trigger] pools@[t] == mid[t]);
        assert(forall|t: int| k < t < pools@.len() ==> #[trigger] pools@[t] == mid[t - 1]);
        assert forall|t: int|
            0 <= t < pools@.len() && t != k as int implies #[trigger] pools@[t] == before[t] by {
            if t < k as int {
                assert(pools@[t] == mid[t]);
            } else {
                assert(pools@[t] == mid[t - 1]);
                assert(mid[t - 1] == before[t]);
            }
        }
        assert forall|j: int|
            pools@[k as int].bitmap.bit(j) == (before[k as int].bitmap.bit(j)
                || spec_excluded_offset(networkip.spec.ip_allocations@[k as int], j)) by {
            assert(p.bitmap.bit(j) == (before[k as int].bitmap.bit(j) || spec_excluded_offset(
                networkip.spec.ip_allocations@[k as int],
                j,
            )));
        }
    }
}

/// Initializes one pool per allocation of the network object, in order:
/// each pool's base address is recorded and its exclusions set, as
/// `PoolState::initialize` says; pools keep their positions.
pub fn create_network_bitmap(pools: &mut Vec<PoolState>, networkip: &NetworkIP)
    requires
        old(pools)@.len() == networkip.spec.ip_allocations@.len(),
        forall|k: int|
            0 <= k < networkip.spec.ip_allocations@.len() ==> spec_can_initialize(
                #[trigger] networkip.spec.ip_allocations@[k],
            ),
    ensures
        final(pools)@.len() == old(pools)@.len(),
        forall|k: int|
            0 <= k < final(pools)@.len() ==> {
                &&& (#[trigger] final(pools)@[k]).base == Some(
                    spec_alloc_base(networkip.spec.ip_allocations@[k]),
                )
                &&& final(pools)@[k].owners == old(pools)@[k].owners
                &&& forall|j: int|
                    (#[trigger] final(pools)@[k].bitmap.bit(j)) == (old(pools)@[k].bitmap.bit(j)
                        || spec_excluded_offset(networkip.spec.ip_allocations@[k], j))
            },
{
    let n = pools.len();
    let mut k: usize = 0;
    while k < n
        invariant
            0 <= k <= n,
            n == networkip.spec.ip_allocations@.len(),
            pools@.len() == n,
            forall|t: int|
                0 <= t < networkip.spec.ip_allocations@.len() ==> spec_can_initialize(
                    #[trigger] networkip.spec.ip_allocations@[t],
                ),
            forall|t: int| k <= t < n ==> #[trigger] pools@[t] == old(pools)@[t],
            forall|t: int|
                0 <= t < k ==> {
                    &&& (#[trigger] pools@[t]).base == Some(
                        spec_alloc_base(networkip.spec.ip_allocations@[t]),
                    )
                    &&& pools@[t].owners == old(pools)@[t].owners
                    &&& forall|j: int|
                        (#[trigger] pools@[t].bitmap.bit(j)) == (old(pools)@[t].bitmap.bit(j)
                            || spec_excluded_offset(networkip.spec.ip_allocations@[t], j))
                },
        decreases n - k,
    {
        init_pool_at(pools, networkip, k);
        k += 1;
    }
}

/// How many of the pools have a bitmap value in the store: a pool's
/// bitmap key exists once some bit of it has been written.
pub open spec fn spec_count_initialized(s: Seq<PoolState>) -> int
    decreases s.len(),
{
    if s.len() == 0 {
        0
    } else {
        spec_count_initialized(s.drop_last()) + (if s.last().bitmap.spec_len_bits() > 0 {
            1int
        } else {
            0int
        })
    }
}

/// Counts the pools whose bitmap holds any written bit.
pub fn check_network_bitmap(pools: &Vec<PoolState>) -> (r: usize)
    ensures
        r as int == spec_count_initialized(pools@),
        r <= pools@.len(),
{
    let mut count: usize = 0;
    let mut i: usize = 0;
    proof {
        assert(pools@.take(0) =~= Seq::<PoolState>::empty());
    }
    while i < pools.len()
        invariant
            0 <= i <= pools@.len(),
            count as int == spec_count_initialized(pools@.take(i as int)),
            count <= i,
        decreases pools@.len() - i,
    {
        proof {
            assert(pools@.take(i + 1).drop_last() =~= pools@.take(i as int));
            assert(pools@.take(i + 1).last() == pools@[i as int]);
        }
        if pools[i].bitmap.stored_bytes() > 0 {
            count += 1;
        }
        i += 1;
    }
    proof {
        assert(pools@.take(pools@.len() as int) =~= pools@);
    }
    count
}

} // verus!
