//! Which routes the gateway derives, exports, merges and refuses.
use crate::text::{cat3, cat4, opt_str_view, same, starts_with, views};
use crate::text_set::{ascending, insert_text};
use crate::vpn::network::{block_size, network_text, octet, Ipv4Cidr};
use vstd::arithmetic::div_mod::{
    lemma_add_mod_noop, lemma_fundamental_div_mod, lemma_mod_bound, lemma_mod_twice,
    lemma_mul_mod_noop_left, lemma_small_mod,
};
use vstd::arithmetic::power::{lemma_pow0, lemma_pow1, lemma_pow_adds, pow};
use vstd::arithmetic::power2::{lemma2_to64, lemma_pow2_pos, lemma_pow2_strictly_increases, pow2};
use vstd::prelude::*;

verus! {

// ── Types ────────────────────────────────────────────────────────────────────

/// The hash that addresses a Reticulum destination.
#[derive(Clone, Copy, Debug, PartialEq, Eq)]
pub struct AddressHash {
    pub bytes: [u8; 16],
}

impl View for AddressHash {
    type V = Seq<u8>;

    open spec fn view(&self) -> Seq<u8> {
        self.bytes@
    }
}

impl AddressHash {
    /// Whether two hashes are the same.
    pub fn same(&self, other: &AddressHash) -> (out: bool)
        ensures
            out == (self@ == other@),
            out == (*self == *other),
    {
        let mut i: usize = 0;
        while i < 16
            invariant
                i <= 16,
                forall|k: int| 0 <= k < i ==> self.bytes@[k] == other.bytes@[k],
            decreases 16 - i,
        {
            if self.bytes[i] != other.bytes[i] {
                return false;
            }
            i += 1;
        }
        assert(self.bytes@ =~= other.bytes@);
        assert(self.bytes =~= other.bytes);
        true
    }
}

/// Why the VPN cannot start or change.
#[derive(Debug)]
pub enum VpnRuntimeError {
    Config(String),
    Io(String),
    Tun(String),
}

/// The text of a VPN error.
pub open spec fn error_text(err: VpnRuntimeError) -> Seq<char> {
    match err {
        VpnRuntimeError::Config(m) => m@,
        VpnRuntimeError::Io(m) => m@,
        VpnRuntimeError::Tun(m) => m@,
    }
}

impl VpnRuntimeError {
    /// The text of the error.
    pub fn message(&self) -> (out: String)
        ensures
            out@ == error_text(*self),
    {
        match self {
            VpnRuntimeError::Config(m) => m.clone(),
            VpnRuntimeError::Io(m) => m.clone(),
            VpnRuntimeError::Tun(m) => m.clone(),
        }
    }
}

// ── Tunnel addresses ─────────────────────────────────────────────────────────

/// The number that `bytes` spell in base `base`, behind `start`.
pub open spec fn horner(start: nat, bytes: Seq<u8>, base: nat) -> nat
    decreases bytes.len(),
{
    if bytes.len() == 0 {
        start
    } else {
        horner(start, bytes.drop_last(), base) * base + bytes.last() as nat
    }
}

proof fn lemma_mod_step(x: nat, base: nat, b: nat, m: nat)
    requires
        m > 0,
    ensures
        ((x % m) * base % m + b) % m == (x * base + b) % m,
{
    lemma_mul_mod_noop_left(x as int, base as int, m as int);
    let a = ((x % m) * base) as int;
    lemma_add_mod_noop(a % (m as int), b as int, m as int);
    lemma_add_mod_noop((x * base) as int, b as int, m as int);
    lemma_mod_twice(a, m as int);
}

/// `bytes` read in base `base` behind `start`, modulo 2^64.
fn mix64(start: u64, bytes: &[u8], base: u64) -> (out: u64)
    ensures
        out == horner(start as nat, bytes@, base as nat) % 0x1_0000_0000_0000_0000,
{
    let mut seed: u64 = start;
    let mut i: usize = 0;
    assert(bytes@.take(0) =~= Seq::<u8>::empty());
    while i < bytes.len()
        invariant
            i <= bytes@.len(),
            seed == horner(start as nat, bytes@.take(i as int), base as nat)
                % 0x1_0000_0000_0000_0000,
        decreases bytes@.len() - i,
    {
        proof {
            let h = horner(start as nat, bytes@.take(i as int), base as nat);
            assert(bytes@.take(i + 1).drop_last() =~= bytes@.take(i as int));
            lemma_mod_step(h, base as nat, bytes@[i as int] as nat, 0x1_0000_0000_0000_0000);
        }
        seed = seed.wrapping_mul(base).wrapping_add(bytes[i] as u64);
        i += 1;
    }
    assert(bytes@.take(i as int) =~= bytes@);
    seed
}

/// `bytes` read in base `base` behind `start`, modulo 2^32.
fn mix32(start: u32, bytes: &[u8], base: u32) -> (out: u32)
    ensures
        out == horner(start as nat, bytes@, base as nat) % 0x1_0000_0000,
{
    let mut seed: u32 = start;
    let mut i: usize = 0;
    assert(bytes@.take(0) =~= Seq::<u8>::empty());
    while i < bytes.len()
        invariant
            i <= bytes@.len(),
            seed == horner(start as nat, bytes@.take(i as int), base as nat) % 0x1_0000_0000,
        decreases bytes@.len() - i,
    {
        proof {
            let h = horner(start as nat, bytes@.take(i as int), base as nat);
            assert(bytes@.take(i + 1).drop_last() =~= bytes@.take(i as int));
            lemma_mod_step(h, base as nat, bytes@[i as int] as nat, 0x1_0000_0000);
        }
        seed = seed.wrapping_mul(base).wrapping_add(bytes[i] as u32);
        i += 1;
    }
    assert(bytes@.take(i as int) =~= bytes@);
    seed
}

/// How far behind the first address of a network with a prefix of `length`
/// bits the tunnel address of `hash` lies.
pub open spec fn tunnel_offset(length: u8, hash: Seq<u8>) -> nat {
    horner(0, hash, 131) % 0x1_0000_0000_0000_0000 % (block_size(length) - 2) as nat + 1
}

/// The tunnel address of `hash` in `network`.
pub open spec fn tunnel_ip(network: Ipv4Cidr, hash: Seq<u8>) -> u32 {
    ((network.address + tunnel_offset(network.length, hash)) % 0x1_0000_0000) as u32
}

/// The refusal of a network without two host bits.
pub open spec fn network_refusal(network: Ipv4Cidr) -> Seq<char> {
    "vpn network "@ + network_text(network.address, network.length)
        + " must have at least 2 host bits"@
}

/// Accepts the networks with at least two host bits.
pub fn validate_network(network: Ipv4Cidr) -> (out: Result<(), VpnRuntimeError>)
    requires
        network.wf(),
    ensures
        out is Ok <==> network.length <= 30,
        out matches Err(err) ==> err is Config && error_text(err) == network_refusal(network),
{
    if network.network_length() > 30 {
        let text = network.text();
        let message = cat3(
            "vpn network ",
            text.as_str(),
            " must have at least 2 host bits",
        );
        return Err(VpnRuntimeError::Config(message));
    }
    Ok(())
}

proof fn lemma_block_size(length: u8)
    requires
        length <= 32,
    ensures
        1 <= block_size(length) <= 0x1_0000_0000,
        length <= 30 ==> block_size(length) >= 4,
        length == 24 ==> block_size(length) == 256,
        length == 32 ==> block_size(length) == 1,
        length == 0 ==> block_size(length) == 0x1_0000_0000,
{
    lemma2_to64();
    lemma_pow2_pos((32 - length) as nat);
    if length > 0 {
        lemma_pow2_strictly_increases((32 - length) as nat, 32);
    }
    if length < 30 {
        lemma_pow2_strictly_increases(2, (32 - length) as nat);
    }
}

/// `1 << bits`, as the number of addresses behind a prefix.
fn shifted_one(bits: u32) -> (out: u64)
    requires
        bits <= 32,
    ensures
        out == pow2(bits as nat),
{
    let mut out: u64 = 1;
    let mut i: u32 = 0;
    proof {
        lemma2_to64();
    }
    while i < bits
        invariant
            i <= bits <= 32,
            out == pow2(i as nat),
            out <= 0x1_0000_0000,
        decreases bits - i,
    {
        proof {
            vstd::arithmetic::power2::lemma_pow2_unfold((i + 1) as nat);
            lemma2_to64();
            if i + 1 < 32 {
                lemma_pow2_strictly_increases((i + 1) as nat, 32);
            }
        }
        out = out * 2;
        i += 1;
    }
    out
}

/// The tunnel address of a destination: the same one for the same hash, inside
/// the network, and neither its first nor its last address.
pub fn derive_tunnel_ip(network: Ipv4Cidr, destination: &AddressHash) -> (out: Result<
    u32,
    VpnRuntimeError,
>)
    requires
        network.wf(),
    ensures
        out is Ok <==> network.length <= 30,
        out matches Ok(ip) ==> ip == tunnel_ip(network, destination@),
        out matches Err(err) ==> err is Config && error_text(err) == network_refusal(network),
{
    match validate_network(network) {
        Ok(()) => {},
        Err(err) => {
            return Err(err);
        },
    }
    let host_bits: u32 = 32 - network.network_length() as u32;
    proof {
        lemma_block_size(network.length);
    }
    let usable: u64 = shifted_one(host_bits) - 2;
    let seed = mix64(0, vstd::array::array_as_slice(&destination.bytes), 131);
    let offset: u64 = seed % usable + 1;
    let base: u32 = network.first_address();
    Ok(base.wrapping_add(offset as u32))
}

/// The tunnel address of any destination lies inside the network, and is
/// neither its first address nor its last one.
pub proof fn tunnel_ip_is_a_host(network: Ipv4Cidr, hash: Seq<u8>)
    requires
        network.wf(),
        network.length <= 30,
    ensures
        network.has(tunnel_ip(network, hash)),
        tunnel_ip(network, hash) != network.address,
        tunnel_ip(network, hash) != network.address + block_size(network.length) - 1,
{
    lemma_block_size(network.length);
    let size = block_size(network.length);
    let m = (size - 2) as nat;
    let offset = tunnel_offset(network.length, hash);
    lemma_mod_bound(
        (horner(0, hash, 131) % 0x1_0000_0000_0000_0000) as int,
        m as int,
    );
    assert(1 <= offset <= m);
    lemma_last_address_fits(network);
    assert(network.address + offset < 0x1_0000_0000);
    lemma_small_mod((network.address + offset) as nat, 0x1_0000_0000);
}

/// The last address of a network is an address.
proof fn lemma_last_address_fits(network: Ipv4Cidr)
    requires
        network.wf(),
    ensures
        network.address + block_size(network.length) <= 0x1_0000_0000,
{
    lemma_block_size(network.length);
    let size = block_size(network.length) as int;
    let address = network.address as int;
    lemma2_to64();
    vstd::arithmetic::power2::lemma_pow2_adds((32 - network.length) as nat, network.length as nat);
    let blocks = pow2(network.length as nat) as int;
    assert(size * blocks == 0x1_0000_0000);
    lemma_fundamental_div_mod(address, size);
    let q = address / size;
    assert(address == size * q);
    assert(q < blocks) by (nonlinear_arith)
        requires
            address == size * q,
            address < 0x1_0000_0000,
            size * blocks == 0x1_0000_0000,
            size > 0,
    ;
    assert(size * q + size <= size * blocks) by (nonlinear_arith)
        requires
            q < blocks,
            size > 0,
    ;
}

// ── Exported routes ──────────────────────────────────────────────────────────

/// A local route and the route that peers see in its place.
#[derive(Clone, Copy, Debug, PartialEq, Eq, Structural)]
pub struct LocalRouteTranslation {
    pub local: Ipv4Cidr,
    pub exported: Ipv4Cidr,
}

/// The four octets of an address.
pub open spec fn octets(address: u32) -> Seq<u8> {
    seq![octet(address, 0), octet(address, 1), octet(address, 2), octet(address, 3)]
}

/// The number that picks the alias of `route` for the destination `hash`.
pub open spec fn alias_seed(hash: Seq<u8>, route: Ipv4Cidr) -> nat {
    (horner(horner(0, hash, 167), octets(route.address), 131) * 31 + route.length as nat)
        % 0x1_0000_0000
}

/// The third octet of the alias of `route`: between 100 and 254, and the next
/// one in that circle where the route itself already has it.
pub open spec fn alias_octet(hash: Seq<u8>, route: Ipv4Cidr) -> nat {
    let third = 100 + alias_seed(hash, route) % 155;
    if octet(route.address, 0) == 192 && octet(route.address, 1) == 168 && octet(route.address, 2)
        == third {
        if third == 254 {
            100
        } else {
            third + 1
        }
    } else {
        third
    }
}

/// The route that peers of the destination `hash` see in place of `route`: a
/// /24 is exported as `192.168.{100..254}.0/24`, any other route as it is.
pub open spec fn exported_route(hash: Seq<u8>, route: Ipv4Cidr) -> Ipv4Cidr {
    if route.length != 24 {
        route
    } else {
        Ipv4Cidr { address: (0xC0A8_0000 + alias_octet(hash, route) * 256) as u32, length: 24 }
    }
}

proof fn lemma_horner_mod(start: nat, bytes: Seq<u8>, base: nat, m: nat)
    requires
        m > 0,
    ensures
        horner(start % m, bytes, base) % m == horner(start, bytes, base) % m,
    decreases bytes.len(),
{
    if bytes.len() == 0 {
        lemma_mod_twice(start as int, m as int);
    } else {
        let a = horner(start % m, bytes.drop_last(), base);
        let b = horner(start, bytes.drop_last(), base);
        lemma_horner_mod(start, bytes.drop_last(), base, m);
        lemma_mod_step(a, base, bytes.last() as nat, m);
        lemma_mod_step(b, base, bytes.last() as nat, m);
    }
}

/// The route that peers see in place of a local route.
pub fn export_local_route(destination: &AddressHash, route: Ipv4Cidr) -> (out: Ipv4Cidr)
    ensures
        out == exported_route(destination@, route),
{
    if route.network_length() != 24 {
        return route;
    }
    let a = route.first_address();
    let o: [u8; 4] = [
        (a / 0x100_0000) as u8,
        (a / 0x1_0000 % 0x100) as u8,
        (a / 0x100 % 0x100) as u8,
        (a % 0x100) as u8,
    ];
    assert(o@ =~= octets(a));
    let seed1 = mix32(0, vstd::array::array_as_slice(&destination.bytes), 167);
    let seed2 = mix32(seed1, vstd::array::array_as_slice(&o), 131);
    let seed = seed2.wrapping_mul(31).wrapping_add(route.network_length() as u32);
    proof {
        let h1 = horner(0, destination@, 167);
        lemma_horner_mod(h1, o@, 131, 0x1_0000_0000);
        lemma_mod_step(horner(h1, o@, 131), 31, 24, 0x1_0000_0000);
    }
    let mut third: u8 = 100 + (seed % 155) as u8;
    if o[0] == 192 && o[1] == 168 && o[2] == third {
        third = if third == 254 {
            100
        } else {
            third + 1
        };
    }
    let alias: u32 = 0xC0A8_0000 + (third as u32) * 256;
    proof {
        lemma_block_size(24);
    }
    match Ipv4Cidr::new(alias, 24) {
        Some(network) => network,
        None => route,
    }
}

proof fn lemma_alias_octets(third: nat)
    requires
        100 <= third <= 254,
    ensures
        octet((0xC0A8_0000 + third * 256) as u32, 0) == 192,
        octet((0xC0A8_0000 + third * 256) as u32, 1) == 168,
        octet((0xC0A8_0000 + third * 256) as u32, 2) == third,
        octet((0xC0A8_0000 + third * 256) as u32, 3) == 0,
        (0xC0A8_0000 + third * 256) % 256 == 0,
{
    let a = (0xC0A8_0000 + third * 256) as u32;
    assert(a / 0x100_0000 == 192);
    assert(a / 0x1_0000 == 192 * 256 + 168);
    assert(a / 0x100 == (192 * 256 + 168) * 256 + third);
}

/// Every /24 is exported as a /24 among `192.168.100.0` to `192.168.254.0`, and
/// never as itself.
pub proof fn exported_route_is_an_alias(hash: Seq<u8>, route: Ipv4Cidr)
    requires
        route.wf(),
        route.length == 24,
    ensures
        exported_route(hash, route).wf(),
        exported_route(hash, route).length == 24,
        octet(exported_route(hash, route).address, 0) == 192,
        octet(exported_route(hash, route).address, 1) == 168,
        100 <= octet(exported_route(hash, route).address, 2) <= 254,
        octet(exported_route(hash, route).address, 3) == 0,
        exported_route(hash, route) != route,
{
    lemma_block_size(24);
    let third = alias_octet(hash, route);
    let first = 100 + alias_seed(hash, route) % 155;
    assert(100 <= first <= 254);
    lemma_alias_octets(third);
}

/// Every route that is not a /24 is exported as it is.
pub proof fn wide_routes_export_unchanged(hash: Seq<u8>, route: Ipv4Cidr)
    requires
        route.length != 24,
    ensures
        exported_route(hash, route) == route,
{
}

/// The translations of a list of local routes.
pub open spec fn translations(
    routes: Seq<Ipv4Cidr>,
    hash: Seq<u8>,
    aliasing: bool,
) -> Seq<LocalRouteTranslation> {
    routes.map_values(
        |r: Ipv4Cidr|
            LocalRouteTranslation {
                local: r,
                exported: if aliasing {
                    exported_route(hash, r)
                } else {
                    r
                },
            },
    )
}

/// The translations of the local routes, in their order.
pub fn local_route_translations(
    routes: &Vec<Ipv4Cidr>,
    destination: &AddressHash,
    aliasing: bool,
) -> (out: Vec<LocalRouteTranslation>)
    ensures
        out@ == translations(routes@, destination@, aliasing),
{
    let mut out: Vec<LocalRouteTranslation> = Vec::new();
    let mut i: usize = 0;
    while i < routes.len()
        invariant
            i <= routes@.len(),
            out@ == translations(routes@.take(i as int), destination@, aliasing),
        decreases routes@.len() - i,
    {
        let r = routes[i];
        let exported = if aliasing {
            export_local_route(destination, r)
        } else {
            r
        };
        out.push(LocalRouteTranslation { local: r, exported });
        assert(out@ =~= translations(routes@.take(i + 1), destination@, aliasing));
        i += 1;
    }
    assert(routes@.take(i as int) =~= routes@);
    out
}

// ── Sets of routes ───────────────────────────────────────────────────────────

/// The order of networks: by address, then by prefix length.
pub open spec fn cidr_lt(a: Ipv4Cidr, b: Ipv4Cidr) -> bool {
    a.address < b.address || (a.address == b.address && a.length < b.length)
}

/// A sequence of networks in strictly increasing order.
pub open spec fn increasing(s: Seq<Ipv4Cidr>) -> bool {
    forall|i: int, j: int| 0 <= i < j < s.len() ==> cidr_lt(#[trigger] s[i], #[trigger] s[j])
}

/// Puts a route into an ordered set of routes.
fn insert_route(set: &mut Vec<Ipv4Cidr>, route: Ipv4Cidr)
    requires
        increasing(old(set)@),
    ensures
        increasing(final(set)@),
        forall|r: Ipv4Cidr| #[trigger]
            final(set)@.contains(r) <==> old(set)@.contains(r) || r == route,
{
    let mut p: usize = 0;
    while p < set.len() && (set[p].address < route.address || (set[p].address == route.address
        && set[p].length < route.length))
        invariant
            p <= set@.len(),
            forall|k: int| 0 <= k < p ==> cidr_lt(#[trigger] set@[k], route),
        decreases set@.len() - p,
    {
        p += 1;
    }
    let ghost before = set@;
    if p < set.len() && set[p].address == route.address && set[p].length == route.length {
        assert(before[p as int] == route);
        return;
    }
    set.insert(p, route);
    proof {
        let after = set@;
        assert(after == before.insert(p as int, route));
        assert forall|i: int, j: int| 0 <= i < j < after.len() implies cidr_lt(
            #[trigger] after[i],
            #[trigger] after[j],
        ) by {
            if j > p && i == p {
                assert(after[j] == before[j - 1]);
                assert(cidr_lt(route, before[p as int]));
                if j - 1 > p {
                    assert(cidr_lt(before[p as int], before[j - 1]));
                }
            } else if i > p {
                assert(after[i] == before[i - 1] && after[j] == before[j - 1]);
            } else if j == p {
                assert(after[i] == before[i]);
            } else if j > p {
                assert(after[i] == before[i] && after[j] == before[j - 1]);
            } else {
                assert(after[i] == before[i] && after[j] == before[j]);
            }
        }
        assert forall|r: Ipv4Cidr| #[trigger] after.contains(r) <==> before.contains(r) || r
            == route by {
            if before.contains(r) {
                let k = choose|k: int| 0 <= k < before.len() && before[k] == r;
                if k < p {
                    assert(after[k] == r);
                } else {
                    assert(after[k + 1] == r);
                }
            }
            if r == route {
                assert(after[p as int] == r);
            }
            if after.contains(r) && r != route {
                let k = choose|k: int| 0 <= k < after.len() && after[k] == r;
                if k < p {
                    assert(before[k] == r);
                } else {
                    assert(before[k - 1] == r);
                }
            }
        }
    }
}

/// Puts every route of a list into an ordered set of routes.
fn insert_routes(set: &mut Vec<Ipv4Cidr>, routes: &Vec<Ipv4Cidr>)
    requires
        increasing(old(set)@),
    ensures
        increasing(final(set)@),
        forall|r: Ipv4Cidr| #[trigger]
            final(set)@.contains(r) <==> old(set)@.contains(r) || routes@.contains(r),
{
    let ghost before = set@;
    let mut i: usize = 0;
    while i < routes.len()
        invariant
            i <= routes@.len(),
            increasing(set@),
            forall|r: Ipv4Cidr| #[trigger]
                set@.contains(r) <==> before.contains(r) || routes@.take(i as int).contains(r),
        decreases routes@.len() - i,
    {
        let ghost mid = set@;
        insert_route(set, routes[i]);
        proof {
            assert forall|r: Ipv4Cidr| #[trigger] set@.contains(r) <==> before.contains(r)
                || routes@.take(i + 1).contains(r) by {
                assert(routes@.take(i + 1) =~= routes@.take(i as int).push(routes@[i as int]));
                assert(mid.contains(r) <==> before.contains(r) || routes@.take(i as int).contains(
                    r,
                ));
                if routes@.take(i as int).contains(r) {
                    let k = choose|k: int|
                        0 <= k < i && #[trigger] routes@.take(i as int)[k] == r;
                    assert(routes@.take(i + 1)[k] == r);
                }
                if r == routes@[i as int] {
                    assert(routes@.take(i + 1)[i as int] == r);
                }
                if routes@.take(i + 1).contains(r) && r != routes@[i as int] {
                    let k = choose|k: int|
                        0 <= k < i + 1 && #[trigger] routes@.take(i + 1)[k] == r;
                    assert(routes@.take(i as int)[k] == r);
                }
            }
        }
        i += 1;
    }
    assert(routes@.take(i as int) =~= routes@);
}

/// The union of the discovered and the advertised routes, in order and without
/// repetition.
pub fn merge_routes(discovered: &Vec<Ipv4Cidr>, advertised: &Vec<Ipv4Cidr>) -> (out: Vec<Ipv4Cidr>)
    ensures
        increasing(out@),
        forall|r: Ipv4Cidr| #[trigger]
            out@.contains(r) <==> discovered@.contains(r) || advertised@.contains(r),
{
    let mut out: Vec<Ipv4Cidr> = Vec::new();
    insert_routes(&mut out, discovered);
    insert_routes(&mut out, advertised);
    out
}

/// Two increasing sequences with the same members are the same: what a merge
/// says of its members and their order leaves one result.
pub proof fn increasing_is_unique(a: Seq<Ipv4Cidr>, b: Seq<Ipv4Cidr>)
    requires
        increasing(a),
        increasing(b),
        forall|r: Ipv4Cidr| a.contains(r) <==> b.contains(r),
    ensures
        a == b,
    decreases a.len(),
{
    if a.len() == 0 {
        if b.len() > 0 {
            assert(b.contains(b[0]));
            assert(a.contains(b[0]));
        }
        assert(a =~= b);
    } else {
        assert(a.contains(a.last()));
        assert(b.contains(a.last()));
        let k = choose|k: int| 0 <= k < b.len() && b[k] == a.last();
        assert(b.contains(b.last()));
        assert(a.contains(b.last()));
        let m = choose|m: int| 0 <= m < a.len() && a[m] == b.last();
        if k < b.len() - 1 {
            assert(cidr_lt(b[k], b.last()));
            if m < a.len() - 1 {
                assert(cidr_lt(a[m], a.last()));
            }
        }
        assert(a.last() == b.last());
        let x = a.drop_last();
        let y = b.drop_last();
        assert forall|r: Ipv4Cidr| x.contains(r) <==> y.contains(r) by {
            if x.contains(r) {
                let i = choose|i: int| 0 <= i < x.len() && x[i] == r;
                assert(a[i] == r);
                assert(a.contains(r));
                let j = choose|j: int| 0 <= j < b.len() && b[j] == r;
                assert(cidr_lt(a[i], a.last()));
                assert(y[j] == r);
            }
            if y.contains(r) {
                let i = choose|i: int| 0 <= i < y.len() && y[i] == r;
                assert(b[i] == r);
                assert(b.contains(r));
                let j = choose|j: int| 0 <= j < a.len() && a[j] == r;
                assert(cidr_lt(b[i], b.last()));
                assert(x[j] == r);
            }
        }
        assert(increasing(x));
        assert(increasing(y));
        increasing_is_unique(x, y);
        assert(a =~= x.push(a.last()));
        assert(b =~= y.push(b.last()));
    }
}

// ── Conflicts ────────────────────────────────────────────────────────────────

/// The text of a route.
pub open spec fn route_text(route: Ipv4Cidr) -> Seq<char> {
    network_text(route.address, route.length)
}

/// The first and the last address of a route.
pub open spec fn bounds(route: Ipv4Cidr) -> (int, int) {
    (route.address as int, route.address + block_size(route.length) - 1)
}

/// Whether two routes share an address.
pub open spec fn overlap(a: Ipv4Cidr, b: Ipv4Cidr) -> bool {
    bounds(a).0 <= bounds(b).1 && bounds(b).0 <= bounds(a).1
}

/// The first and the last address of a route.
pub fn cidr_bounds(route: Ipv4Cidr) -> (out: (u64, u64))
    ensures
        (out.0 as int, out.1 as int) == bounds(route),
{
    let start: u64 = route.first_address() as u64;
    let host_bits: u32 = 32u32.saturating_sub(route.network_length() as u32);
    proof {
        lemma2_to64();
        if route.length <= 32 {
            lemma_block_size(route.length);
        }
    }
    let size: u64 = shifted_one(host_bits);
    (start, start + size - 1)
}

/// Whether two routes share an address.
pub fn routes_overlap(a: Ipv4Cidr, b: Ipv4Cidr) -> (out: bool)
    ensures
        out == overlap(a, b),
{
    let (first_a, last_a) = cidr_bounds(a);
    let (first_b, last_b) = cidr_bounds(b);
    first_a <= last_b && first_b <= last_a
}

/// Overlap is what it says: some address belongs to both routes.
pub proof fn overlap_is_a_shared_address(a: Ipv4Cidr, b: Ipv4Cidr)
    requires
        a.wf(),
        b.wf(),
    ensures
        overlap(a, b) <==> exists|ip: u32| a.has(ip) && b.has(ip),
{
    lemma_block_size(a.length);
    lemma_block_size(b.length);
    lemma_last_address_fits(a);
    lemma_last_address_fits(b);
    if overlap(a, b) {
        let ip: u32 = if a.address >= b.address {
            a.address
        } else {
            b.address
        };
        assert(a.has(ip) && b.has(ip));
    }
}

/// Overlap does not depend on the order of the two routes, and a route overlaps
/// itself.
pub proof fn overlap_is_symmetric(a: Ipv4Cidr, b: Ipv4Cidr)
    ensures
        overlap(a, b) == overlap(b, a),
        a.length <= 32 ==> overlap(a, a),
{
    if a.length <= 32 {
        lemma_block_size(a.length);
    }
}

/// Whether a remote route overlaps a local route or the alias of one.
pub open spec fn conflicts(local: Seq<LocalRouteTranslation>, route: Ipv4Cidr) -> bool {
    exists|i: int|
        0 <= i < local.len() && (overlap(route, (#[trigger] local[i]).local) || overlap(
            route,
            local[i].exported,
        ))
}

/// Whether a remote route overlaps a local route or the alias of one.
fn conflicts_with(local: &Vec<LocalRouteTranslation>, route: Ipv4Cidr) -> (out: bool)
    ensures
        out == conflicts(local@, route),
{
    let mut i: usize = 0;
    while i < local.len()
        invariant
            i <= local@.len(),
            forall|k: int|
                0 <= k < i ==> !overlap(route, (#[trigger] local@[k]).local) && !overlap(
                    route,
                    local@[k].exported,
                ),
        decreases local@.len() - i,
    {
        if routes_overlap(route, local[i].local) || routes_overlap(route, local[i].exported) {
            assert(overlap(route, local@[i as int].local) || overlap(
                route,
                local@[i as int].exported,
            ));
            return true;
        }
        i += 1;
    }
    false
}

/// Whether `text` is the text of a route of the list that satisfies `keep`.
pub open spec fn names_route(
    routes: Seq<Ipv4Cidr>,
    keep: spec_fn(Ipv4Cidr) -> bool,
    text: Seq<char>,
) -> bool {
    exists|i: int| 0 <= i < routes.len() && keep(#[trigger] routes[i]) && route_text(routes[i]) == text
}

/// The texts of the routes that do, or that do not, conflict with the local
/// ones, in order and without repetition.
pub fn routes_by_conflict(
    local: &Vec<LocalRouteTranslation>,
    routes: &Vec<Ipv4Cidr>,
    conflicting: bool,
) -> (out: Vec<String>)
    requires
        forall|i: int| 0 <= i < routes@.len() ==> (#[trigger] routes@[i]).wf(),
    ensures
        ascending(views(out@)),
        forall|t: Seq<char>| #[trigger]
            views(out@).contains(t) <==> names_route(
                routes@,
                |r: Ipv4Cidr| conflicts(local@, r) == conflicting,
                t,
            ),
{
    let ghost keep = |r: Ipv4Cidr| conflicts(local@, r) == conflicting;
    let mut out: Vec<String> = Vec::new();
    let mut i: usize = 0;
    while i < routes.len()
        invariant
            i <= routes@.len(),
            keep == (|r: Ipv4Cidr| conflicts(local@, r) == conflicting),
            forall|k: int| 0 <= k < routes@.len() ==> (#[trigger] routes@[k]).wf(),
            ascending(views(out@)),
            forall|t: Seq<char>| #[trigger]
                views(out@).contains(t) <==> names_route(routes@.take(i as int), keep, t),
        decreases routes@.len() - i,
    {
        let ghost before = views(out@);
        let ghost prev = routes@.take(i as int);
        let ghost next = routes@.take(i + 1);
        let r = routes[i];
        let hit = conflicts_with(local, r);
        if hit == conflicting {
            insert_text(&mut out, r.text());
        }
        proof {
            assert(next =~= prev.push(r));
            assert forall|t: Seq<char>| #[trigger] views(out@).contains(t) <==> names_route(
                next,
                keep,
                t,
            ) by {
                assert(before.contains(t) <==> names_route(prev, keep, t));
                if names_route(prev, keep, t) {
                    let k = choose|k: int|
                        0 <= k < prev.len() && keep(#[trigger] prev[k]) && route_text(prev[k]) == t;
                    assert(next[k] == prev[k]);
                }
                if keep(r) && t == route_text(r) {
                    assert(next[i as int] == r);
                }
                if names_route(next, keep, t) {
                    let k = choose|k: int|
                        0 <= k < next.len() && keep(#[trigger] next[k]) && route_text(next[k]) == t;
                    if k < i {
                        assert(prev[k] == next[k]);
                    }
                }
            }
        }
        i += 1;
    }
    assert(routes@.take(i as int) =~= routes@);
    out
}

/// The texts of the remote routes that overlap a local route or its alias.
pub fn conflicting_local_routes(
    local: &Vec<LocalRouteTranslation>,
    routes: &Vec<Ipv4Cidr>,
) -> (out: Vec<String>)
    requires
        forall|i: int| 0 <= i < routes@.len() ==> (#[trigger] routes@[i]).wf(),
    ensures
        ascending(views(out@)),
        forall|t: Seq<char>| #[trigger]
            views(out@).contains(t) <==> names_route(
                routes@,
                |r: Ipv4Cidr| conflicts(local@, r) == true,
                t,
            ),
{
    routes_by_conflict(local, routes, true)
}

// ── Discovery ────────────────────────────────────────────────────────────────

/// One address of a network interface, as the system lists it. `ipv4` is the
/// address with the length of its prefix, for an IPv4 address.
#[derive(Clone, Debug)]
pub struct InterfaceAddress {
    pub name: String,
    pub loopback: bool,
    pub link_local: bool,
    pub ipv4: Option<(u32, u8)>,
}

/// Whether an interface is left out of discovery: the tunnel itself, and
/// virtual interfaces.
pub open spec fn skipped_interface(name: Seq<char>, exclude: Option<Seq<char>>) -> bool {
    ||| exclude == Some(name)
    ||| name == "lo"@
    ||| name == "docker0"@
    ||| name == "tailscale0"@
    ||| name == "zt0"@
    ||| name == "utun0"@
    ||| name == "utun1"@
    ||| name == "utun2"@
    ||| name == "utun3"@
    ||| "tun"@.is_prefix_of(name)
    ||| "tap"@.is_prefix_of(name)
    ||| "docker"@.is_prefix_of(name)
    ||| "veth"@.is_prefix_of(name)
    ||| "br-"@.is_prefix_of(name)
}

/// Whether an interface is left out of discovery.
pub fn should_skip_interface(name: &str, exclude: Option<&str>) -> (out: bool)
    ensures
        out == skipped_interface(name@, opt_str_view(exclude)),
{
    match exclude {
        Some(e) => {
            if same(e, name) {
                return true;
            }
        },
        None => {},
    }
    same(name, "lo") || same(name, "docker0") || same(name, "tailscale0") || same(name, "zt0")
        || same(name, "utun0") || same(name, "utun1") || same(name, "utun2") || same(name, "utun3")
        || starts_with(name, "tun") || starts_with(name, "tap") || starts_with(name, "docker")
        || starts_with(name, "veth") || starts_with(name, "br-")
}

/// The route that an interface address contributes, if any.
pub open spec fn interface_route(
    address: InterfaceAddress,
    exclude: Option<Seq<char>>,
) -> Option<Ipv4Cidr> {
    if address.loopback || address.link_local || skipped_interface(address.name@, exclude) {
        None
    } else {
        match address.ipv4 {
            Some((ip, prefix)) => {
                let route = Ipv4Cidr { address: ip, length: prefix };
                if prefix != 0 && route.wf() {
                    Some(route)
                } else {
                    None
                }
            },
            None => None,
        }
    }
}

/// The route that an interface address contributes, if any.
fn route_of_interface(address: &InterfaceAddress, exclude: Option<&str>) -> (out: Option<Ipv4Cidr>)
    ensures
        out == interface_route(*address, opt_str_view(exclude)),
{
    if address.loopback || address.link_local {
        return None;
    }
    if should_skip_interface(address.name.as_str(), exclude) {
        return None;
    }
    match address.ipv4 {
        Some((ip, prefix)) => {
            if prefix == 0 {
                return None;
            }
            Ipv4Cidr::new(ip, prefix)
        },
        None => None,
    }
}

/// The routes of the local interfaces, in order and without repetition.
pub fn discover_local_routes(
    interfaces: &Vec<InterfaceAddress>,
    exclude: Option<&str>,
) -> (out: Vec<Ipv4Cidr>)
    ensures
        increasing(out@),
        forall|r: Ipv4Cidr| #[trigger]
            out@.contains(r) <==> exists|i: int|
                0 <= i < interfaces@.len() && interface_route(
                    #[trigger] interfaces@[i],
                    opt_str_view(exclude),
                ) == Some(r),
{
    let mut out: Vec<Ipv4Cidr> = Vec::new();
    let mut i: usize = 0;
    while i < interfaces.len()
        invariant
            i <= interfaces@.len(),
            increasing(out@),
            forall|r: Ipv4Cidr| #[trigger]
                out@.contains(r) <==> exists|k: int|
                    0 <= k < i && interface_route(#[trigger] interfaces@[k], opt_str_view(exclude))
                        == Some(r),
        decreases interfaces@.len() - i,
    {
        let ghost before = out@;
        let found = route_of_interface(&interfaces[i], exclude);
        match found {
            Some(route) => {
                insert_route(&mut out, route);
            },
            None => {},
        }
        proof {
            assert forall|r: Ipv4Cidr| #[trigger] out@.contains(r) <==> exists|k: int|
                0 <= k < i + 1 && interface_route(#[trigger] interfaces@[k], opt_str_view(exclude))
                    == Some(r) by {
                assert(before.contains(r) <==> exists|k: int|
                    0 <= k < i && interface_route(#[trigger] interfaces@[k], opt_str_view(exclude))
                        == Some(r));
                if found == Some(r) {
                    assert(interface_route(interfaces@[i as int], opt_str_view(exclude)) == Some(r));
                }
            }
        }
        i += 1;
    }
    out
}

// ── Configured peers ─────────────────────────────────────────────────────────

/// Whether a list of hashes holds `hash`.
pub fn holds_hash(list: &Vec<AddressHash>, hash: &AddressHash) -> (out: bool)
    ensures
        out == list@.contains(*hash),
{
    let mut i: usize = 0;
    while i < list.len()
        invariant
            i <= list@.len(),
            forall|k: int| 0 <= k < i ==> list@[k] != *hash,
        decreases list@.len() - i,
    {
        if list[i].same(hash) {
            return true;
        }
        i += 1;
    }
    false
}

/// The refusal of a peer that is no hash.
pub open spec fn peer_refusal(peer: Seq<char>, err: Seq<char>) -> Seq<char> {
    "invalid peer '"@ + peer + "': "@ + err
}

/// The set of configured peers: `parsed[i]` is what the transport made of the
/// text `peers[i]`, a hash or the text of its error. The first text that is no
/// hash refuses the whole list.
pub fn parse_configured_peers(
    peers: &Vec<String>,
    parsed: &Vec<Result<AddressHash, String>>,
) -> (out: Result<Vec<AddressHash>, VpnRuntimeError>)
    requires
        parsed@.len() == peers@.len(),
    ensures
        out is Ok <==> forall|i: int| 0 <= i < parsed@.len() ==> (#[trigger] parsed@[i]) is Ok,
        out matches Ok(set) ==> set@.no_duplicates() && forall|h: AddressHash| #[trigger]
            set@.contains(h) <==> exists|i: int|
                0 <= i < parsed@.len() && #[trigger] parsed@[i] == Ok::<AddressHash, String>(h),
        out matches Err(err) ==> err is Config && exists|i: int|
            #![trigger parsed@[i]]
            0 <= i < parsed@.len() && (forall|k: int| 0 <= k < i ==> (#[trigger] parsed@[k]) is Ok)
                && parsed@[i] is Err && error_text(err) == peer_refusal(
                peers@[i]@,
                parsed@[i]->Err_0@,
            ),
{
    let mut out: Vec<AddressHash> = Vec::new();
    let mut i: usize = 0;
    while i < parsed.len()
        invariant
            i <= parsed@.len() == peers@.len(),
            forall|k: int| 0 <= k < i ==> (#[trigger] parsed@[k]) is Ok,
            out@.no_duplicates(),
            forall|h: AddressHash| #[trigger]
                out@.contains(h) <==> exists|k: int|
                    0 <= k < i && #[trigger] parsed@[k] == Ok::<AddressHash, String>(h),
        decreases parsed@.len() - i,
    {
        match &parsed[i] {
            Ok(hash) => {
                let ghost before = out@;
                if !holds_hash(&out, hash) {
                    out.push(*hash);
                }
                proof {
                    assert forall|h: AddressHash| #[trigger] out@.contains(h) <==> exists|k: int|
                        0 <= k < i + 1 && #[trigger] parsed@[k] == Ok::<AddressHash, String>(h) by {
                        assert(before.contains(h) <==> exists|k: int|
                            0 <= k < i && #[trigger] parsed@[k] == Ok::<AddressHash, String>(h));
                        if before.contains(h) {
                            let k = choose|k: int| 0 <= k < before.len() && before[k] == h;
                            assert(out@[k] == h);
                        }
                        if h == *hash {
                            assert(parsed@[i as int] == Ok::<AddressHash, String>(h));
                            if !before.contains(h) {
                                assert(out@[before.len() as int] == h);
                            }
                        }
                        if out@.contains(h) && h != *hash {
                            let k = choose|k: int| 0 <= k < out@.len() && out@[k] == h;
                            assert(before[k] == h);
                        }
                    }
                }
            },
            Err(err) => {
                let message = cat4("invalid peer '", peers[i].as_str(), "': ", err.as_str());
                return Err(VpnRuntimeError::Config(message));
            },
        }
        i += 1;
    }
    Ok(out)
}

// ── Laws of addresses and aliases ────────────────────────────────────────────

/// The sum of the bytes, each weighed with the power of `base` of its place: the
/// last byte counts once, the one before it `base` times, and so on.
pub open spec fn weighed(bytes: Seq<u8>, base: nat) -> nat
    decreases bytes.len(),
{
    if bytes.len() == 0 {
        0
    } else {
        (bytes[0] as nat) * (pow(base as int, (bytes.len() - 1) as nat) as nat) + weighed(
            bytes.skip(1),
            base,
        )
    }
}

/// Bytes read one after the other make up their weighed sum.
proof fn lemma_weighed(start: nat, bytes: Seq<u8>, base: nat)
    ensures
        horner(start, bytes, base) == start * (pow(base as int, bytes.len()) as nat) + weighed(
            bytes,
            base,
        ),
        pow(base as int, bytes.len()) >= 0,
    decreases bytes.len(),
{
    lemma_pow_nat(base, bytes.len());
    if bytes.len() == 0 {
        lemma_pow0(base as int);
        assert(start * 1 == start) by (nonlinear_arith);
    } else {
        let n = bytes.len();
        let rest = bytes.skip(1);
        let next = start * base + bytes[0] as nat;
        lemma_horner_front(start, bytes, base);
        lemma_weighed(next, rest, base);
        lemma_pow_nat(base, (n - 1) as nat);
        lemma_pow1(base as int);
        lemma_pow_adds(base as int, 1, (n - 1) as nat);
        let q = pow(base as int, (n - 1) as nat) as nat;
        assert(next * q == start * (base * q) + (bytes[0] as nat) * q) by (nonlinear_arith)
            requires
                next == start * base + bytes[0] as nat,
        ;
        assert(pow(base as int, n) == base * q);
    }
}

proof fn lemma_pow_nat(base: nat, e: nat)
    ensures
        pow(base as int, e) >= 0,
    decreases e,
{
    reveal(pow);
    if e > 0 {
        lemma_pow_nat(base, (e - 1) as nat);
        assert(base * pow(base as int, (e - 1) as nat) >= 0) by (nonlinear_arith)
            requires
                pow(base as int, (e - 1) as nat) >= 0,
        ;
    }
}

/// Reading the first byte first makes no difference.
proof fn lemma_horner_front(start: nat, bytes: Seq<u8>, base: nat)
    requires
        bytes.len() > 0,
    ensures
        horner(start, bytes, base) == horner(start * base + bytes[0] as nat, bytes.skip(1), base),
    decreases bytes.len(),
{
    if bytes.len() == 1 {
        assert(bytes.drop_last() =~= Seq::<u8>::empty());
        assert(bytes.skip(1) =~= Seq::<u8>::empty());
        assert(horner(start, bytes.drop_last(), base) == start);
    } else {
        lemma_horner_front(start, bytes.drop_last(), base);
        assert(bytes.drop_last().skip(1) =~= bytes.skip(1).drop_last());
        assert(bytes.skip(1).last() == bytes.last());
    }
}

/// The tunnel address of a destination is spelled by all bytes of its hash: it
/// lies behind the first address of the network by one more than the weighed sum
/// of the bytes in base 131, cut to 64 bits and then to the usable hosts.
pub proof fn tunnel_addresses_spell_the_hash(network: Ipv4Cidr, hash: Seq<u8>)
    requires
        network.wf(),
        network.length <= 30,
    ensures
        tunnel_ip(network, hash) == network.address + 1 + weighed(hash, 131)
            % 0x1_0000_0000_0000_0000 % ((pow2((32 - network.length) as nat) - 2) as nat),
{
    lemma_weighed(0, hash, 131);
    assert(0 * (pow(131, hash.len()) as nat) == 0) by (nonlinear_arith);
    lemma_block_size(network.length);
    lemma_last_address_fits(network);
    let m = (block_size(network.length) - 2) as nat;
    let offset = tunnel_offset(network.length, hash);
    lemma_mod_bound((horner(0, hash, 131) % 0x1_0000_0000_0000_0000) as int, m as int);
    lemma_small_mod((network.address + offset) as nat, 0x1_0000_0000);
}

/// A hash with one byte that is not zero has the tunnel address that this byte
/// and its place give.
pub proof fn single_bytes_give_their_address(network: Ipv4Cidr, hash: Seq<u8>, i: int)
    requires
        network.wf(),
        network.length <= 30,
        0 <= i < hash.len(),
        forall|k: int| 0 <= k < hash.len() && k != i ==> hash[k] == 0,
    ensures
        tunnel_ip(network, hash) == network.address + 1 + ((hash[i] as nat) * (pow(
            131,
            (hash.len() - 1 - i) as nat,
        ) as nat)) % 0x1_0000_0000_0000_0000 % ((block_size(network.length) - 2) as nat),
        i == hash.len() - 1 ==> tunnel_ip(network, hash) == network.address + 1 + (hash[i] as nat)
            % ((block_size(network.length) - 2) as nat),
{
    tunnel_addresses_spell_the_hash(network, hash);
    lemma_single_weight(hash, i, 131);
    if i == hash.len() - 1 {
        lemma_pow0(131);
        let b = hash[i] as nat;
        let one = pow(131, (hash.len() - 1 - i) as nat) as nat;
        assert(one == 1);
        assert(b * one == b) by (nonlinear_arith)
            requires
                one == 1,
        ;
        lemma_small_mod(b, 0x1_0000_0000_0000_0000);
    }
}

proof fn lemma_single_weight(bytes: Seq<u8>, i: int, base: nat)
    requires
        0 <= i < bytes.len(),
        forall|k: int| 0 <= k < bytes.len() && k != i ==> bytes[k] == 0,
    ensures
        weighed(bytes, base) == (bytes[i] as nat) * (pow(
            base as int,
            (bytes.len() - 1 - i) as nat,
        ) as nat),
    decreases bytes.len(),
{
    let rest = bytes.skip(1);
    let q = pow(base as int, (bytes.len() - 1) as nat) as nat;
    assert forall|k: int| 0 <= k < rest.len() && k + 1 != i implies rest[k] == 0 by {
        assert(rest[k] == bytes[k + 1]);
    }
    if i > 0 {
        assert(bytes[0] == 0);
        assert(0 * q == 0) by (nonlinear_arith);
        assert(rest[i - 1] == bytes[i]);
        lemma_single_weight(rest, i - 1, base);
    } else {
        lemma_no_weight(rest, base);
    }
}

proof fn lemma_no_weight(bytes: Seq<u8>, base: nat)
    requires
        forall|k: int| 0 <= k < bytes.len() ==> bytes[k] == 0,
    ensures
        weighed(bytes, base) == 0,
    decreases bytes.len(),
{
    if bytes.len() > 0 {
        let q = pow(base as int, (bytes.len() - 1) as nat) as nat;
        assert(bytes[0] == 0);
        assert(0 * q == 0) by (nonlinear_arith);
        lemma_no_weight(bytes.skip(1), base);
    }
}

/// Two destinations whose hashes differ in the last byte have different tunnel
/// addresses, as long as the difference is smaller than the number of usable
/// hosts and the sum of the bytes does not pass 64 bits between them.
pub proof fn neighbours_have_addresses_of_their_own(
    network: Ipv4Cidr,
    a: Seq<u8>,
    b: Seq<u8>,
)
    requires
        network.wf(),
        network.length <= 30,
        a.len() == b.len() > 0,
        a.drop_last() == b.drop_last(),
        a.last() < b.last(),
        b.last() - a.last() < block_size(network.length) - 2,
        weighed(a, 131) % 0x1_0000_0000_0000_0000 + (b.last() - a.last())
            < 0x1_0000_0000_0000_0000,
    ensures
        tunnel_ip(network, a) != tunnel_ip(network, b),
{
    tunnel_addresses_spell_the_hash(network, a);
    tunnel_addresses_spell_the_hash(network, b);
    lemma_weighed(0, a, 131);
    lemma_weighed(0, b, 131);
    assert(0 * (pow(131, a.len()) as nat) == 0) by (nonlinear_arith);
    lemma_block_size(network.length);
    let d = (b.last() - a.last()) as nat;
    let x = weighed(a, 131);
    let y = weighed(b, 131);
    assert(y == x + d);
    let m = 0x1_0000_0000_0000_0000nat;
    let s = x % m;
    assert(y % m == s + d) by {
        lemma_add_mod_noop(x as int, d as int, m as int);
        lemma_small_mod(d, m);
        lemma_small_mod((s + d) as nat, m);
    }
    let u = (block_size(network.length) - 2) as nat;
    if s % u == (s + d) % u {
        lemma_mod_bound(s as int, u as int);
        lemma_fundamental_div_mod(s as int, u as int);
        lemma_fundamental_div_mod((s + d) as int, u as int);
        let p = s as int / (u as int);
        let q = (s + d) as int / (u as int);
        assert(u * q - u * p == d);
        assert(u * (q - p) == d) by (nonlinear_arith)
            requires
                u * q - u * p == d,
        ;
        assert(false) by (nonlinear_arith)
            requires
                u * (q - p) == d,
                0 < d < u,
        ;
    }
}

/// The third octet of an alias, before the octet of the route itself is avoided:
/// the weighed sum of the hash in base 167 and of the four octets of the route in
/// base 131 picks it.
pub open spec fn picked_octet(hash: Seq<u8>, route: Ipv4Cidr) -> nat {
    let mixed = weighed(hash, 167) * 294_499_921 + octet(route.address, 0) * 2_248_091 + octet(
        route.address,
        1,
    ) * 17_161 + octet(route.address, 2) * 131 + octet(route.address, 3);
    ((mixed * 31 + 24) as nat) % 0x1_0000_0000 % 155 + 100
}

/// The alias of a /24 is picked by all bytes of the destination and all octets of
/// the route; only where the pick is the route itself is it the next one in the
/// circle from 100 to 254.
pub proof fn aliases_are_picked_by_hash_and_route(hash: Seq<u8>, route: Ipv4Cidr)
    requires
        route.length == 24,
    ensures
        ({
            let alias = exported_route(hash, route).address;
            let own = octet(route.address, 0) == 192 && octet(route.address, 1) == 168 && octet(
                route.address,
                2,
            ) == picked_octet(hash, route);
            &&& octet(alias, 0) == 192 && octet(alias, 1) == 168 && octet(alias, 3) == 0
            &&& !own ==> octet(alias, 2) == picked_octet(hash, route)
            &&& own && picked_octet(hash, route) < 254 ==> octet(alias, 2) == picked_octet(
                hash,
                route,
            ) + 1
            &&& own && picked_octet(hash, route) == 254 ==> octet(alias, 2) == 100
        }),
{
    lemma_alias_mix(hash, route);
    lemma_alias_octets(alias_octet(hash, route));
}

/// What the seed of an alias is made of.
proof fn lemma_alias_mix(hash: Seq<u8>, route: Ipv4Cidr)
    ensures
        horner(horner(0, hash, 167), octets(route.address), 131) == weighed(hash, 167) * 294_499_921
            + octet(route.address, 0) * 2_248_091 + octet(route.address, 1) * 17_161 + octet(
            route.address,
            2,
        ) * 131 + octet(route.address, 3),
{
    lemma_weighed(0, hash, 167);
    assert(0 * (pow(167, hash.len()) as nat) == 0) by (nonlinear_arith);
    let o = octets(route.address);
    let h = weighed(hash, 167);
    let a = octet(route.address, 0) as nat;
    let b = octet(route.address, 1) as nat;
    let c = octet(route.address, 2) as nat;
    let d = octet(route.address, 3) as nat;
    lemma_horner_front(h, o, 131);
    let o1 = o.skip(1);
    lemma_horner_front(h * 131 + a, o1, 131);
    let o2 = o1.skip(1);
    lemma_horner_front((h * 131 + a) * 131 + b, o2, 131);
    let o3 = o2.skip(1);
    lemma_horner_front(((h * 131 + a) * 131 + b) * 131 + c, o3, 131);
    assert(o3.skip(1) =~= Seq::<u8>::empty());
    assert(o1[0] == o[1] && o2[0] == o[2] && o3[0] == o[3]);
}

/// The octets of the address of the next /24.
proof fn lemma_next_octets(a: u32, b: u32)
    requires
        b == a + 256,
        octet(a, 2) < 255,
    ensures
        octet(b, 0) == octet(a, 0),
        octet(b, 1) == octet(a, 1),
        octet(b, 2) == octet(a, 2) + 1,
        octet(b, 3) == octet(a, 3),
{
    let p = a / 0x100;
    let q = b / 0x100;
    assert(q == p + 1);
    assert(a / 0x1_0000 == p / 0x100);
    assert(b / 0x1_0000 == q / 0x100);
    assert(q / 0x100 == p / 0x100);
    assert(a / 0x100_0000 == p / 0x1_0000);
    assert(b / 0x100_0000 == q / 0x1_0000);
    assert(p / 0x1_0000 == p / 0x100 / 0x100);
    assert(q / 0x1_0000 == q / 0x100 / 0x100);
}

/// Two /24 routes next to each other are exported under different networks, by
/// every destination.
pub proof fn neighbouring_routes_have_different_aliases(
    hash: Seq<u8>,
    a: Ipv4Cidr,
    b: Ipv4Cidr,
)
    requires
        a.wf(),
        b.wf(),
        a.length == 24,
        b.length == 24,
        b.address == a.address + 256,
        octet(a.address, 2) < 255,
    ensures
        exported_route(hash, a) != exported_route(hash, b),
{
    aliases_are_picked_by_hash_and_route(hash, a);
    aliases_are_picked_by_hash_and_route(hash, b);
    lemma_next_octets(a.address, b.address);
    let x = weighed(hash, 167) * 294_499_921 + octet(a.address, 0) * 2_248_091 + octet(a.address, 1)
        * 17_161 + octet(a.address, 2) * 131 + octet(a.address, 3);
    lemma_picks_differ((x * 31 + 24) as nat, 4_061);
}

/// Two destinations whose hashes differ by one in the last byte export a /24
/// under different networks, whatever route it is.
pub proof fn neighbouring_destinations_have_different_aliases(
    a: Seq<u8>,
    b: Seq<u8>,
    route: Ipv4Cidr,
)
    requires
        route.length == 24,
        a.len() == b.len() > 0,
        a.drop_last() == b.drop_last(),
        b.last() == a.last() + 1,
    ensures
        exported_route(a, route) != exported_route(b, route),
{
    aliases_are_picked_by_hash_and_route(a, route);
    aliases_are_picked_by_hash_and_route(b, route);
    lemma_weighed(0, a, 167);
    lemma_weighed(0, b, 167);
    assert(0 * (pow(167, a.len()) as nat) == 0) by (nonlinear_arith);
    assert(weighed(b, 167) == weighed(a, 167) + 1);
    let x = weighed(a, 167) * 294_499_921 + octet(route.address, 0) * 2_248_091 + octet(
        route.address,
        1,
    ) * 17_161 + octet(route.address, 2) * 131 + octet(route.address, 3);
    lemma_picks_differ((x * 31 + 24) as nat, 9_129_497_551);
}

/// A seed that moves on by either of two amounts picks an octet that is neither
/// the same nor the next one, nor the one before.
proof fn lemma_picks_differ(seed: nat, by: nat)
    requires
        by == 4_061 || by == 9_129_497_551,
    ensures
        ({
            let first = seed % 0x1_0000_0000 % 155;
            let second = (seed + by) % 0x1_0000_0000 % 155;
            &&& first != second
            &&& first + 1 != second
            &&& second + 1 != first
            &&& !(first == 154 && second == 0)
            &&& !(first == 0 && second == 154)
        }),
{
    let s = seed % 0x1_0000_0000;
    let t = (seed + by) % 0x1_0000_0000;
    if by == 4_061 {
        assert(t == s + 4_061 || t == s + 4_061 - 0x1_0000_0000);
    } else {
        assert(t == s + 539_562_959 || t == s + 539_562_959 - 0x1_0000_0000);
    }
}

/// Virtual interfaces and the one that is excluded are left out of discovery,
/// whatever follows the beginning of their names; others are not.
pub proof fn virtual_interfaces_are_skipped(rest: Seq<char>, exclude: Option<Seq<char>>)
    ensures
        skipped_interface("tun"@ + rest, exclude),
        skipped_interface("tap"@ + rest, exclude),
        skipped_interface("docker"@ + rest, exclude),
        skipped_interface("veth"@ + rest, exclude),
        skipped_interface("br-"@ + rest, exclude),
        skipped_interface("lo"@, exclude),
        skipped_interface("tailscale0"@, exclude),
        skipped_interface("zt0"@, exclude),
        skipped_interface(rest, Some(rest)),
        rest.len() > 0 && (rest[0] == 'e' || rest[0] == 'w' || rest[0] == 'p') ==> skipped_interface(
            rest,
            exclude,
        ) == (exclude == Some(rest)),
{
    lemma_begins("tun"@, rest);
    lemma_begins("tap"@, rest);
    lemma_begins("docker"@, rest);
    lemma_begins("veth"@, rest);
    lemma_begins("br-"@, rest);
    reveal_strlit("tun");
    reveal_strlit("tap");
    reveal_strlit("docker");
    reveal_strlit("veth");
    reveal_strlit("br-");
    reveal_strlit("lo");
    reveal_strlit("docker0");
    reveal_strlit("tailscale0");
    reveal_strlit("zt0");
    reveal_strlit("utun0");
    reveal_strlit("utun1");
    reveal_strlit("utun2");
    reveal_strlit("utun3");
    if rest.len() > 0 && (rest[0] == 'e' || rest[0] == 'w' || rest[0] == 'p') {
        lemma_begins_otherwise("tun"@, rest);
        lemma_begins_otherwise("tap"@, rest);
        lemma_begins_otherwise("docker"@, rest);
        lemma_begins_otherwise("veth"@, rest);
        lemma_begins_otherwise("br-"@, rest);
        assert("lo"@[0] == 'l');
        assert("docker0"@[0] == 'd');
        assert("tailscale0"@[0] == 't');
        assert("zt0"@[0] == 'z');
        assert("utun0"@[0] == 'u' && "utun1"@[0] == 'u');
        assert("utun2"@[0] == 'u' && "utun3"@[0] == 'u');
    }
}

proof fn lemma_begins(start: Seq<char>, rest: Seq<char>)
    ensures
        start.is_prefix_of(start + rest),
{
}

proof fn lemma_begins_otherwise(start: Seq<char>, name: Seq<char>)
    requires
        start.len() > 0,
        name.len() > 0,
        start[0] != name[0],
    ensures
        !start.is_prefix_of(name),
{
    if start.is_prefix_of(name) {
        assert(start =~= name.take(start.len() as int));
    }
}

/// The address of an ordinary interface that is itself the first of its network
/// gives that network, as it is written.
pub proof fn interfaces_give_their_network(address: InterfaceAddress, exclude: Option<Seq<char>>)
    ensures
        address.loopback ==> interface_route(address, exclude) is None,
        address.link_local ==> interface_route(address, exclude) is None,
        skipped_interface(address.name@, exclude) ==> interface_route(address, exclude) is None,
        interface_route(address, exclude) matches Some(route) ==> address.ipv4 == Some(
            (route.address, route.length),
        ) && route.wf() && route.length > 0,
        address.ipv4 matches Some((ip, length)) ==> !address.loopback && !address.link_local
            && !skipped_interface(address.name@, exclude) && length > 0 && (Ipv4Cidr {
            address: ip,
            length,
        }).wf() ==> interface_route(address, exclude) == Some(Ipv4Cidr { address: ip, length }),
{
}

/// Every route that is kept is named.
pub proof fn kept_routes_are_named(
    routes: Seq<Ipv4Cidr>,
    keep: spec_fn(Ipv4Cidr) -> bool,
    i: int,
)
    requires
        0 <= i < routes.len(),
        keep(routes[i]),
    ensures
        names_route(routes, keep, route_text(routes[i])),
{
}

/// A remote route conflicts where it shares an address with a local route, or with
/// the one that stands for it.
pub proof fn routes_conflict_where_they_share_an_address(
    local: Seq<LocalRouteTranslation>,
    route: Ipv4Cidr,
    i: int,
    address: u32,
)
    requires
        route.wf(),
        0 <= i < local.len(),
        local[i].local.wf(),
        local[i].exported.wf(),
        route.has(address),
        local[i].local.has(address) || local[i].exported.has(address),
    ensures
        conflicts(local, route),
{
    overlap_is_a_shared_address(route, local[i].local);
    overlap_is_a_shared_address(route, local[i].exported);
}

/// A remote route that shares no address with any of them does not conflict.
pub proof fn routes_apart_do_not_conflict(local: Seq<LocalRouteTranslation>, route: Ipv4Cidr)
    requires
        route.wf(),
        forall|i: int|
            0 <= i < local.len() ==> (#[trigger] local[i]).local.wf() && local[i].exported.wf(),
        forall|i: int, address: u32|
            #![trigger local[i], route.has(address)]
            0 <= i < local.len() && route.has(address) ==> !local[i].local.has(address)
                && !local[i].exported.has(address),
    ensures
        !conflicts(local, route),
{
    if conflicts(local, route) {
        let i = choose|i: int|
            0 <= i < local.len() && (overlap(route, (#[trigger] local[i]).local) || overlap(
                route,
                local[i].exported,
            ));
        overlap_is_a_shared_address(route, local[i].local);
        overlap_is_a_shared_address(route, local[i].exported);
    }
}

} // verus!
