//! The state of the VPN: its peers, its routes and who may use it.
use crate::order::viewed;
use crate::text::{cat2, opt_view, views};
use crate::text_set::{ascending, difference};
use crate::vpn::network::{network_text_is_injective, Ipv4Cidr};
use crate::vpn::packet::{destination_of, packet_destination};
use crate::vpn::peer::{
    activated_peer, closed_peer, counted_drop, counted_rx, counted_tx, finish_request, fresh_peer,
    link_request_on_cooldown, live, mark_link_active, mark_link_closed, no_traffic, on_cooldown,
    out_link_needs_reset, reusable, same_apart_from_link, should_reuse_existing_out_link, stuck,
    sync_peer_link_state, synced_peer, tun_tx_requires_backoff, LinkState, LinkStatus, Peer,
    PeerView, TrafficMetrics, LINK_RECONNECT_COOLDOWN_SECS, ROUTE_GRACE_SECS,
};
use crate::vpn::routes::{
    conflicts, derive_tunnel_ip, error_text, exported_route, exported_route_is_an_alias, holds_hash,
    increasing, local_route_translations, merge_routes, names_route, network_refusal, overlap,
    overlap_is_a_shared_address, parse_configured_peers, peer_refusal, route_text,
    routes_by_conflict, translations, tunnel_ip, AddressHash, LocalRouteTranslation,
    VpnRuntimeError,
};
use vstd::prelude::*;

verus! {

pub const STATUS_RUNNING: u8 = 0;

pub const STATUS_MOCK: u8 = 1;

pub const STATUS_ERROR: u8 = 2;

/// The name of a status code.
pub open spec fn status_name(code: u8) -> Seq<char> {
    if code == STATUS_MOCK {
        "mock"@
    } else if code == STATUS_ERROR {
        "error"@
    } else {
        "running"@
    }
}

/// The name of a status code.
pub fn status_str(code: u8) -> (out: &'static str)
    ensures
        out@ == status_name(code),
{
    if code == STATUS_MOCK {
        "mock"
    } else if code == STATUS_ERROR {
        "error"
    } else {
        "running"
    }
}

// ── State ────────────────────────────────────────────────────────────────────

/// The state of the VPN.
#[derive(Debug)]
pub struct VpnRuntime {
    pub destination: AddressHash,
    pub network: Ipv4Cidr,
    pub local_tunnel_ip: u32,
    pub interface_name: Option<String>,
    pub backend: String,
    pub route_aliasing_enabled: bool,
    pub status: u8,
    pub peers: Vec<Peer>,
    pub allow_all_peers: bool,
    pub allowed_peers: Vec<AddressHash>,
    pub advertised_routes: Vec<Ipv4Cidr>,
    pub local_routes: Vec<Ipv4Cidr>,
    pub installed_routes: Vec<String>,
    pub conflicted_routes: Vec<String>,
    pub metrics: TrafficMetrics,
    pub last_error: Option<String>,
}

/// What the state of the VPN holds.
pub struct RuntimeView {
    pub destination: AddressHash,
    pub network: Ipv4Cidr,
    pub local_tunnel_ip: u32,
    pub interface_name: Option<Seq<char>>,
    pub backend: Seq<char>,
    pub route_aliasing_enabled: bool,
    pub status: u8,
    pub peers: Seq<PeerView>,
    pub allow_all_peers: bool,
    pub allowed_peers: Seq<AddressHash>,
    pub advertised_routes: Seq<Ipv4Cidr>,
    pub local_routes: Seq<Ipv4Cidr>,
    pub installed_routes: Seq<Seq<char>>,
    pub conflicted_routes: Seq<Seq<char>>,
    pub metrics: TrafficMetrics,
    pub last_error: Option<Seq<char>>,
}

impl View for VpnRuntime {
    type V = RuntimeView;

    open spec fn view(&self) -> RuntimeView {
        RuntimeView {
            destination: self.destination,
            network: self.network,
            local_tunnel_ip: self.local_tunnel_ip,
            interface_name: opt_view(self.interface_name),
            backend: self.backend@,
            route_aliasing_enabled: self.route_aliasing_enabled,
            status: self.status,
            peers: viewed(self.peers@),
            allow_all_peers: self.allow_all_peers,
            allowed_peers: self.allowed_peers@,
            advertised_routes: self.advertised_routes@,
            local_routes: self.local_routes@,
            installed_routes: views(self.installed_routes@),
            conflicted_routes: views(self.conflicted_routes@),
            metrics: self.metrics,
            last_error: opt_view(self.last_error),
        }
    }
}

/// Whether every network of a list is one.
pub open spec fn all_wf(routes: Seq<Ipv4Cidr>) -> bool {
    forall|i: int| 0 <= i < routes.len() ==> (#[trigger] routes[i]).wf()
}

/// Whether a peer belongs into the VPN: it is not the gateway itself, it has
/// the tunnel address of its hash, and its routes are networks.
pub open spec fn peer_wf(peer: PeerView, destination: AddressHash, network: Ipv4Cidr) -> bool {
    &&& peer.hash != destination
    &&& peer.tunnel_ip == tunnel_ip(network, peer.hash@)
    &&& all_wf(peer.routes)
}

/// Whether no two peers have the same hash.
pub open spec fn distinct_peers(peers: Seq<PeerView>) -> bool {
    forall|i: int, j: int|
        0 <= i < j < peers.len() ==> (#[trigger] peers[i]).hash != (#[trigger] peers[j]).hash
}

impl RuntimeView {
    /// The network can hold tunnels, the gateway has its own tunnel address,
    /// every peer belongs into the VPN and may use it, and no route is both
    /// installed and in conflict.
    pub open spec fn wf(self) -> bool {
        &&& self.network.wf()
        &&& self.network.length <= 30
        &&& self.local_tunnel_ip == tunnel_ip(self.network, self.destination@)
        &&& forall|i: int|
            0 <= i < self.peers.len() ==> peer_wf(
                #[trigger] self.peers[i],
                self.destination,
                self.network,
            )
        &&& distinct_peers(self.peers)
        &&& forall|i: int|
            0 <= i < self.peers.len() ==> self.allows((#[trigger] self.peers[i]).hash)
        &&& all_wf(self.advertised_routes)
        &&& all_wf(self.local_routes)
        &&& ascending(self.installed_routes)
        &&& ascending(self.conflicted_routes)
        &&& forall|t: Seq<char>|
            !(#[trigger] self.installed_routes.contains(t) && self.conflicted_routes.contains(t))
    }

    /// Whether a destination may be a peer.
    pub open spec fn allows(self, hash: AddressHash) -> bool {
        hash != self.destination && (self.allow_all_peers || self.allowed_peers.contains(hash))
    }
}

/// The index of the peer with a hash, or the number of peers where there is
/// none.
pub open spec fn position(peers: Seq<PeerView>, hash: AddressHash) -> int
    decreases peers.len(),
{
    if peers.len() == 0 {
        0
    } else if position(peers.drop_last(), hash) < peers.len() - 1 {
        position(peers.drop_last(), hash)
    } else if peers.last().hash == hash {
        peers.len() - 1
    } else {
        peers.len() as int
    }
}

/// Whether there is a peer with a hash.
pub open spec fn known(peers: Seq<PeerView>, hash: AddressHash) -> bool {
    position(peers, hash) < peers.len()
}

pub proof fn lemma_position(peers: Seq<PeerView>, hash: AddressHash)
    ensures
        0 <= position(peers, hash) <= peers.len(),
        known(peers, hash) ==> peers[position(peers, hash)].hash == hash,
        forall|k: int| 0 <= k < position(peers, hash) ==> (#[trigger] peers[k]).hash != hash,
    decreases peers.len(),
{
    if peers.len() > 0 {
        lemma_position(peers.drop_last(), hash);
        assert forall|k: int| 0 <= k < position(peers, hash) implies (#[trigger] peers[k]).hash
            != hash by {
            if k < peers.len() - 1 {
                assert(peers.drop_last()[k] == peers[k]);
            }
        }
    }
}

proof fn lemma_position_is(peers: Seq<PeerView>, hash: AddressHash, n: int)
    requires
        0 <= n <= peers.len(),
        n < peers.len() ==> peers[n].hash == hash,
        forall|k: int| 0 <= k < n ==> (#[trigger] peers[k]).hash != hash,
    ensures
        position(peers, hash) == n,
{
    lemma_position(peers, hash);
    let m = position(peers, hash);
    if m < n {
        assert(peers[m].hash != hash);
    } else if n < m {
        assert(peers[n].hash != hash);
    }
}

impl VpnRuntime {
    /// The index of the peer with a hash.
    pub fn find_peer(&self, hash: &AddressHash) -> (out: Option<usize>)
        ensures
            match out {
                Some(i) => i == position(self@.peers, *hash) && i < self@.peers.len(),
                None => !known(self@.peers, *hash),
            },
    {
        let mut i: usize = 0;
        while i < self.peers.len()
            invariant
                i <= self.peers@.len(),
                forall|k: int| 0 <= k < i ==> (#[trigger] self@.peers[k]).hash != *hash,
            decreases self.peers@.len() - i,
        {
            assert(self@.peers[i as int] == self.peers@[i as int]@);
            if self.peers[i].hash.same(hash) {
                proof {
                    lemma_position_is(self@.peers, *hash, i as int);
                }
                return Some(i);
            }
            i += 1;
        }
        proof {
            lemma_position_is(self@.peers, *hash, i as int);
        }
        None
    }

    /// Whether a destination may be a peer: never the gateway itself, and
    /// otherwise everyone, or those on the list.
    pub fn peer_allowed(&self, hash: &AddressHash) -> (out: bool)
        ensures
            out == self@.allows(*hash),
    {
        if hash.same(&self.destination) {
            return false;
        }
        self.allow_all_peers || holds_hash(&self.allowed_peers, hash)
    }
}

// ── Start and policy ─────────────────────────────────────────────────────────

/// The peers once each of `hashes` has a place: the gateway itself and peers
/// that are there already are passed over.
pub open spec fn seeded(
    peers: Seq<PeerView>,
    hashes: Seq<AddressHash>,
    destination: AddressHash,
    network: Ipv4Cidr,
) -> Seq<PeerView>
    decreases hashes.len(),
{
    if hashes.len() == 0 {
        peers
    } else {
        let before = seeded(peers, hashes.drop_last(), destination, network);
        let hash = hashes.last();
        if hash == destination || known(before, hash) {
            before
        } else {
            before.push(fresh_peer(hash, tunnel_ip(network, hash@), LinkState::Configured))
        }
    }
}

proof fn lemma_push_distinct(peers: Seq<PeerView>, peer: PeerView)
    requires
        distinct_peers(peers),
        !known(peers, peer.hash),
    ensures
        distinct_peers(peers.push(peer)),
{
    lemma_position(peers, peer.hash);
    let all = peers.push(peer);
    assert forall|i: int, j: int| 0 <= i < j < all.len() implies (#[trigger] all[i]).hash != (
    #[trigger] all[j]).hash by {
        if j == peers.len() {
            assert(all[i] == peers[i]);
        } else {
            assert(all[i] == peers[i] && all[j] == peers[j]);
        }
    }
}

proof fn lemma_seeded(
    peers: Seq<PeerView>,
    hashes: Seq<AddressHash>,
    destination: AddressHash,
    network: Ipv4Cidr,
)
    requires
        distinct_peers(peers),
        forall|i: int|
            0 <= i < peers.len() ==> peer_wf(#[trigger] peers[i], destination, network),
    ensures
        distinct_peers(seeded(peers, hashes, destination, network)),
        forall|i: int|
            0 <= i < seeded(peers, hashes, destination, network).len() ==> peer_wf(
                #[trigger] seeded(peers, hashes, destination, network)[i],
                destination,
                network,
            ),
        forall|i: int|
            0 <= i < seeded(peers, hashes, destination, network).len() ==> known(
                peers,
                (#[trigger] seeded(peers, hashes, destination, network)[i]).hash,
            ) || hashes.contains(seeded(peers, hashes, destination, network)[i].hash),
    decreases hashes.len(),
{
    if hashes.len() > 0 {
        let before = seeded(peers, hashes.drop_last(), destination, network);
        let all = seeded(peers, hashes, destination, network);
        let hash = hashes.last();
        lemma_seeded(peers, hashes.drop_last(), destination, network);
        if !(hash == destination || known(before, hash)) {
            lemma_push_distinct(
                before,
                fresh_peer(hash, tunnel_ip(network, hash@), LinkState::Configured),
            );
        }
        assert forall|i: int| 0 <= i < all.len() implies known(peers, (#[trigger] all[i]).hash)
            || hashes.contains(all[i].hash) by {
            if i < before.len() {
                assert(all[i] == before[i]);
                if hashes.drop_last().contains(before[i].hash) {
                    let m = choose|m: int|
                        0 <= m < hashes.drop_last().len() && hashes.drop_last()[m]
                            == before[i].hash;
                    assert(hashes[m] == before[i].hash);
                }
            } else {
                assert(hashes[hashes.len() - 1] == hash);
            }
        }
        assert forall|i: int| 0 <= i < all.len() implies peer_wf(
            #[trigger] all[i],
            destination,
            network,
        ) by {
            if i < before.len() {
                assert(all[i] == before[i]);
            }
        }
    } else {
        assert forall|i: int| 0 <= i < peers.len() implies known(
            peers,
            (#[trigger] peers[i]).hash,
        ) by {
            lemma_position(peers, peers[i].hash);
        }
    }
}

/// The peers that a policy leaves: the ones that are there and the ones that it
/// names, and only the latter where it is a list.
pub open spec fn policy_peers(
    peers: Seq<PeerView>,
    allow_all: bool,
    allowed: Seq<AddressHash>,
    destination: AddressHash,
    network: Ipv4Cidr,
) -> Seq<PeerView> {
    let all = seeded(peers, allowed, destination, network);
    if allow_all {
        all
    } else {
        all.filter(|p: PeerView| allowed.contains(p.hash))
    }
}

proof fn lemma_filter_peers(peers: Seq<PeerView>, keep: spec_fn(PeerView) -> bool)
    requires
        distinct_peers(peers),
    ensures
        distinct_peers(peers.filter(keep)),
        forall|i: int|
            0 <= i < peers.filter(keep).len() ==> keep(#[trigger] peers.filter(keep)[i])
                && peers.contains(peers.filter(keep)[i]),
    decreases peers.len(),
{
    reveal(Seq::filter);
    if peers.len() > 0 {
        let rest = peers.drop_last();
        let kept = rest.filter(keep);
        let all = peers.filter(keep);
        lemma_filter_peers(rest, keep);
        assert forall|i: int| 0 <= i < all.len() implies keep(#[trigger] all[i]) && peers.contains(
            all[i],
        ) by {
            if i < kept.len() {
                assert(all[i] == kept[i]);
                let m = choose|m: int| 0 <= m < rest.len() && rest[m] == kept[i];
                assert(peers[m] == kept[i]);
            } else {
                assert(peers[peers.len() - 1] == all[i]);
            }
        }
        assert forall|i: int, j: int| 0 <= i < j < all.len() implies (#[trigger] all[i]).hash != (
        #[trigger] all[j]).hash by {
            if j < kept.len() {
                assert(all[i] == kept[i] && all[j] == kept[j]);
            } else {
                assert(all[i] == kept[i]);
                assert(all[j] == peers.last());
                let m = choose|m: int| 0 <= m < rest.len() && rest[m] == kept[i];
                assert(peers[m] == kept[i]);
                assert(peers[m].hash != peers[peers.len() - 1].hash);
            }
        }
    }
}

impl VpnRuntime {
    /// Gives each of `hashes` a place among the peers.
    fn seed_peers(&mut self, hashes: &Vec<AddressHash>)
        requires
            old(self)@.network.wf(),
            old(self)@.network.length <= 30,
        ensures
            final(self)@ == (RuntimeView {
                peers: seeded(
                    old(self)@.peers,
                    hashes@,
                    old(self)@.destination,
                    old(self)@.network,
                ),
                ..old(self)@
            }),
    {
        let ghost start = self@;
        let mut i: usize = 0;
        assert(hashes@.take(0) =~= Seq::<AddressHash>::empty());
        while i < hashes.len()
            invariant
                i <= hashes@.len(),
                start.network.wf(),
                start.network.length <= 30,
                self@ == (RuntimeView {
                    peers: seeded(
                        start.peers,
                        hashes@.take(i as int),
                        start.destination,
                        start.network,
                    ),
                    ..start
                }),
            decreases hashes@.len() - i,
        {
            let hash = hashes[i];
            let ghost before = self@.peers;
            proof {
                let t = hashes@.take(i + 1);
                assert(t.drop_last() =~= hashes@.take(i as int));
                assert(t.last() == hash);
            }
            let skip = hash.same(&self.destination) || self.find_peer(&hash).is_some();
            if !skip {
                match derive_tunnel_ip(self.network, &hash) {
                    Ok(tunnel_ip) => {
                        let peer = Peer::new(hash, tunnel_ip, LinkState::Configured);
                        self.peers.push(peer);
                        assert(viewed(self.peers@) =~= before.push(peer@));
                    },
                    Err(_) => {},
                }
            }
            i += 1;
        }
        assert(hashes@.take(i as int) =~= hashes@);
    }

    /// Drops the peers that are not on the list, and names them.
    fn retain_listed_peers(&mut self) -> (removed: Vec<AddressHash>)
        ensures
            final(self)@ == (RuntimeView {
                peers: old(self)@.peers.filter(
                    |p: PeerView| old(self)@.allowed_peers.contains(p.hash),
                ),
                ..old(self)@
            }),
            forall|h: AddressHash| #[trigger]
                removed@.contains(h) <==> exists|i: int|
                    0 <= i < old(self)@.peers.len() && (#[trigger] old(self)@.peers[i]).hash == h
                        && !old(self)@.allowed_peers.contains(h),
    {
        let ghost start = self@;
        let ghost all = start.peers;
        let ghost keep = |p: PeerView| start.allowed_peers.contains(p.hash);
        let mut removed: Vec<AddressHash> = Vec::new();
        let mut kept: Vec<Peer> = Vec::new();
        let ghost mut n: int = 0;
        proof {
            reveal(Seq::filter);
            assert(all.take(0).filter(keep) =~= Seq::<PeerView>::empty());
            assert(viewed(kept@) =~= Seq::<PeerView>::empty());
            assert(all.skip(0) =~= all);
        }
        while self.peers.len() > 0
            invariant
                0 <= n <= all.len(),
                keep == (|p: PeerView| start.allowed_peers.contains(p.hash)),
                all == start.peers,
                self@ == (RuntimeView { peers: all.skip(n), ..start }),
                viewed(kept@) == all.take(n).filter(keep),
                forall|h: AddressHash| #[trigger]
                    removed@.contains(h) <==> exists|i: int|
                        0 <= i < n && (#[trigger] all[i]).hash == h && !start.allowed_peers.contains(
                            h,
                        ),
            decreases self.peers@.len(),
        {
            let ghost rest = viewed(self.peers@);
            let ghost kept_before = viewed(kept@);
            let ghost removed_before = removed@;
            let peer = self.peers.remove(0);
            proof {
                reveal(Seq::filter);
                assert(peer@ == rest[0]);
                assert(rest == all.skip(n));
                assert(rest.len() == all.len() - n);
                assert(all.skip(n)[0] == all[n]);
                assert(viewed(self.peers@) =~= rest.remove(0));
                assert(rest.remove(0) =~= all.skip(n + 1));
                assert(all.take(n + 1).drop_last() =~= all.take(n));
                assert(all.take(n + 1).last() == all[n]);
            }
            let hash = peer.hash;
            let stays = holds_hash(&self.allowed_peers, &hash);
            if stays {
                kept.push(peer);
                assert(viewed(kept@) =~= kept_before.push(peer@));
            } else {
                removed.push(hash);
            }
            proof {
                assert forall|h: AddressHash| #[trigger] removed@.contains(h) <==> exists|i: int|
                    0 <= i < n + 1 && (#[trigger] all[i]).hash == h
                        && !start.allowed_peers.contains(h) by {
                    assert(removed_before.contains(h) <==> exists|i: int|
                        0 <= i < n && (#[trigger] all[i]).hash == h
                            && !start.allowed_peers.contains(h));
                    if removed_before.contains(h) {
                        let k = choose|k: int|
                            0 <= k < removed_before.len() && removed_before[k] == h;
                        assert(removed@[k] == h);
                    }
                    if !stays && h == hash {
                        assert(removed@[removed_before.len() as int] == h);
                        assert(all[n].hash == h);
                    }
                    if removed@.contains(h) && !removed_before.contains(h) {
                        let k = choose|k: int| 0 <= k < removed@.len() && removed@[k] == h;
                        if k < removed_before.len() {
                            assert(removed_before[k] == h);
                        }
                    }
                }
                n = n + 1;
            }
        }
        assert(n == all.len()) by {
            assert(viewed(self.peers@).len() == all.skip(n).len());
        }
        assert(all.take(n) =~= all);
        self.peers = kept;
        removed
    }

    /// The VPN on a destination of the transport: with its own tunnel address,
    /// the routes of the host and the advertised ones, and a place for each
    /// configured peer. Without a tunnel interface it only pretends to run.
    pub fn start(
        network: Ipv4Cidr,
        allow_all_peers: bool,
        configured_peers: Vec<AddressHash>,
        advertised_routes: Vec<Ipv4Cidr>,
        destination: AddressHash,
        interface_name: Option<String>,
        backend: String,
        route_aliasing_enabled: bool,
        discovered_routes: &Vec<Ipv4Cidr>,
    ) -> (out: Result<VpnRuntime, VpnRuntimeError>)
        requires
            network.wf(),
            all_wf(advertised_routes@),
            all_wf(discovered_routes@),
        ensures
            out is Ok <==> network.length <= 30,
            out matches Err(err) ==> err is Config && error_text(err) == network_refusal(network),
            out matches Ok(vpn) ==> {
                &&& vpn@.wf()
                &&& increasing(vpn@.local_routes)
                &&& forall|r: Ipv4Cidr| #[trigger]
                    vpn@.local_routes.contains(r) <==> discovered_routes@.contains(r)
                        || advertised_routes@.contains(r)
                &&& vpn@ == (RuntimeView {
                    destination,
                    network,
                    local_tunnel_ip: tunnel_ip(network, destination@),
                    interface_name: opt_view(interface_name),
                    backend: backend@,
                    route_aliasing_enabled,
                    status: if interface_name is Some {
                        STATUS_RUNNING
                    } else {
                        STATUS_MOCK
                    },
                    peers: seeded(Seq::empty(), configured_peers@, destination, network),
                    allow_all_peers,
                    allowed_peers: configured_peers@,
                    advertised_routes: advertised_routes@,
                    local_routes: vpn@.local_routes,
                    installed_routes: Seq::empty(),
                    conflicted_routes: Seq::empty(),
                    metrics: no_traffic(),
                    last_error: None,
                })
            },
    {
        let local_tunnel_ip = match derive_tunnel_ip(network, &destination) {
            Ok(ip) => ip,
            Err(err) => {
                return Err(err);
            },
        };
        let local_routes = merge_routes(discovered_routes, &advertised_routes);
        proof {
            lemma_union_wf(local_routes@, discovered_routes@, advertised_routes@);
        }
        let status: u8 = if interface_name.is_some() {
            STATUS_RUNNING
        } else {
            STATUS_MOCK
        };
        let seeds = copy_hashes(&configured_peers);
        let mut vpn = VpnRuntime {
            destination,
            network,
            local_tunnel_ip,
            interface_name,
            backend,
            route_aliasing_enabled,
            status,
            peers: Vec::new(),
            allow_all_peers,
            allowed_peers: configured_peers,
            advertised_routes,
            local_routes,
            installed_routes: Vec::new(),
            conflicted_routes: Vec::new(),
            metrics: TrafficMetrics::new(),
            last_error: None,
        };
        proof {
            assert(vpn@.peers =~= Seq::<PeerView>::empty());
            assert(vpn@.installed_routes =~= Seq::<Seq<char>>::empty());
            assert(vpn@.conflicted_routes =~= Seq::<Seq<char>>::empty());
        }
        vpn.seed_peers(&seeds);
        proof {
            lemma_seeded(Seq::empty(), configured_peers@, destination, network);
        }
        Ok(vpn)
    }

    /// Replaces who may use the VPN, and names the peers that may no longer.
    /// `parsed[i]` is what the transport made of the text `peers[i]`. A list
    /// with a text that is no hash changes nothing.
    pub fn replace_peer_policy(
        &mut self,
        allow_all_peers: bool,
        peers: &Vec<String>,
        parsed: &Vec<Result<AddressHash, String>>,
    ) -> (out: Result<Vec<AddressHash>, VpnRuntimeError>)
        requires
            old(self)@.wf(),
            parsed@.len() == peers@.len(),
        ensures
            final(self)@.wf(),
            out is Ok <==> forall|i: int| 0 <= i < parsed@.len() ==> (#[trigger] parsed@[i]) is Ok,
            out matches Err(err) ==> final(self)@ == old(self)@ && err is Config && exists|i: int|
                #![trigger parsed@[i]]
                0 <= i < parsed@.len() && (forall|k: int|
                    0 <= k < i ==> (#[trigger] parsed@[k]) is Ok) && parsed@[i] is Err
                    && error_text(err) == peer_refusal(peers@[i]@, parsed@[i]->Err_0@),
            out matches Ok(removed) ==> {
                let allowed = final(self)@.allowed_peers;
                &&& allowed.no_duplicates()
                &&& forall|h: AddressHash| #[trigger]
                    allowed.contains(h) <==> exists|i: int|
                        0 <= i < parsed@.len() && #[trigger] parsed@[i] == Ok::<
                            AddressHash,
                            String,
                        >(h)
                &&& final(self)@ == (RuntimeView {
                    allow_all_peers,
                    allowed_peers: allowed,
                    last_error: None,
                    peers: policy_peers(
                        old(self)@.peers,
                        allow_all_peers,
                        allowed,
                        old(self)@.destination,
                        old(self)@.network,
                    ),
                    ..old(self)@
                })
                &&& allow_all_peers ==> removed@.len() == 0
                &&& !allow_all_peers ==> forall|h: AddressHash| #[trigger]
                    removed@.contains(h) <==> known(
                        seeded(
                            old(self)@.peers,
                            allowed,
                            old(self)@.destination,
                            old(self)@.network,
                        ),
                        h,
                    ) && !allowed.contains(h)
            },
    {
        let allowed = match parse_configured_peers(peers, parsed) {
            Ok(set) => set,
            Err(err) => {
                return Err(err);
            },
        };
        let seeds = copy_hashes(&allowed);
        let ghost start = self@;
        self.allow_all_peers = allow_all_peers;
        self.allowed_peers = allowed;
        self.last_error = None;
        self.seed_peers(&seeds);
        let ghost mid = self@;
        proof {
            lemma_seeded(start.peers, mid.allowed_peers, start.destination, start.network);
        }
        if allow_all_peers {
            return Ok(Vec::new());
        }
        let removed = self.retain_listed_peers();
        proof {
            lemma_filter_peers(
                mid.peers,
                |p: PeerView| mid.allowed_peers.contains(p.hash),
            );
            assert forall|i: int| 0 <= i < self@.peers.len() implies peer_wf(
                #[trigger] self@.peers[i],
                self@.destination,
                self@.network,
            ) by {
                let m = choose|m: int| 0 <= m < mid.peers.len() && mid.peers[m] == self@.peers[i];
                assert(peer_wf(mid.peers[m], start.destination, start.network));
            }
            assert forall|h: AddressHash| #[trigger] removed@.contains(h) <==> known(mid.peers, h)
                && !mid.allowed_peers.contains(h) by {
                lemma_position(mid.peers, h);
                if known(mid.peers, h) {
                    assert(mid.peers[position(mid.peers, h)].hash == h);
                }
                if removed@.contains(h) {
                    let i = choose|i: int|
                        0 <= i < mid.peers.len() && (#[trigger] mid.peers[i]).hash == h
                            && !mid.allowed_peers.contains(h);
                    assert(mid.peers[i].hash == h);
                }
            }
        }
        Ok(removed)
    }
}

/// A copy of a list of hashes.
fn copy_hashes(list: &Vec<AddressHash>) -> (out: Vec<AddressHash>)
    ensures
        out@ == list@,
{
    let mut out: Vec<AddressHash> = Vec::new();
    let mut i: usize = 0;
    while i < list.len()
        invariant
            i <= list@.len(),
            out@ == list@.take(i as int),
        decreases list@.len() - i,
    {
        out.push(list[i]);
        i += 1;
    }
    assert(list@.take(i as int) =~= list@);
    out
}

proof fn lemma_union_wf(all: Seq<Ipv4Cidr>, a: Seq<Ipv4Cidr>, b: Seq<Ipv4Cidr>)
    requires
        all_wf(a),
        all_wf(b),
        forall|r: Ipv4Cidr| #[trigger] all.contains(r) <==> a.contains(r) || b.contains(r),
    ensures
        all_wf(all),
{
    assert forall|i: int| 0 <= i < all.len() implies (#[trigger] all[i]).wf() by {
        assert(all.contains(all[i]));
    }
}

// ── Routes ───────────────────────────────────────────────────────────────────

/// What has to happen so that the kernel forwards exactly the routes that it
/// should: the stale routes go, the desired ones are put in place, and the
/// translations of the local routes are set.
#[derive(Debug)]
pub struct RouteSyncPlan {
    pub translations: Vec<LocalRouteTranslation>,
    pub conflicts: Vec<String>,
    pub desired: Vec<String>,
    pub stale: Vec<String>,
}

/// Whether `plan` is the plan for a table with the routes `subnets`.
pub open spec fn plans(vpn: RuntimeView, subnets: Seq<Ipv4Cidr>, plan: RouteSyncPlan) -> bool {
    let local = translations(vpn.local_routes, vpn.destination@, vpn.route_aliasing_enabled);
    &&& plan.translations@ == local
    &&& ascending(views(plan.conflicts@))
    &&& ascending(views(plan.desired@))
    &&& ascending(views(plan.stale@))
    &&& forall|t: Seq<char>| #[trigger]
        views(plan.conflicts@).contains(t) <==> names_route(
            subnets,
            |r: Ipv4Cidr| conflicts(local, r) == true,
            t,
        )
    &&& forall|t: Seq<char>| #[trigger]
        views(plan.desired@).contains(t) <==> names_route(
            subnets,
            |r: Ipv4Cidr| conflicts(local, r) == false,
            t,
        )
    &&& forall|t: Seq<char>| #[trigger]
        views(plan.stale@).contains(t) <==> vpn.installed_routes.contains(t) && !views(
            plan.desired@,
        ).contains(t)
}

/// The state after a route sync: with the routes of the plan where it went
/// through, with the error where it did not.
pub open spec fn after_sync(
    vpn: RuntimeView,
    desired: Seq<Seq<char>>,
    conflicted: Seq<Seq<char>>,
    failure: Option<Seq<char>>,
) -> RuntimeView {
    match failure {
        Some(message) => RuntimeView { last_error: Some(message), status: STATUS_ERROR, ..vpn },
        None => RuntimeView {
            installed_routes: desired,
            conflicted_routes: conflicted,
            last_error: None,
            status: if vpn.status != STATUS_MOCK {
                STATUS_RUNNING
            } else {
                STATUS_MOCK
            },
            ..vpn
        },
    }
}

/// A route that a plan puts in place is never one that it finds in conflict.
pub proof fn desired_routes_do_not_conflict(
    vpn: RuntimeView,
    subnets: Seq<Ipv4Cidr>,
    plan: RouteSyncPlan,
    t: Seq<char>,
)
    requires
        plans(vpn, subnets, plan),
    ensures
        !(views(plan.desired@).contains(t) && views(plan.conflicts@).contains(t)),
{
    let local = translations(vpn.local_routes, vpn.destination@, vpn.route_aliasing_enabled);
    if views(plan.desired@).contains(t) && views(plan.conflicts@).contains(t) {
        let hit = |r: Ipv4Cidr| conflicts(local, r) == true;
        let free = |r: Ipv4Cidr| conflicts(local, r) == false;
        assert(names_route(subnets, hit, t));
        assert(names_route(subnets, free, t));
        let i = choose|i: int|
            0 <= i < subnets.len() && hit(#[trigger] subnets[i]) && route_text(subnets[i]) == t;
        let j = choose|j: int|
            0 <= j < subnets.len() && free(#[trigger] subnets[j]) && route_text(subnets[j]) == t;
        network_text_is_injective(subnets[i], subnets[j]);
    }
}

/// A remote route that overlaps a local route or its alias is not put in place.
pub proof fn overlapping_routes_are_not_installed(
    vpn: RuntimeView,
    subnets: Seq<Ipv4Cidr>,
    plan: RouteSyncPlan,
    i: int,
)
    requires
        plans(vpn, subnets, plan),
        0 <= i < subnets.len(),
        conflicts(
            translations(vpn.local_routes, vpn.destination@, vpn.route_aliasing_enabled),
            subnets[i],
        ),
    ensures
        !views(plan.desired@).contains(route_text(subnets[i])),
        views(plan.conflicts@).contains(route_text(subnets[i])),
{
    let local = translations(vpn.local_routes, vpn.destination@, vpn.route_aliasing_enabled);
    let hit = |r: Ipv4Cidr| conflicts(local, r) == true;
    assert(hit(subnets[i]));
    assert(names_route(subnets, hit, route_text(subnets[i])));
    desired_routes_do_not_conflict(vpn, subnets, plan, route_text(subnets[i]));
}

impl VpnRuntime {
    /// Replaces the advertised routes.
    pub fn replace_advertised_routes(
        &mut self,
        routes: Vec<Ipv4Cidr>,
        discovered: &Vec<Ipv4Cidr>,
    )
        requires
            old(self)@.wf(),
            all_wf(routes@),
            all_wf(discovered@),
        ensures
            final(self)@.wf(),
            increasing(final(self)@.local_routes),
            forall|r: Ipv4Cidr| #[trigger]
                final(self)@.local_routes.contains(r) <==> discovered@.contains(r)
                    || routes@.contains(r),
            final(self)@ == (RuntimeView {
                advertised_routes: routes@,
                local_routes: final(self)@.local_routes,
                last_error: None,
                ..old(self)@
            }),
    {
        let merged = merge_routes(discovered, &routes);
        proof {
            lemma_union_wf(merged@, discovered@, routes@);
        }
        self.advertised_routes = routes;
        self.local_routes = merged;
        self.last_error = None;
    }

    /// Takes up the routes that the host has now.
    pub fn refresh_local_routes(&mut self, discovered: &Vec<Ipv4Cidr>)
        requires
            old(self)@.wf(),
            all_wf(discovered@),
        ensures
            final(self)@.wf(),
            increasing(final(self)@.local_routes),
            forall|r: Ipv4Cidr| #[trigger]
                final(self)@.local_routes.contains(r) <==> discovered@.contains(r) || old(
                    self,
                )@.advertised_routes.contains(r),
            final(self)@ == (RuntimeView {
                local_routes: final(self)@.local_routes,
                ..old(self)@
            }),
    {
        let merged = merge_routes(discovered, &self.advertised_routes);
        proof {
            lemma_union_wf(merged@, discovered@, self.advertised_routes@);
        }
        self.local_routes = merged;
    }

    /// The routes that peers are told.
    pub fn exported_routes(&self) -> (out: Vec<Ipv4Cidr>)
        ensures
            out@ == translations(
                self@.local_routes,
                self@.destination@,
                self@.route_aliasing_enabled,
            ).map_values(|t: LocalRouteTranslation| t.exported),
    {
        let list = local_route_translations(
            &self.local_routes,
            &self.destination,
            self.route_aliasing_enabled,
        );
        let mut out: Vec<Ipv4Cidr> = Vec::new();
        let mut i: usize = 0;
        while i < list.len()
            invariant
                i <= list@.len(),
                out@ == list@.take(i as int).map_values(|t: LocalRouteTranslation| t.exported),
            decreases list@.len() - i,
        {
            out.push(list[i].exported);
            assert(out@ =~= list@.take(i + 1).map_values(|t: LocalRouteTranslation| t.exported));
            i += 1;
        }
        assert(list@.take(i as int) =~= list@);
        out
    }

    /// What has to happen so that the kernel forwards the routes of the
    /// forwarding table that are free of conflicts.
    pub fn plan_route_sync(&self, subnets: &Vec<Ipv4Cidr>) -> (plan: RouteSyncPlan)
        requires
            self@.wf(),
            all_wf(subnets@),
        ensures
            plans(self@, subnets@, plan),
    {
        let list = local_route_translations(
            &self.local_routes,
            &self.destination,
            self.route_aliasing_enabled,
        );
        let conflicts = routes_by_conflict(&list, subnets, true);
        let desired = routes_by_conflict(&list, subnets, false);
        let stale = difference(&self.installed_routes, &desired);
        RouteSyncPlan { translations: list, conflicts, desired, stale }
    }

    /// Records how a route sync went: `failure` is the text of the first error.
    pub fn finish_route_sync(&mut self, plan: RouteSyncPlan, failure: Option<String>)
        requires
            old(self)@.wf(),
            exists|subnets: Seq<Ipv4Cidr>| plans(old(self)@, subnets, plan),
        ensures
            final(self)@.wf(),
            final(self)@ == after_sync(
                old(self)@,
                views(plan.desired@),
                views(plan.conflicts@),
                opt_view(failure),
            ),
    {
        match failure {
            Some(message) => {
                self.set_error(message);
            },
            None => {
                proof {
                    let subnets = choose|subnets: Seq<Ipv4Cidr>| plans(self@, subnets, plan);
                    assert forall|t: Seq<char>|
                        !(#[trigger] views(plan.desired@).contains(t) && views(
                            plan.conflicts@,
                        ).contains(t)) by {
                        desired_routes_do_not_conflict(self@, subnets, plan, t);
                    }
                }
                self.installed_routes = plan.desired;
                self.conflicted_routes = plan.conflicts;
                self.last_error = None;
                if self.status != STATUS_MOCK {
                    self.status = STATUS_RUNNING;
                }
            },
        }
    }

    /// Records an error.
    pub fn set_error(&mut self, message: String)
        ensures
            final(self)@ == (RuntimeView {
                last_error: Some(message@),
                status: STATUS_ERROR,
                ..old(self)@
            }),
    {
        self.last_error = Some(message);
        self.status = STATUS_ERROR;
    }
}

// ── Peers ────────────────────────────────────────────────────────────────────

/// The peers with the one at `hash`, where there is one, replaced.
pub open spec fn with_peer(
    peers: Seq<PeerView>,
    hash: AddressHash,
    change: spec_fn(PeerView) -> PeerView,
) -> Seq<PeerView> {
    if known(peers, hash) {
        peers.update(position(peers, hash), change(peers[position(peers, hash)]))
    } else {
        peers
    }
}

proof fn lemma_update_wf(vpn: RuntimeView, i: int, peer: PeerView)
    requires
        vpn.wf(),
        0 <= i < vpn.peers.len(),
        peer.hash == vpn.peers[i].hash,
        peer.tunnel_ip == vpn.peers[i].tunnel_ip,
        all_wf(peer.routes),
    ensures
        (RuntimeView { peers: vpn.peers.update(i, peer), ..vpn }).wf(),
{
    let next = RuntimeView { peers: vpn.peers.update(i, peer), ..vpn };
    assert(peer_wf(vpn.peers[i], vpn.destination, vpn.network));
    assert(vpn.allows(vpn.peers[i].hash));
    assert forall|k: int| 0 <= k < next.peers.len() implies peer_wf(
        #[trigger] next.peers[k],
        next.destination,
        next.network,
    ) && next.allows(next.peers[k].hash) by {
        if k != i {
            assert(next.peers[k] == vpn.peers[k]);
        }
    }
    assert(distinct_peers(next.peers)) by {
        assert forall|a: int, b: int| 0 <= a < b < next.peers.len() implies (
        #[trigger] next.peers[a]).hash != (#[trigger] next.peers[b]).hash by {
            assert(vpn.peers[a].hash != vpn.peers[b].hash);
        }
    }
}

/// A peer that announced `routes` at `now`.
pub open spec fn announced(peer: PeerView, routes: Seq<Ipv4Cidr>, now: u64) -> PeerView {
    PeerView {
        last_seen_ts: now,
        route_expires_ts: (now + ROUTE_GRACE_SECS) as u64,
        routes,
        ..peer
    }
}

/// The peers after the destination `hash` announced `routes` at `now`.
pub open spec fn after_announce(
    vpn: RuntimeView,
    hash: AddressHash,
    routes: Seq<Ipv4Cidr>,
    now: u64,
) -> Seq<PeerView> {
    if known(vpn.peers, hash) {
        let i = position(vpn.peers, hash);
        vpn.peers.update(
            i,
            PeerView { last_error: None, ..announced(vpn.peers[i], routes, now) },
        )
    } else {
        vpn.peers.push(
            announced(
                fresh_peer(hash, tunnel_ip(vpn.network, hash@), LinkState::Discovered),
                routes,
                now,
            ),
        )
    }
}

/// Routes that a peer announced count until the grace is over, and no longer.
pub proof fn announced_routes_live_for_the_grace(
    peer: PeerView,
    routes: Seq<Ipv4Cidr>,
    now: u64,
    t: u64,
)
    requires
        now + ROUTE_GRACE_SECS <= u64::MAX,
    ensures
        live(announced(peer, routes, now), t) <==> routes.len() > 0 && t < now + ROUTE_GRACE_SECS,
{
}

/// After an announce the routes of the peer that made it are those that it
/// announced, and they count until the grace is over, and no longer.
pub proof fn announces_live_for_the_grace(
    vpn: RuntimeView,
    hash: AddressHash,
    routes: Seq<Ipv4Cidr>,
    now: u64,
    t: u64,
)
    requires
        now + ROUTE_GRACE_SECS <= u64::MAX,
    ensures
        ({
            let peers = after_announce(vpn, hash, routes, now);
            let peer = peers[position(peers, hash)];
            &&& known(peers, hash)
            &&& peer.hash == hash
            &&& peer.routes == routes
            &&& live(peer, t) <==> routes.len() > 0 && t < now + ROUTE_GRACE_SECS
        }),
{
    lemma_position(vpn.peers, hash);
    let peers = after_announce(vpn, hash, routes, now);
    let at = position(vpn.peers, hash);
    assert forall|k: int| 0 <= k < at implies (#[trigger] peers[k]).hash != hash by {
        assert(peers[k] == vpn.peers[k]);
    }
    lemma_position_is(peers, hash, at);
}

/// Routes that no longer count never count again, unless they are announced
/// anew.
pub proof fn ended_routes_stay_ended(peer: PeerView, now: u64, later: u64)
    requires
        !live(peer, now),
        now <= later,
    ensures
        !live(peer, later),
{
}

/// A peer at `now`, its routes dropped where their time is over.
pub open spec fn expired_peer(peer: PeerView, now: u64) -> PeerView {
    if routes_expired(peer, now) {
        PeerView { routes: Seq::empty(), ..peer }
    } else {
        peer
    }
}

/// Whether a peer has routes whose time is over at `now`.
pub open spec fn routes_expired(peer: PeerView, now: u64) -> bool {
    peer.route_expires_ts != 0 && peer.route_expires_ts <= now && peer.routes.len() > 0
}

/// After a check no peer keeps routes that do not count: what is left is live.
pub proof fn checked_peers_have_live_routes_only(peer: PeerView, now: u64)
    ensures
        live(expired_peer(peer, now), now) <==> expired_peer(peer, now).routes.len() > 0,
        live(peer, now) ==> expired_peer(peer, now) == peer,
{
}

impl VpnRuntime {
    /// Takes up an announce, unless the destination may not be a peer.
    pub fn handle_peer_announce(
        &mut self,
        hash: AddressHash,
        routes: Vec<Ipv4Cidr>,
        now: u64,
    ) -> (out: bool)
        requires
            old(self)@.wf(),
            all_wf(routes@),
            now + ROUTE_GRACE_SECS <= u64::MAX,
        ensures
            final(self)@.wf(),
            out == old(self)@.allows(hash),
            out ==> final(self)@ == (RuntimeView {
                peers: after_announce(old(self)@, hash, routes@, now),
                ..old(self)@
            }),
            !out ==> final(self)@ == old(self)@,
    {
        if !self.peer_allowed(&hash) {
            return false;
        }
        let ghost start = self@;
        match self.find_peer(&hash) {
            Some(i) => {
                proof {
                    lemma_position(start.peers, hash);
                }
                self.peers[i].last_seen_ts = now;
                self.peers[i].route_expires_ts = now + ROUTE_GRACE_SECS;
                self.peers[i].routes = routes;
                self.peers[i].last_error = None;
                proof {
                    let next = PeerView {
                        last_error: None,
                        ..announced(start.peers[i as int], routes@, now)
                    };
                    assert(self.peers@[i as int]@ == next);
                    assert(viewed(self.peers@) =~= start.peers.update(i as int, next));
                    lemma_update_wf(start, i as int, next);
                }
            },
            None => {
                match derive_tunnel_ip(self.network, &hash) {
                    Ok(tunnel_ip) => {
                        let mut peer = Peer::new(hash, tunnel_ip, LinkState::Discovered);
                        peer.last_seen_ts = now;
                        peer.route_expires_ts = now + ROUTE_GRACE_SECS;
                        peer.routes = routes;
                        let ghost next = peer@;
                        self.peers.push(peer);
                        proof {
                            assert(viewed(self.peers@) =~= start.peers.push(next));
                            lemma_push_distinct(start.peers, next);
                            assert forall|k: int| 0 <= k < self@.peers.len() implies peer_wf(
                                #[trigger] self@.peers[k],
                                start.destination,
                                start.network,
                            ) && self@.allows(self@.peers[k].hash) by {
                                if k < start.peers.len() {
                                    assert(self@.peers[k] == start.peers[k]);
                                }
                            }
                        }
                    },
                    Err(_) => {
                        return false;
                    },
                }
            },
        }
        true
    }
}

// ── Links ────────────────────────────────────────────────────────────────────

/// What to do about the outbound link to a destination.
#[derive(Clone, Copy, Debug, PartialEq, Eq, Structural)]
pub enum OutLinkDecision {
    /// The destination may not be a peer: forget its link.
    Refuse,
    /// There is a link that will do.
    Reuse,
    /// Wait; fresh links are forbidden for so many more seconds.
    Cooldown(u64),
    /// A request is in flight.
    InFlight,
    /// Open a fresh link.
    Open,
}

/// What to do about the outbound link to `hash`, where the transport has a link
/// in state `existing`.
pub open spec fn out_link_decision(
    vpn: RuntimeView,
    hash: AddressHash,
    existing: Option<LinkStatus>,
    now: u64,
) -> OutLinkDecision {
    if !vpn.allows(hash) {
        OutLinkDecision::Refuse
    } else if reusable(existing) {
        OutLinkDecision::Reuse
    } else if !known(vpn.peers, hash) {
        OutLinkDecision::Open
    } else {
        let peer = vpn.peers[position(vpn.peers, hash)];
        if on_cooldown(peer, now) {
            OutLinkDecision::Cooldown((peer.reconnect_cooldown_until - now) as u64)
        } else if peer.link_requested {
            OutLinkDecision::InFlight
        } else {
            OutLinkDecision::Open
        }
    }
}

/// A peer to which a fresh link is being opened at `now`.
pub open spec fn opening_peer(peer: PeerView, now: u64) -> PeerView {
    PeerView {
        state: LinkState::Pending,
        link_requested: true,
        link_attempt_ts: Some(now),
        reconnect_attempts: peer.reconnect_attempts.wrapping_add(1),
        ..peer
    }
}

impl VpnRuntime {
    /// Decides about the outbound link to a destination, and marks its peer
    /// where a fresh link is to be opened.
    pub fn request_out_link(
        &mut self,
        hash: &AddressHash,
        existing: Option<LinkStatus>,
        now: u64,
    ) -> (out: OutLinkDecision)
        requires
            old(self)@.wf(),
        ensures
            final(self)@.wf(),
            out == out_link_decision(old(self)@, *hash, existing, now),
            final(self)@ == (RuntimeView {
                peers: if out == OutLinkDecision::Open {
                    with_peer(
                        old(self)@.peers,
                        *hash,
                        |p: PeerView| opening_peer(p, now),
                    )
                } else {
                    old(self)@.peers
                },
                ..old(self)@
            }),
    {
        if !self.peer_allowed(hash) {
            return OutLinkDecision::Refuse;
        }
        if should_reuse_existing_out_link(existing) {
            return OutLinkDecision::Reuse;
        }
        let ghost start = self@;
        match self.find_peer(hash) {
            Some(i) => {
                proof {
                    lemma_position(start.peers, *hash);
                    assert(start.peers[i as int] == self.peers@[i as int]@);
                }
                if link_request_on_cooldown(&self.peers[i], now) {
                    let until = self.peers[i].reconnect_cooldown_until();
                    return OutLinkDecision::Cooldown(until.saturating_sub(now));
                }
                if self.peers[i].link_request_in_flight() {
                    return OutLinkDecision::InFlight;
                }
                self.peers[i].link_requested = true;
                self.peers[i].state = LinkState::Pending;
                self.peers[i].reconnect_attempts = self.peers[i].reconnect_attempts.wrapping_add(1);
                self.peers[i].link_attempt_ts = Some(now);
                proof {
                    let next = opening_peer(start.peers[i as int], now);
                    assert(self.peers@[i as int]@ == next);
                    assert(viewed(self.peers@) =~= start.peers.update(i as int, next));
                    lemma_update_wf(start, i as int, next);
                }
            },
            None => {},
        }
        OutLinkDecision::Open
    }

    /// Ends the link request to a peer, once its link was asked for.
    pub fn finish_out_link(&mut self, hash: &AddressHash)
        requires
            old(self)@.wf(),
        ensures
            final(self)@.wf(),
            final(self)@ == (RuntimeView {
                peers: with_peer(old(self)@.peers, *hash, |p: PeerView| finish_request(p)),
                ..old(self)@
            }),
    {
        let ghost start = self@;
        match self.find_peer(hash) {
            Some(i) => {
                self.peers[i].link_requested = false;
                proof {
                    let next = finish_request(start.peers[i as int]);
                    assert(self.peers@[i as int]@ == next);
                    assert(viewed(self.peers@) =~= start.peers.update(i as int, next));
                    lemma_update_wf(start, i as int, next);
                }
            },
            None => {},
        }
    }

    /// Records that the outbound link to a peer became active.
    pub fn out_link_activated(&mut self, hash: &AddressHash)
        requires
            old(self)@.wf(),
        ensures
            final(self)@.wf(),
            final(self)@ == (RuntimeView {
                peers: with_peer(old(self)@.peers, *hash, |p: PeerView| activated_peer(p)),
                ..old(self)@
            }),
    {
        let ghost start = self@;
        match self.find_peer(hash) {
            Some(i) => {
                mark_link_active(&mut self.peers[i]);
                proof {
                    let next = activated_peer(start.peers[i as int]);
                    assert(self.peers@[i as int]@ == next);
                    assert(viewed(self.peers@) =~= start.peers.update(i as int, next));
                    lemma_update_wf(start, i as int, next);
                }
            },
            None => {},
        }
    }

    /// Records that the outbound link to a peer was closed at `now`.
    pub fn out_link_closed(&mut self, hash: &AddressHash, now: u64)
        requires
            old(self)@.wf(),
            now + LINK_RECONNECT_COOLDOWN_SECS <= u64::MAX,
        ensures
            final(self)@.wf(),
            final(self)@ == (RuntimeView {
                peers: with_peer(old(self)@.peers, *hash, |p: PeerView| closed_peer(p, now)),
                ..old(self)@
            }),
    {
        let ghost start = self@;
        match self.find_peer(hash) {
            Some(i) => {
                mark_link_closed(&mut self.peers[i], now);
                proof {
                    let next = closed_peer(start.peers[i as int], now);
                    assert(self.peers@[i as int]@ == next);
                    assert(viewed(self.peers@) =~= start.peers.update(i as int, next));
                    lemma_update_wf(start, i as int, next);
                }
            },
            None => {},
        }
    }

    /// Sets the state of the link to a peer.
    pub fn set_link_state(&mut self, hash: &AddressHash, state: LinkState)
        requires
            old(self)@.wf(),
        ensures
            final(self)@.wf(),
            final(self)@ == (RuntimeView {
                peers: with_peer(
                    old(self)@.peers,
                    *hash,
                    |p: PeerView| PeerView { state, ..p },
                ),
                ..old(self)@
            }),
    {
        let ghost start = self@;
        match self.find_peer(hash) {
            Some(i) => {
                self.peers[i].state = state;
                proof {
                    let next = PeerView { state, ..start.peers[i as int] };
                    assert(self.peers@[i as int]@ == next);
                    assert(viewed(self.peers@) =~= start.peers.update(i as int, next));
                    lemma_update_wf(start, i as int, next);
                }
            },
            None => {},
        }
    }

    /// Records an error of a peer.
    pub fn record_peer_error(&mut self, hash: &AddressHash, message: String)
        requires
            old(self)@.wf(),
        ensures
            final(self)@.wf(),
            final(self)@ == (RuntimeView {
                peers: with_peer(
                    old(self)@.peers,
                    *hash,
                    |p: PeerView| PeerView { last_error: Some(message@), ..p },
                ),
                ..old(self)@
            }),
    {
        let ghost start = self@;
        match self.find_peer(hash) {
            Some(i) => {
                self.peers[i].last_error = Some(message);
                proof {
                    let next = PeerView { last_error: Some(message@), ..start.peers[i as int] };
                    assert(self.peers@[i as int]@ == next);
                    assert(viewed(self.peers@) =~= start.peers.update(i as int, next));
                    lemma_update_wf(start, i as int, next);
                }
            },
            None => {},
        }
    }

    /// Records that a peer was heard at `now`.
    pub fn mark_peer_seen(&mut self, hash: &AddressHash, now: u64)
        requires
            old(self)@.wf(),
        ensures
            final(self)@.wf(),
            final(self)@ == (RuntimeView {
                peers: with_peer(
                    old(self)@.peers,
                    *hash,
                    |p: PeerView| PeerView { last_seen_ts: now, ..p },
                ),
                ..old(self)@
            }),
    {
        let ghost start = self@;
        match self.find_peer(hash) {
            Some(i) => {
                self.peers[i].last_seen_ts = now;
                proof {
                    let next = PeerView { last_seen_ts: now, ..start.peers[i as int] };
                    assert(self.peers@[i as int]@ == next);
                    assert(viewed(self.peers@) =~= start.peers.update(i as int, next));
                    lemma_update_wf(start, i as int, next);
                }
            },
            None => {},
        }
    }

    // ── Watchdog ─────────────────────────────────────────────────────────────

    /// Drops the routes of the peers whose time is over at `now`, and says
    /// whether any were dropped.
    pub fn expire_routes(&mut self, now: u64) -> (changed: bool)
        requires
            old(self)@.wf(),
        ensures
            final(self)@.wf(),
            final(self)@ == (RuntimeView {
                peers: old(self)@.peers.map_values(|p: PeerView| expired_peer(p, now)),
                ..old(self)@
            }),
            changed == exists|i: int|
                0 <= i < old(self)@.peers.len() && routes_expired(
                    #[trigger] old(self)@.peers[i],
                    now,
                ),
    {
        let ghost start = self@;
        let ghost change = |p: PeerView| expired_peer(p, now);
        let mut changed: bool = false;
        let mut i: usize = 0;
        assert(start.peers =~= start.peers.take(0).map_values(change) + start.peers.skip(0));
        while i < self.peers.len()
            invariant
                i <= self.peers@.len() == start.peers.len(),
                start.wf(),
                self@.wf(),
                change == (|p: PeerView| expired_peer(p, now)),
                self@ == (RuntimeView {
                    peers: start.peers.take(i as int).map_values(change) + start.peers.skip(
                        i as int,
                    ),
                    ..start
                }),
                changed == exists|k: int|
                    0 <= k < i && routes_expired(#[trigger] start.peers[k], now),
            decreases self.peers@.len() - i,
        {
            let ghost before = self@;
            proof {
                assert(before.peers[i as int] == start.peers[i as int]);
                assert(self.peers@[i as int]@ == start.peers[i as int]);
            }
            let expires = self.peers[i].route_expires_ts;
            if expires != 0 && expires <= now && self.peers[i].routes.len() > 0 {
                self.peers[i].routes = Vec::new();
                changed = true;
                assert(routes_expired(start.peers[i as int], now));
            }
            proof {
                let next = expired_peer(start.peers[i as int], now);
                assert(self.peers@[i as int]@.routes =~= next.routes);
                assert(self.peers@[i as int]@ == next);
                assert(viewed(self.peers@) =~= before.peers.update(i as int, next));
                lemma_update_wf(before, i as int, next);
                assert(viewed(self.peers@) =~= start.peers.take(i + 1).map_values(change)
                    + start.peers.skip(i + 1));
            }
            i += 1;
        }
        assert(viewed(self.peers@) =~= start.peers.map_values(change));
        changed
    }

    /// Brings a peer in line with its outbound link, and says whether the link
    /// is stuck and has to be closed.
    pub fn check_out_link(
        &mut self,
        hash: &AddressHash,
        status: LinkStatus,
        link_age_secs: u64,
    ) -> (out: bool)
        requires
            old(self)@.wf(),
        ensures
            final(self)@.wf(),
            out == stuck(status, link_age_secs),
            final(self)@ == (RuntimeView {
                peers: with_peer(
                    old(self)@.peers,
                    *hash,
                    |p: PeerView| synced_peer(p, status),
                ),
                ..old(self)@
            }),
    {
        let ghost start = self@;
        match self.find_peer(hash) {
            Some(i) => {
                sync_peer_link_state(&mut self.peers[i], status);
                proof {
                    let next = synced_peer(start.peers[i as int], status);
                    assert(self.peers@[i as int]@ == next);
                    assert(viewed(self.peers@) =~= start.peers.update(i as int, next));
                    lemma_update_wf(start, i as int, next);
                }
            },
            None => {},
        }
        out_link_needs_reset(status, link_age_secs)
    }
}

/// After the link to a peer was closed, no fresh one is opened until the
/// cooldown is over; from then on the next request opens one.
pub proof fn closed_links_cool_down(
    vpn: RuntimeView,
    hash: AddressHash,
    existing: Option<LinkStatus>,
    closed_at: u64,
    now: u64,
)
    requires
        vpn.wf(),
        known(vpn.peers, hash),
        !reusable(existing),
        closed_at + LINK_RECONNECT_COOLDOWN_SECS <= u64::MAX,
    ensures
        ({
            let closed = RuntimeView {
                peers: with_peer(vpn.peers, hash, |p: PeerView| closed_peer(p, closed_at)),
                ..vpn
            };
            let decision = out_link_decision(closed, hash, existing, now);
            if now < closed_at + LINK_RECONNECT_COOLDOWN_SECS {
                decision == OutLinkDecision::Cooldown(
                    (closed_at + LINK_RECONNECT_COOLDOWN_SECS - now) as u64,
                )
            } else {
                decision == OutLinkDecision::Open
            }
        }),
{
    lemma_position(vpn.peers, hash);
    let i = position(vpn.peers, hash);
    let next = closed_peer(vpn.peers[i], closed_at);
    let peers = vpn.peers.update(i, next);
    assert(vpn.allows(vpn.peers[i].hash));
    assert forall|k: int| 0 <= k < i implies (#[trigger] peers[k]).hash != hash by {
        assert(peers[k] == vpn.peers[k]);
    }
    lemma_position_is(peers, hash, i);
}

/// While a link request to a peer is in flight, no second one is started.
pub proof fn no_second_link_request(
    vpn: RuntimeView,
    hash: AddressHash,
    existing: Option<LinkStatus>,
    now: u64,
    later: u64,
)
    requires
        vpn.wf(),
        known(vpn.peers, hash),
        out_link_decision(vpn, hash, existing, now) == OutLinkDecision::Open,
    ensures
        out_link_decision(
            RuntimeView {
                peers: with_peer(vpn.peers, hash, |p: PeerView| opening_peer(p, now)),
                ..vpn
            },
            hash,
            existing,
            later,
        ) != OutLinkDecision::Open,
{
    lemma_position(vpn.peers, hash);
    let i = position(vpn.peers, hash);
    let peers = vpn.peers.update(i, opening_peer(vpn.peers[i], now));
    assert forall|k: int| 0 <= k < i implies (#[trigger] peers[k]).hash != hash by {
        assert(peers[k] == vpn.peers[k]);
    }
    lemma_position_is(peers, hash, i);
}

// ── Traffic ──────────────────────────────────────────────────────────────────

/// A control frame of a peer, as it was decoded. A route that is no network is
/// `None`.
#[derive(Debug)]
pub enum CtrlFrame {
    /// The routes of the peer, in a greeting or an update.
    Routes(Vec<Option<Ipv4Cidr>>),
    /// A sign of life.
    Ping,
    /// No control frame, with the text of the decoder's error.
    Invalid(String),
}

/// The networks of a list.
pub open spec fn networks(list: Seq<Option<Ipv4Cidr>>) -> Seq<Ipv4Cidr> {
    list.filter_map(|r: Option<Ipv4Cidr>| r)
}

/// The networks of a list.
fn keep_networks(list: &Vec<Option<Ipv4Cidr>>) -> (out: Vec<Ipv4Cidr>)
    ensures
        out@ == networks(list@),
{
    let ghost id = |r: Option<Ipv4Cidr>| r;
    let mut out: Vec<Ipv4Cidr> = Vec::new();
    let mut i: usize = 0;
    assert(list@.take(0).filter_map(id) =~= Seq::<Ipv4Cidr>::empty());
    while i < list.len()
        invariant
            i <= list@.len(),
            id == (|r: Option<Ipv4Cidr>| r),
            out@ == list@.take(i as int).filter_map(id),
        decreases list@.len() - i,
    {
        proof {
            assert(list@.take(i + 1).drop_last() =~= list@.take(i as int));
            assert(list@.take(i + 1).last() == list@[i as int]);
        }
        let ghost before = out@;
        match list[i] {
            Some(r) => {
                out.push(r);
                assert(out@ =~= before + seq![r]);
            },
            None => {},
        }
        i += 1;
    }
    assert(list@.take(i as int) =~= list@);
    out
}

/// The state after a control frame from `sender`.
pub open spec fn after_ctrl(
    vpn: RuntimeView,
    sender: Option<AddressHash>,
    frame: CtrlFrame,
    now: u64,
) -> RuntimeView {
    match sender {
        None => vpn,
        Some(hash) => RuntimeView {
            peers: match frame {
                CtrlFrame::Routes(routes) => with_peer(
                    vpn.peers,
                    hash,
                    |p: PeerView| announced(p, networks(routes@), now),
                ),
                CtrlFrame::Ping => with_peer(
                    vpn.peers,
                    hash,
                    |p: PeerView| PeerView { last_seen_ts: now, ..p },
                ),
                CtrlFrame::Invalid(message) => with_peer(
                    vpn.peers,
                    hash,
                    |p: PeerView| PeerView { last_error: Some(message@), ..p },
                ),
            },
            ..vpn
        },
    }
}

/// What to do with a packet that came in over a link.
#[derive(Clone, Copy, Debug, PartialEq, Eq)]
pub enum LinkPacketDecision {
    /// Drop it: no peer stands for it.
    Drop,
    /// Hand it to the tunnel, and credit it to a peer where one is known.
    Forward(Option<AddressHash>),
}

/// The peer that a packet is credited to: the sender, where it is a peer, and
/// otherwise the owner of its source address.
pub open spec fn credited(
    vpn: RuntimeView,
    sender: Option<AddressHash>,
    owner: Option<AddressHash>,
) -> Option<AddressHash> {
    if sender is Some && known(vpn.peers, sender->0) {
        sender
    } else if owner is Some && known(vpn.peers, owner->0) {
        owner
    } else {
        None
    }
}

/// What to do with a packet from `sender` whose source address belongs to
/// `owner`: a packet without a peer passes only where everyone may use the VPN
/// and no sender is claimed.
pub open spec fn link_packet_decision(
    vpn: RuntimeView,
    sender: Option<AddressHash>,
    owner: Option<AddressHash>,
) -> LinkPacketDecision {
    let peer = credited(vpn, sender, owner);
    if peer is None && (sender is Some || !vpn.allow_all_peers) {
        LinkPacketDecision::Drop
    } else {
        LinkPacketDecision::Forward(peer)
    }
}

/// What to do with data that came in over a link.
#[derive(Clone, Copy, Debug, PartialEq, Eq)]
pub enum LinkDataMove {
    /// There is nothing left to do.
    Nothing,
    /// Bring the routes in line.
    Sync,
    /// Write it to the tunnel, and credit it to a peer where one is known.
    Write(Option<AddressHash>),
}

/// What to do with data from `sender`: `frame` is the control frame in it, if it
/// is one, and otherwise `owner` has its source address.
pub open spec fn link_data_move(
    vpn: RuntimeView,
    sender: Option<AddressHash>,
    frame: Option<CtrlFrame>,
    owner: Option<AddressHash>,
) -> LinkDataMove {
    match frame {
        Some(frame) => if sender is Some && frame is Routes {
            LinkDataMove::Sync
        } else {
            LinkDataMove::Nothing
        },
        None => match link_packet_decision(vpn, sender, owner) {
            LinkPacketDecision::Drop => LinkDataMove::Nothing,
            LinkPacketDecision::Forward(peer) => LinkDataMove::Write(peer),
        },
    }
}

/// The state after data came in over a link and before it is written to the
/// tunnel: a control frame is taken up, and a packet that does not pass is
/// counted as dropped.
pub open spec fn after_link_data(
    vpn: RuntimeView,
    sender: Option<AddressHash>,
    frame: Option<CtrlFrame>,
    owner: Option<AddressHash>,
    now: u64,
) -> RuntimeView {
    match frame {
        Some(frame) => after_ctrl(vpn, sender, frame, now),
        None => if link_packet_decision(vpn, sender, owner) is Drop {
            RuntimeView { metrics: counted_drop(vpn.metrics), ..vpn }
        } else {
            vpn
        },
    }
}

/// A peer that a packet of `len` bytes came from at `now`.
pub open spec fn heard_from(peer: PeerView, len: usize, now: u64) -> PeerView {
    PeerView { metrics: counted_rx(peer.metrics, len, now), last_seen_ts: now, ..peer }
}

/// The state after a packet of `len` bytes was written to the tunnel at `now`, or
/// could not be: `failure` says why.
pub open spec fn after_write(
    vpn: RuntimeView,
    peer: Option<AddressHash>,
    len: usize,
    failure: Option<Seq<char>>,
    now: u64,
) -> RuntimeView {
    match failure {
        Some(reason) => RuntimeView {
            last_error: Some("vpn tun send: "@ + reason),
            status: STATUS_ERROR,
            ..vpn
        },
        None => RuntimeView {
            metrics: counted_rx(vpn.metrics, len, now),
            peers: match peer {
                Some(hash) => with_peer(
                    vpn.peers,
                    hash,
                    |p: PeerView| heard_from(p, len, now),
                ),
                None => vpn.peers,
            },
            ..vpn
        },
    }
}

/// What to do with a packet that came out of the tunnel.
#[derive(Clone, Copy, Debug, PartialEq, Eq)]
pub enum TunPacketDecision {
    /// It is not for a peer.
    Ignore,
    /// Drop it: nobody has the address.
    Drop,
    /// Drop it and pause: the link to the peer is not active.
    Backoff,
    /// Send it to the owner of the address.
    Send(AddressHash),
}

/// What to do with a packet to `destination`, which belongs to `owner`.
pub open spec fn tun_packet_decision(
    vpn: RuntimeView,
    destination: Option<u32>,
    owner: Option<AddressHash>,
) -> TunPacketDecision {
    if destination is None || destination->0 == vpn.local_tunnel_ip {
        TunPacketDecision::Ignore
    } else if owner is None {
        TunPacketDecision::Drop
    } else if known(vpn.peers, owner->0) && vpn.peers[position(vpn.peers, owner->0)].state
        != LinkState::Active {
        TunPacketDecision::Backoff
    } else {
        TunPacketDecision::Send(owner->0)
    }
}

/// The state after a packet of `len` bytes out of the tunnel was dealt with at
/// `now`; it went out in `sent` packets where it was to be sent. One that could
/// not be sent is counted as dropped.
pub open spec fn after_tun_packet(
    vpn: RuntimeView,
    decision: TunPacketDecision,
    len: usize,
    sent: usize,
    now: u64,
) -> RuntimeView {
    match decision {
        TunPacketDecision::Ignore => vpn,
        TunPacketDecision::Drop | TunPacketDecision::Backoff => RuntimeView {
            metrics: counted_drop(vpn.metrics),
            ..vpn
        },
        TunPacketDecision::Send(hash) => if sent == 0 {
            RuntimeView { metrics: counted_drop(vpn.metrics), ..vpn }
        } else {
            RuntimeView {
                metrics: counted_tx(vpn.metrics, len, now),
                peers: with_peer(
                    vpn.peers,
                    hash,
                    |p: PeerView| PeerView { metrics: counted_tx(p.metrics, len, now), ..p },
                ),
                ..vpn
            }
        },
    }
}

/// Whether the tunnel is left alone for a moment after a packet out of it: its
/// peer cannot be reached.
pub open spec fn tun_pauses(decision: TunPacketDecision, sent: usize) -> bool {
    match decision {
        TunPacketDecision::Ignore | TunPacketDecision::Drop => false,
        TunPacketDecision::Backoff => true,
        TunPacketDecision::Send(_) => sent == 0,
    }
}

impl VpnRuntime {
    /// Takes in data that came over a link: `frame` is the control frame in it,
    /// if it is one, and otherwise `owner` has its source address.
    pub fn handle_link_data(
        &mut self,
        sender: Option<AddressHash>,
        frame: Option<CtrlFrame>,
        owner: Option<AddressHash>,
        now: u64,
    ) -> (out: LinkDataMove)
        requires
            old(self)@.wf(),
            now + ROUTE_GRACE_SECS <= u64::MAX,
            frame matches Some(CtrlFrame::Routes(routes)) ==> all_wf(networks(routes@)),
        ensures
            final(self)@.wf(),
            out == link_data_move(old(self)@, sender, frame, owner),
            final(self)@ == after_link_data(old(self)@, sender, frame, owner, now),
    {
        match frame {
            Some(frame) => {
                if self.handle_ctrl_frame(sender, frame, now) {
                    LinkDataMove::Sync
                } else {
                    LinkDataMove::Nothing
                }
            },
            None => match self.handle_link_packet(sender, owner) {
                LinkPacketDecision::Drop => {
                    self.metrics.count_drop();
                    LinkDataMove::Nothing
                },
                LinkPacketDecision::Forward(peer) => LinkDataMove::Write(peer),
            },
        }
    }

    /// Counts a packet of `len` bytes that was written to the tunnel at `now` and
    /// came from `peer`, where one is known; `failure` says why it could not be
    /// written.
    pub fn finish_link_data(
        &mut self,
        peer: Option<AddressHash>,
        len: usize,
        failure: Option<String>,
        now: u64,
    )
        requires
            old(self)@.wf(),
        ensures
            final(self)@.wf(),
            final(self)@ == after_write(old(self)@, peer, len, opt_view(failure), now),
    {
        if let Some(reason) = failure {
            self.set_error(cat2("vpn tun send: ", reason.as_str()));
            return;
        }
        let ghost start = self@;
        self.metrics.count_rx(len, now);
        if let Some(hash) = peer {
            if let Some(i) = self.find_peer(&hash) {
                self.peers[i].metrics.count_rx(len, now);
                self.peers[i].last_seen_ts = now;
                proof {
                    let next = heard_from(start.peers[i as int], len, now);
                    assert(self.peers@[i as int]@ == next);
                    assert(viewed(self.peers@) =~= start.peers.update(i as int, next));
                    lemma_update_wf(start, i as int, next);
                }
            }
        }
    }

    /// Counts a packet of `len` bytes out of the tunnel that was dealt with at
    /// `now`, and says whether the tunnel is to be left alone for a moment.
    pub fn finish_tun_packet(
        &mut self,
        decision: TunPacketDecision,
        len: usize,
        sent: usize,
        now: u64,
    ) -> (pause: bool)
        requires
            old(self)@.wf(),
        ensures
            final(self)@.wf(),
            final(self)@ == after_tun_packet(old(self)@, decision, len, sent, now),
            pause == tun_pauses(decision, sent),
    {
        let ghost start = self@;
        match decision {
            TunPacketDecision::Ignore => false,
            TunPacketDecision::Drop => {
                self.metrics.count_drop();
                false
            },
            TunPacketDecision::Backoff => {
                self.metrics.count_drop();
                true
            },
            TunPacketDecision::Send(hash) => {
                if sent == 0 {
                    self.metrics.count_drop();
                    return true;
                }
                self.metrics.count_tx(len, now);
                if let Some(i) = self.find_peer(&hash) {
                    self.peers[i].metrics.count_tx(len, now);
                    proof {
                        let next = PeerView {
                            metrics: counted_tx(start.peers[i as int].metrics, len, now),
                            ..start.peers[i as int]
                        };
                        assert(self.peers@[i as int]@ == next);
                        assert(viewed(self.peers@) =~= start.peers.update(i as int, next));
                        lemma_update_wf(start, i as int, next);
                    }
                }
                false
            },
        }
    }

    /// Takes up a control frame, and says whether routes may have changed. A
    /// frame without a sender is dropped: it cannot be attributed.
    pub fn handle_ctrl_frame(
        &mut self,
        sender: Option<AddressHash>,
        frame: CtrlFrame,
        now: u64,
    ) -> (changed: bool)
        requires
            old(self)@.wf(),
            now + ROUTE_GRACE_SECS <= u64::MAX,
            frame matches CtrlFrame::Routes(routes) ==> all_wf(networks(routes@)),
        ensures
            final(self)@.wf(),
            changed == (sender is Some && frame is Routes),
            final(self)@ == after_ctrl(old(self)@, sender, frame, now),
    {
        let hash = match sender {
            Some(hash) => hash,
            None => {
                return false;
            },
        };
        let ghost start = self@;
        match frame {
            CtrlFrame::Routes(routes) => {
                let kept = keep_networks(&routes);
                match self.find_peer(&hash) {
                    Some(i) => {
                        self.peers[i].last_seen_ts = now;
                        self.peers[i].route_expires_ts = now + ROUTE_GRACE_SECS;
                        self.peers[i].routes = kept;
                        proof {
                            let next = announced(start.peers[i as int], networks(routes@), now);
                            assert(self.peers@[i as int]@ == next);
                            assert(viewed(self.peers@) =~= start.peers.update(i as int, next));
                            lemma_update_wf(start, i as int, next);
                        }
                    },
                    None => {},
                }
                true
            },
            CtrlFrame::Ping => {
                self.mark_peer_seen(&hash, now);
                false
            },
            CtrlFrame::Invalid(message) => {
                self.record_peer_error(&hash, message);
                false
            },
        }
    }

    /// Decides about a packet that came in over a link: `owner` is the
    /// destination that has its source address.
    pub fn handle_link_packet(
        &self,
        sender: Option<AddressHash>,
        owner: Option<AddressHash>,
    ) -> (out: LinkPacketDecision)
        ensures
            out == link_packet_decision(self@, sender, owner),
    {
        let mut peer: Option<AddressHash> = None;
        match sender {
            Some(hash) => {
                if self.find_peer(&hash).is_some() {
                    peer = Some(hash);
                }
            },
            None => {},
        }
        if peer.is_none() {
            match owner {
                Some(hash) => {
                    if self.find_peer(&hash).is_some() {
                        peer = Some(hash);
                    }
                },
                None => {},
            }
        }
        if peer.is_none() && (sender.is_some() || !self.allow_all_peers) {
            return LinkPacketDecision::Drop;
        }
        LinkPacketDecision::Forward(peer)
    }

    /// Decides about a packet that came out of the tunnel: `owner` is the
    /// destination that has its destination address.
    pub fn handle_tun_packet(
        &self,
        packet: &[u8],
        owner: Option<AddressHash>,
    ) -> (out: TunPacketDecision)
        ensures
            out == tun_packet_decision(self@, destination_of(packet@), owner),
    {
        self.route_tun_packet(packet_destination(packet), owner)
    }

    /// Decides about a packet that came out of the tunnel with the destination
    /// address `destination`.
    pub fn route_tun_packet(
        &self,
        destination: Option<u32>,
        owner: Option<AddressHash>,
    ) -> (out: TunPacketDecision)
        ensures
            out == tun_packet_decision(self@, destination, owner),
    {
        let ip = match destination {
            Some(ip) => ip,
            None => {
                return TunPacketDecision::Ignore;
            },
        };
        if ip == self.local_tunnel_ip {
            return TunPacketDecision::Ignore;
        }
        let hash = match owner {
            Some(hash) => hash,
            None => {
                return TunPacketDecision::Drop;
            },
        };
        match self.find_peer(&hash) {
            Some(i) => {
                assert(self@.peers[i as int] == self.peers@[i as int]@);
                if tun_tx_requires_backoff(self.peers[i].state) {
                    return TunPacketDecision::Backoff;
                }
            },
            None => {},
        }
        TunPacketDecision::Send(hash)
    }
}

/// A packet out of the tunnel goes to the owner of its address, never where the
/// gateway itself has that address, and never to a peer whose link is not
/// active.
pub proof fn packets_go_to_active_peers(
    vpn: RuntimeView,
    destination: Option<u32>,
    owner: Option<AddressHash>,
)
    requires
        vpn.wf(),
    ensures
        tun_packet_decision(vpn, destination, owner) matches TunPacketDecision::Send(hash) ==> {
            &&& owner == Some(hash)
            &&& destination is Some
            &&& destination->0 != vpn.local_tunnel_ip
            &&& forall|i: int|
                0 <= i < vpn.peers.len() && (#[trigger] vpn.peers[i]).hash == hash
                    ==> vpn.peers[i].state == LinkState::Active
        },
{
    if owner is Some {
        lemma_position(vpn.peers, owner->0);
    }
}

/// Data over a link is counted once: a packet that is written to the tunnel adds
/// one packet and its length, one that does not pass adds one drop, and a control
/// frame, or a packet that cannot be written, adds nothing.
pub proof fn link_data_is_counted_once(
    vpn: RuntimeView,
    sender: Option<AddressHash>,
    frame: Option<CtrlFrame>,
    owner: Option<AddressHash>,
    len: usize,
    failure: Option<Seq<char>>,
    now: u64,
)
    ensures
        ({
            let taken = after_link_data(vpn, sender, frame, owner, now);
            match link_data_move(vpn, sender, frame, owner) {
                LinkDataMove::Write(peer) => {
                    let written = after_write(taken, peer, len, failure, now);
                    &&& frame is None
                    &&& failure is None ==> written.metrics == counted_rx(vpn.metrics, len, now)
                    &&& failure is Some ==> written.metrics == vpn.metrics
                },
                _ => taken.metrics == (if frame is None {
                    counted_drop(vpn.metrics)
                } else {
                    vpn.metrics
                }),
            }
        }),
{
}

/// A control frame without a sender changes nothing, and is not written to the
/// tunnel.
pub proof fn control_frames_need_a_sender(
    vpn: RuntimeView,
    frame: CtrlFrame,
    owner: Option<AddressHash>,
    now: u64,
)
    ensures
        after_link_data(vpn, None, Some(frame), owner, now) == vpn,
        link_data_move(vpn, None, Some(frame), owner) is Nothing,
{
}

/// A packet that is written to the tunnel is credited to the peer that sent it,
/// and otherwise to the peer that has its source address: that peer has one
/// packet and its length more, and no other peer changes.
pub proof fn written_packets_credit_their_peer(
    vpn: RuntimeView,
    sender: Option<AddressHash>,
    owner: Option<AddressHash>,
    len: usize,
    now: u64,
)
    requires
        link_packet_decision(vpn, sender, owner) is Forward,
    ensures
        ({
            let peer = credited(vpn, sender, owner);
            let after = after_write(vpn, peer, len, None, now);
            &&& after.peers.len() == vpn.peers.len()
            &&& peer matches Some(hash) ==> known(vpn.peers, hash) && after.peers[position(
                vpn.peers,
                hash,
            )] == heard_from(vpn.peers[position(vpn.peers, hash)], len, now)
            &&& forall|i: int|
                0 <= i < vpn.peers.len() && (peer is None || i != position(vpn.peers, peer->0))
                    ==> #[trigger] after.peers[i] == vpn.peers[i]
        }),
{
    if let Some(hash) = credited(vpn, sender, owner) {
        lemma_position(vpn.peers, hash);
    }
}

/// Under a list, a packet passes only where a peer on the list stands for it.
pub proof fn listed_peers_only(
    vpn: RuntimeView,
    sender: Option<AddressHash>,
    owner: Option<AddressHash>,
)
    requires
        vpn.wf(),
        !vpn.allow_all_peers,
    ensures
        match link_packet_decision(vpn, sender, owner) {
            LinkPacketDecision::Drop => true,
            LinkPacketDecision::Forward(None) => false,
            LinkPacketDecision::Forward(Some(hash)) => vpn.allowed_peers.contains(hash),
        },
{
    let peer = credited(vpn, sender, owner);
    if peer is Some {
        lemma_position(vpn.peers, peer->0);
        assert(vpn.allows(vpn.peers[position(vpn.peers, peer->0)].hash));
    }
}

// ── Laws of the whole ────────────────────────────────────────────────────────

/// Whether some peer has a hash.
pub open spec fn is_peer(peers: Seq<PeerView>, hash: AddressHash) -> bool {
    exists|i: int| 0 <= i < peers.len() && (#[trigger] peers[i]).hash == hash
}

/// A hash is known if and only if some peer has it.
proof fn lemma_known(peers: Seq<PeerView>, hash: AddressHash)
    ensures
        known(peers, hash) <==> is_peer(peers, hash),
{
    lemma_position(peers, hash);
    if is_peer(peers, hash) {
        let i = choose|i: int| 0 <= i < peers.len() && (#[trigger] peers[i]).hash == hash;
        if position(peers, hash) == peers.len() {
            assert(peers[i].hash != hash);
        }
    }
    if known(peers, hash) {
        assert(peers[position(peers, hash)].hash == hash);
    }
}

/// A change of the peer with a hash reaches that peer and no other.
pub proof fn changes_reach_one_peer(
    peers: Seq<PeerView>,
    hash: AddressHash,
    change: spec_fn(PeerView) -> PeerView,
)
    requires
        distinct_peers(peers),
    ensures
        ({
            let after = with_peer(peers, hash, change);
            &&& after.len() == peers.len()
            &&& forall|i: int|
                0 <= i < peers.len() ==> #[trigger] after[i] == (if peers[i].hash == hash {
                    change(peers[i])
                } else {
                    peers[i]
                })
        }),
{
    lemma_position(peers, hash);
    let at = position(peers, hash);
    let after = with_peer(peers, hash, change);
    assert forall|i: int| 0 <= i < peers.len() implies #[trigger] after[i] == (if peers[i].hash
        == hash {
        change(peers[i])
    } else {
        peers[i]
    }) by {
        if peers[i].hash == hash && i != at {
            if i < at {
                assert(peers[i].hash != hash);
            } else {
                assert(peers[at].hash != peers[i].hash);
            }
        }
    }
}

/// A packet for a peer whose link was last seen in `status` is sent if and only
/// if the link was active; otherwise it is dropped and the tunnel pauses.
pub proof fn checked_links_carry_packets_only_when_active(
    vpn: RuntimeView,
    hash: AddressHash,
    status: LinkStatus,
    destination: u32,
    sent: usize,
)
    requires
        vpn.wf(),
        is_peer(vpn.peers, hash),
        destination != vpn.local_tunnel_ip,
    ensures
        ({
            let checked = RuntimeView {
                peers: with_peer(vpn.peers, hash, |p: PeerView| synced_peer(p, status)),
                ..vpn
            };
            let decision = tun_packet_decision(checked, Some(destination), Some(hash));
            &&& status == LinkStatus::Active ==> decision == TunPacketDecision::Send(hash)
            &&& status != LinkStatus::Active ==> decision == TunPacketDecision::Backoff
                && tun_pauses(decision, sent)
        }),
{
    lemma_known(vpn.peers, hash);
    lemma_position(vpn.peers, hash);
    let i = position(vpn.peers, hash);
    let peers = vpn.peers.update(i, synced_peer(vpn.peers[i], status));
    assert forall|k: int| 0 <= k < i implies (#[trigger] peers[k]).hash != hash by {
        assert(peers[k] == vpn.peers[k]);
    }
    lemma_position_is(peers, hash, i);
}

/// A packet out of the tunnel is ignored without an address and for the gateway's
/// own, dropped where nobody has its address, held back where the link of the
/// owner is not active, and otherwise sent to the owner.
pub proof fn tunnel_packets_go_to_their_owner(
    vpn: RuntimeView,
    destination: Option<u32>,
    owner: Option<AddressHash>,
)
    requires
        vpn.wf(),
    ensures
        ({
            let decision = tun_packet_decision(vpn, destination, owner);
            let here = destination is None || destination == Some(vpn.local_tunnel_ip);
            &&& decision is Ignore <==> here
            &&& decision is Drop <==> !here && owner is None
            &&& decision matches TunPacketDecision::Send(hash) ==> !here && owner == Some(hash)
            &&& !here && owner is Some ==> {
                let idle = exists|i: int|
                    0 <= i < vpn.peers.len() && (#[trigger] vpn.peers[i]).hash == owner->0
                        && vpn.peers[i].state != LinkState::Active;
                &&& decision is Backoff <==> idle
                &&& decision == TunPacketDecision::Send(owner->0) <==> !idle
            }
        }),
{
    if owner is Some {
        let hash = owner->0;
        lemma_position(vpn.peers, hash);
        let at = position(vpn.peers, hash);
        if known(vpn.peers, hash) {
            assert forall|i: int| 0 <= i < vpn.peers.len() && (#[trigger] vpn.peers[i]).hash
                == hash implies i == at by {
                if i < at {
                    assert(vpn.peers[i].hash != hash);
                } else if at < i {
                    assert(vpn.peers[at].hash != vpn.peers[i].hash);
                }
            }
            assert(vpn.peers[at].hash == hash);
        }
    }
}

/// What becomes of a packet out of the tunnel is counted once: sent with its
/// length, for the whole and for its peer, or dropped.
pub proof fn tunnel_packets_are_counted_once(
    vpn: RuntimeView,
    hash: AddressHash,
    len: usize,
    sent: usize,
    now: u64,
)
    requires
        vpn.wf(),
    ensures
        after_tun_packet(vpn, TunPacketDecision::Ignore, len, sent, now) == vpn,
        ({
            let lost = RuntimeView { metrics: counted_drop(vpn.metrics), ..vpn };
            let after = after_tun_packet(vpn, TunPacketDecision::Send(hash), len, sent, now);
            &&& after_tun_packet(vpn, TunPacketDecision::Drop, len, sent, now) == lost
            &&& after_tun_packet(vpn, TunPacketDecision::Backoff, len, sent, now) == lost
            &&& sent == 0 ==> after == lost
            &&& sent > 0 ==> {
                &&& after.metrics == counted_tx(vpn.metrics, len, now)
                &&& after.peers.len() == vpn.peers.len()
                &&& forall|i: int|
                    0 <= i < vpn.peers.len() ==> #[trigger] after.peers[i] == (if vpn.peers[i].hash
                        == hash {
                        PeerView {
                            metrics: counted_tx(vpn.peers[i].metrics, len, now),
                            ..vpn.peers[i]
                        }
                    } else {
                        vpn.peers[i]
                    })
            }
        }),
        tun_pauses(TunPacketDecision::Backoff, sent),
        !tun_pauses(TunPacketDecision::Ignore, sent),
        !tun_pauses(TunPacketDecision::Drop, sent),
        tun_pauses(TunPacketDecision::Send(hash), sent) <==> sent == 0,
{
    changes_reach_one_peer(
        vpn.peers,
        hash,
        |p: PeerView| PeerView { metrics: counted_tx(p.metrics, len, now), ..p },
    );
}

/// A packet over a link is credited to its sender where that is a peer, otherwise
/// to the owner of its source address where that is one. A packet that is
/// credited to nobody passes only where everyone may use the VPN and nobody
/// claims to have sent it.
pub proof fn link_packets_need_a_peer(
    vpn: RuntimeView,
    sender: Option<AddressHash>,
    owner: Option<AddressHash>,
)
    ensures
        ({
            let from_sender = sender is Some && is_peer(vpn.peers, sender->0);
            let from_owner = owner is Some && is_peer(vpn.peers, owner->0);
            let decision = link_packet_decision(vpn, sender, owner);
            &&& from_sender ==> decision == LinkPacketDecision::Forward(sender)
            &&& !from_sender && from_owner ==> decision == LinkPacketDecision::Forward(owner)
            &&& !from_sender && !from_owner && sender is None && vpn.allow_all_peers ==> decision
                == LinkPacketDecision::Forward(None)
            &&& !from_sender && !from_owner && (sender is Some || !vpn.allow_all_peers)
                ==> decision is Drop
        }),
{
    if sender is Some {
        lemma_known(vpn.peers, sender->0);
    }
    if owner is Some {
        lemma_known(vpn.peers, owner->0);
    }
}

/// What a control frame does to the peer that sent it: routes are taken up with
/// their grace of 45 seconds, a sign of life is noted, and a broken frame is kept
/// as an error. No other peer changes, and nothing else does.
pub proof fn control_frames_change_their_sender(
    vpn: RuntimeView,
    hash: AddressHash,
    frame: CtrlFrame,
    now: u64,
    i: int,
)
    requires
        vpn.wf(),
        0 <= i < vpn.peers.len(),
        now + 45 <= u64::MAX,
    ensures
        ({
            let after = after_ctrl(vpn, Some(hash), frame, now);
            let old_peer = vpn.peers[i];
            let new_peer = after.peers[i];
            &&& after == RuntimeView { peers: after.peers, ..vpn }
            &&& after.peers.len() == vpn.peers.len()
            &&& old_peer.hash != hash ==> new_peer == old_peer
            &&& old_peer.hash == hash ==> match frame {
                CtrlFrame::Routes(routes) => {
                    &&& new_peer.routes == routes@.filter_map(|r: Option<Ipv4Cidr>| r)
                    &&& new_peer.route_expires_ts == now + 45
                    &&& new_peer.last_seen_ts == now
                    &&& new_peer.state == old_peer.state
                    &&& new_peer.metrics == old_peer.metrics
                    &&& new_peer.last_error == old_peer.last_error
                },
                CtrlFrame::Ping => new_peer == (PeerView { last_seen_ts: now, ..old_peer }),
                CtrlFrame::Invalid(message) => new_peer == (PeerView {
                    last_error: Some(message@),
                    ..old_peer
                }),
            }
        }),
{
    match frame {
        CtrlFrame::Routes(routes) => {
            changes_reach_one_peer(
                vpn.peers,
                hash,
                |p: PeerView| announced(p, networks(routes@), now),
            );
        },
        CtrlFrame::Ping => {
            changes_reach_one_peer(
                vpn.peers,
                hash,
                |p: PeerView| PeerView { last_seen_ts: now, ..p },
            );
        },
        CtrlFrame::Invalid(message) => {
            changes_reach_one_peer(
                vpn.peers,
                hash,
                |p: PeerView| PeerView { last_error: Some(message@), ..p },
            );
        },
    }
}

/// What an announce does: the destination becomes a peer that was discovered, with
/// the tunnel address of its hash, or stays the peer that it was; its routes are
/// those it announced, for 45 seconds, and its error is forgotten. No other peer
/// changes.
pub proof fn announces_are_taken_up(
    vpn: RuntimeView,
    hash: AddressHash,
    routes: Seq<Ipv4Cidr>,
    now: u64,
)
    requires
        vpn.wf(),
        now + 45 <= u64::MAX,
    ensures
        ({
            let after = after_announce(vpn, hash, routes, now);
            &&& is_peer(vpn.peers, hash) ==> after.len() == vpn.peers.len()
            &&& !is_peer(vpn.peers, hash) ==> {
                let peer = after.last();
                &&& after.len() == vpn.peers.len() + 1
                &&& peer.hash == hash && peer.tunnel_ip == tunnel_ip(vpn.network, hash@)
                &&& peer.state == LinkState::Discovered
                &&& peer.routes == routes && peer.route_expires_ts == now + 45
                &&& peer.last_seen_ts == now && peer.last_error is None
                &&& !peer.link_requested && peer.reconnect_cooldown_until == 0
            }
            &&& forall|i: int|
                0 <= i < vpn.peers.len() ==> {
                    let old_peer = vpn.peers[i];
                    let new_peer = #[trigger] after[i];
                    &&& old_peer.hash != hash ==> new_peer == old_peer
                    &&& old_peer.hash == hash ==> new_peer == (PeerView {
                        routes,
                        route_expires_ts: (now + 45) as u64,
                        last_seen_ts: now,
                        last_error: None,
                        ..old_peer
                    })
                }
        }),
{
    lemma_known(vpn.peers, hash);
    lemma_position(vpn.peers, hash);
    let at = position(vpn.peers, hash);
    let after = after_announce(vpn, hash, routes, now);
    assert forall|i: int| 0 <= i < vpn.peers.len() implies {
        let old_peer = vpn.peers[i];
        let new_peer = #[trigger] after[i];
        &&& old_peer.hash != hash ==> new_peer == old_peer
        &&& old_peer.hash == hash ==> new_peer == (PeerView {
            routes,
            route_expires_ts: (now + 45) as u64,
            last_seen_ts: now,
            last_error: None,
            ..old_peer
        })
    } by {
        if vpn.peers[i].hash == hash && i != at {
            if i < at {
                assert(vpn.peers[i].hash != hash);
            } else {
                assert(vpn.peers[at].hash != vpn.peers[i].hash);
            }
        }
    }
}

/// Routes that have ended are dropped, with nothing else of their peer; all other
/// peers stay as they are.
pub proof fn only_ended_routes_are_dropped(peer: PeerView, now: u64)
    ensures
        ({
            let ended = peer.route_expires_ts != 0 && now >= peer.route_expires_ts;
            let after = expired_peer(peer, now);
            &&& ended ==> after == (PeerView { routes: Seq::empty(), ..peer })
            &&& !ended ==> after == peer
        }),
{
    if peer.routes.len() == 0 {
        assert(peer.routes =~= Seq::<Ipv4Cidr>::empty());
    }
}

/// A fresh link is opened to whoever may be a peer, has no link that will do, is
/// not resting and has no request in flight, and to nobody else.
pub proof fn links_are_opened_when_needed(
    vpn: RuntimeView,
    hash: AddressHash,
    existing: Option<LinkStatus>,
    now: u64,
    i: int,
)
    requires
        vpn.wf(),
    ensures
        ({
            let decision = out_link_decision(vpn, hash, existing, now);
            let allowed = hash != vpn.destination && (vpn.allow_all_peers
                || vpn.allowed_peers.contains(hash));
            let linked = existing is Some && existing != Some(LinkStatus::Closed);
            &&& !allowed <==> decision is Refuse
            &&& allowed && linked <==> decision is Reuse
            &&& allowed && !linked && !is_peer(vpn.peers, hash) ==> decision is Open
            &&& allowed && !linked && 0 <= i < vpn.peers.len() && vpn.peers[i].hash == hash ==> {
                let peer = vpn.peers[i];
                &&& now < peer.reconnect_cooldown_until ==> decision == OutLinkDecision::Cooldown(
                    (peer.reconnect_cooldown_until - now) as u64,
                )
                &&& now >= peer.reconnect_cooldown_until && peer.link_requested ==> decision
                    is InFlight
                &&& now >= peer.reconnect_cooldown_until && !peer.link_requested ==> decision
                    is Open
            }
        }),
{
    lemma_known(vpn.peers, hash);
    lemma_position(vpn.peers, hash);
    let at = position(vpn.peers, hash);
    if 0 <= i < vpn.peers.len() && vpn.peers[i].hash == hash {
        if i < at {
            assert(vpn.peers[i].hash != hash);
        } else if at < i {
            assert(vpn.peers[at].hash != vpn.peers[i].hash);
        }
    }
}

/// A peer to which a link is being opened is pending, with the request in flight
/// and one more attempt.
pub proof fn opened_links_are_pending(peer: PeerView, now: u64)
    ensures
        ({
            let after = opening_peer(peer, now);
            &&& after.state == LinkState::Pending
            &&& after.link_requested
            &&& after.link_attempt_ts == Some(now)
            &&& peer.reconnect_attempts < u32::MAX ==> after.reconnect_attempts
                == peer.reconnect_attempts + 1
            &&& after.reconnect_cooldown_until == peer.reconnect_cooldown_until
            &&& same_apart_from_link(peer, after)
        }),
{
}

/// Peers that are named get a place: each but the gateway itself is a peer
/// afterwards, with its tunnel address; the peers that were there stay as they
/// are, in front.
pub proof fn named_peers_get_a_place(
    peers: Seq<PeerView>,
    hashes: Seq<AddressHash>,
    destination: AddressHash,
    network: Ipv4Cidr,
)
    ensures
        ({
            let after = seeded(peers, hashes, destination, network);
            &&& peers.is_prefix_of(after)
            &&& forall|k: int|
                0 <= k < hashes.len() && #[trigger] hashes[k] != destination ==> is_peer(
                    after,
                    hashes[k],
                )
            &&& forall|i: int|
                peers.len() <= i < after.len() ==> {
                    let peer = #[trigger] after[i];
                    &&& hashes.contains(peer.hash) && peer.hash != destination
                    &&& !is_peer(peers, peer.hash)
                    &&& peer.tunnel_ip == tunnel_ip(network, peer.hash@)
                    &&& peer.state == LinkState::Configured
                    &&& peer.routes.len() == 0 && peer.last_seen_ts == 0
                }
        }),
    decreases hashes.len(),
{
    if hashes.len() > 0 {
        let fewer = hashes.drop_last();
        let hash = hashes.last();
        named_peers_get_a_place(peers, fewer, destination, network);
        let before = seeded(peers, fewer, destination, network);
        let after = seeded(peers, hashes, destination, network);
        lemma_known(before, hash);
        assert forall|i: int| 0 <= i < before.len() implies #[trigger] after[i] == before[i] by {}
        assert(peers.is_prefix_of(after)) by {
            assert(peers =~= before.subrange(0, peers.len() as int));
            assert(peers =~= after.subrange(0, peers.len() as int));
        }
        assert forall|k: int| 0 <= k < hashes.len() && #[trigger] hashes[k]
            != destination implies is_peer(after, hashes[k]) by {
            if k < fewer.len() {
                assert(fewer[k] == hashes[k]);
                assert(is_peer(before, fewer[k]));
                let i = choose|i: int|
                    0 <= i < before.len() && (#[trigger] before[i]).hash == fewer[k];
                assert(after[i] == before[i]);
            } else if is_peer(before, hash) {
                let i = choose|i: int| 0 <= i < before.len() && (#[trigger] before[i]).hash == hash;
                assert(after[i] == before[i]);
            } else {
                assert(after[before.len() as int].hash == hash);
            }
        }
        assert forall|i: int| peers.len() <= i < after.len() implies {
            let peer = #[trigger] after[i];
            &&& hashes.contains(peer.hash) && peer.hash != destination
            &&& !is_peer(peers, peer.hash)
            &&& peer.tunnel_ip == tunnel_ip(network, peer.hash@)
            &&& peer.state == LinkState::Configured
            &&& peer.routes.len() == 0 && peer.last_seen_ts == 0
        } by {
            if i < before.len() {
                assert(after[i] == before[i]);
                assert(fewer.contains(before[i].hash));
                let k = choose|k: int| 0 <= k < fewer.len() && fewer[k] == before[i].hash;
                assert(hashes[k] == before[i].hash);
            } else {
                assert(hashes[hashes.len() - 1] == hash);
                if is_peer(peers, hash) {
                    let m = choose|m: int| 0 <= m < peers.len() && (#[trigger] peers[m]).hash == hash;
                    assert(before[m] == peers[m]);
                    assert(is_peer(before, hash));
                }
            }
        }
    } else {
        assert(peers =~= peers.subrange(0, peers.len() as int));
    }
}

/// Under a list, the peers are those on the list, and only those; where everyone
/// may use the VPN, no peer is lost. Either way a peer that stays is as it was.
pub proof fn policies_keep_whom_they_allow(
    peers: Seq<PeerView>,
    allow_all: bool,
    allowed: Seq<AddressHash>,
    destination: AddressHash,
    network: Ipv4Cidr,
)
    requires
        distinct_peers(peers),
    ensures
        ({
            let after = policy_peers(peers, allow_all, allowed, destination, network);
            &&& forall|k: int|
                0 <= k < allowed.len() && #[trigger] allowed[k] != destination ==> is_peer(
                    after,
                    allowed[k],
                )
            &&& forall|i: int|
                0 <= i < peers.len() && (allow_all || allowed.contains((#[trigger] peers[i]).hash))
                    ==> after.contains(peers[i])
            &&& !allow_all ==> forall|i: int|
                0 <= i < after.len() ==> allowed.contains((#[trigger] after[i]).hash)
        }),
{
    let all = seeded(peers, allowed, destination, network);
    named_peers_get_a_place(peers, allowed, destination, network);
    let after = policy_peers(peers, allow_all, allowed, destination, network);
    let keep = |p: PeerView| allowed.contains(p.hash);
    assert forall|i: int| 0 <= i < peers.len() && (allow_all || allowed.contains(
        (#[trigger] peers[i]).hash,
    )) implies after.contains(peers[i]) by {
        assert(all[i] == peers[i]);
        if !allow_all {
            lemma_filter_keeps(all, keep, i);
        }
    }
    assert forall|k: int| 0 <= k < allowed.len() && #[trigger] allowed[k]
        != destination implies is_peer(after, allowed[k]) by {
        let i = choose|i: int| 0 <= i < all.len() && (#[trigger] all[i]).hash == allowed[k];
        if !allow_all {
            assert(allowed.contains(all[i].hash));
            lemma_filter_keeps(all, keep, i);
            let m = choose|m: int| 0 <= m < after.len() && after[m] == all[i];
            assert(after[m].hash == allowed[k]);
        }
    }
    if !allow_all {
        lemma_filter_kept(all, keep);
    }
}

proof fn lemma_filter_keeps(peers: Seq<PeerView>, keep: spec_fn(PeerView) -> bool, i: int)
    requires
        0 <= i < peers.len(),
        keep(peers[i]),
    ensures
        peers.filter(keep).contains(peers[i]),
    decreases peers.len(),
{
    reveal(Seq::filter);
    let rest = peers.drop_last();
    let all = peers.filter(keep);
    if i < rest.len() {
        lemma_filter_keeps(rest, keep, i);
        assert(rest[i] == peers[i]);
        let kept = rest.filter(keep);
        let k = choose|k: int| 0 <= k < kept.len() && kept[k] == peers[i];
        assert(all[k] == kept[k]);
    } else {
        assert(all[all.len() - 1] == peers[i]);
    }
}

proof fn lemma_filter_kept(peers: Seq<PeerView>, keep: spec_fn(PeerView) -> bool)
    ensures
        forall|i: int| 0 <= i < peers.filter(keep).len() ==> keep(#[trigger] peers.filter(keep)[i]),
    decreases peers.len(),
{
    reveal(Seq::filter);
    if peers.len() > 0 {
        lemma_filter_kept(peers.drop_last(), keep);
        let kept = peers.drop_last().filter(keep);
        assert forall|i: int| 0 <= i < peers.filter(keep).len() implies keep(
            #[trigger] peers.filter(keep)[i],
        ) by {
            if i < kept.len() {
                assert(peers.filter(keep)[i] == kept[i]);
            }
        }
    }
}

/// A sync leaves exactly the desired routes in place: once the stale ones are
/// gone and the desired ones are put in, nothing else is installed. Each remote
/// route is either desired or in conflict, and in conflict exactly where some
/// address of it belongs to a local route or to the alias of one.
pub proof fn syncs_leave_the_desired_routes(
    vpn: RuntimeView,
    subnets: Seq<Ipv4Cidr>,
    plan: RouteSyncPlan,
    t: Seq<char>,
    i: int,
)
    requires
        vpn.wf(),
        all_wf(subnets),
        plans(vpn, subnets, plan),
        0 <= i < subnets.len(),
    ensures
        ({
            let kept = vpn.installed_routes.contains(t) && !views(plan.stale@).contains(t);
            kept || views(plan.desired@).contains(t) <==> views(plan.desired@).contains(t)
        }),
        views(plan.stale@).contains(t) ==> vpn.installed_routes.contains(t),
        views(plan.desired@).contains(route_text(subnets[i])) <==> !views(
            plan.conflicts@,
        ).contains(route_text(subnets[i])),
        views(plan.conflicts@).contains(route_text(subnets[i])) <==> exists|k: int, ip: u32|
            0 <= k < plan.translations@.len() && subnets[i].has(ip) && ((
            #[trigger] plan.translations@[k]).local.has(ip) || plan.translations@[k].exported.has(
                ip,
            )) && #[trigger] shared(ip),
{
    let local = translations(vpn.local_routes, vpn.destination@, vpn.route_aliasing_enabled);
    let route = subnets[i];
    let text = route_text(route);
    let hit = |r: Ipv4Cidr| conflicts(local, r) == true;
    let free = |r: Ipv4Cidr| conflicts(local, r) == false;
    desired_routes_do_not_conflict(vpn, subnets, plan, text);
    if conflicts(local, route) {
        assert(hit(subnets[i]));
        assert(names_route(subnets, hit, text));
    } else {
        assert(free(subnets[i]));
        assert(names_route(subnets, free, text));
    }
    assert(views(plan.conflicts@).contains(text) <==> conflicts(local, route)) by {
        if !conflicts(local, route) {
            assert(views(plan.desired@).contains(text));
        }
    }
    lemma_conflicts_share(vpn, route);
    assert forall|k: int, ip: u32|
        0 <= k < plan.translations@.len() && route.has(ip) && ((#[trigger] plan.translations@[k]).local.has(
            ip,
        ) || plan.translations@[k].exported.has(ip)) && #[trigger] shared(ip) implies conflicts(
        local,
        route,
    ) by {
        assert(local[k].local.has(ip) || local[k].exported.has(ip));
        lemma_share_conflicts(vpn, route, k, ip);
    }
    if conflicts(local, route) {
        let (k, ip) = choose|k: int, ip: u32|
            0 <= k < local.len() && route.has(ip) && ((#[trigger] local[k]).local.has(ip)
                || local[k].exported.has(ip)) && #[trigger] shared(ip);
        assert(plan.translations@[k] == local[k]);
    }
}

/// An address, where two networks are asked about it.
pub open spec fn shared(ip: u32) -> bool {
    true
}

/// The routes of translations are networks.
proof fn lemma_translations_wf(vpn: RuntimeView, k: int)
    requires
        vpn.wf(),
        0 <= k < vpn.local_routes.len(),
    ensures
        ({
            let local = translations(vpn.local_routes, vpn.destination@, vpn.route_aliasing_enabled);
            local[k].local.wf() && local[k].exported.wf()
        }),
{
    assert(vpn.local_routes[k].wf());
    if vpn.local_routes[k].length == 24 {
        exported_route_is_an_alias(vpn.destination@, vpn.local_routes[k]);
    }
}

proof fn lemma_conflicts_share(vpn: RuntimeView, route: Ipv4Cidr)
    requires
        vpn.wf(),
        route.wf(),
    ensures
        ({
            let local = translations(vpn.local_routes, vpn.destination@, vpn.route_aliasing_enabled);
            conflicts(local, route) ==> exists|k: int, ip: u32|
                0 <= k < local.len() && route.has(ip) && ((#[trigger] local[k]).local.has(ip)
                    || local[k].exported.has(ip)) && #[trigger] shared(ip)
        }),
{
    let local = translations(vpn.local_routes, vpn.destination@, vpn.route_aliasing_enabled);
    if conflicts(local, route) {
        let k = choose|k: int|
            0 <= k < local.len() && (overlap(route, (#[trigger] local[k]).local) || overlap(
                route,
                local[k].exported,
            ));
        lemma_translations_wf(vpn, k);
        overlap_is_a_shared_address(route, local[k].local);
        overlap_is_a_shared_address(route, local[k].exported);
        if overlap(route, local[k].local) {
            let ip = choose|ip: u32| route.has(ip) && local[k].local.has(ip);
            assert(shared(ip));
        } else {
            let ip = choose|ip: u32| route.has(ip) && local[k].exported.has(ip);
            assert(shared(ip));
        }
    }
}

proof fn lemma_share_conflicts(vpn: RuntimeView, route: Ipv4Cidr, k: int, ip: u32)
    requires
        vpn.wf(),
        route.wf(),
        0 <= k < vpn.local_routes.len(),
        route.has(ip),
        ({
            let local = translations(vpn.local_routes, vpn.destination@, vpn.route_aliasing_enabled);
            local[k].local.has(ip) || local[k].exported.has(ip)
        }),
    ensures
        conflicts(
            translations(vpn.local_routes, vpn.destination@, vpn.route_aliasing_enabled),
            route,
        ),
{
    let local = translations(vpn.local_routes, vpn.destination@, vpn.route_aliasing_enabled);
    lemma_translations_wf(vpn, k);
    overlap_is_a_shared_address(route, local[k].local);
    overlap_is_a_shared_address(route, local[k].exported);
    assert(overlap(route, local[k].local) || overlap(route, local[k].exported));
}

/// A sync that went through puts its routes in place of the earlier ones and
/// clears the error; one that failed leaves the routes as they were and notes the
/// error. A VPN that only pretends to run goes on pretending.
pub proof fn syncs_are_recorded(
    vpn: RuntimeView,
    desired: Seq<Seq<char>>,
    conflicted: Seq<Seq<char>>,
    message: Seq<char>,
)
    ensures
        ({
            let done = after_sync(vpn, desired, conflicted, None);
            let broken = after_sync(vpn, desired, conflicted, Some(message));
            &&& done.installed_routes == desired && done.conflicted_routes == conflicted
            &&& done.last_error is None
            &&& status_name(done.status) == (if vpn.status == STATUS_MOCK {
                "mock"@
            } else {
                "running"@
            })
            &&& broken.installed_routes == vpn.installed_routes && broken.conflicted_routes
                == vpn.conflicted_routes
            &&& broken.last_error == Some(message) && status_name(broken.status) == "error"@
            &&& done.peers == vpn.peers && broken.peers == vpn.peers
            &&& done.local_routes == vpn.local_routes && broken.local_routes == vpn.local_routes
        }),
{
}

/// Local routes are told to peers one for one: as they are where routes are not
/// aliased, and otherwise a /24 under its alias and any other route as it is.
pub proof fn every_local_route_is_exported(
    routes: Seq<Ipv4Cidr>,
    hash: Seq<u8>,
    aliasing: bool,
    i: int,
)
    requires
        0 <= i < routes.len(),
    ensures
        translations(routes, hash, aliasing).len() == routes.len(),
        translations(routes, hash, aliasing)[i].local == routes[i],
        !aliasing || routes[i].length != 24 ==> translations(routes, hash, aliasing)[i].exported
            == routes[i],
        aliasing && routes[i].length == 24 ==> translations(routes, hash, aliasing)[i].exported
            == exported_route(hash, routes[i]),
{
}

} // verus!
