//! What the VPN shows of itself.
use crate::digest::{hex_encode, hex_text};
use crate::order::{in_order, sorted, ties_kept, viewed, Ranked};
use crate::text::{
    cat3, clone_opt, holds, lemma_text_lt_between, lemma_text_lt_irreflexive, lemma_text_lt_total,
    lemma_text_lt_transitive, less, opt_view, same, text_lt, views,
};
use crate::vpn::network::{address_text, format_address, Ipv4Cidr};
use crate::vpn::peer::{live, routes_live, state_name, Peer, PeerView};
use crate::vpn::routes::{
    exported_route_is_an_alias, local_route_translations, route_text, translations, AddressHash,
    LocalRouteTranslation,
};
use crate::vpn::runtime::{all_wf, peer_wf, status_name, status_str, RuntimeView, VpnRuntime};
use vstd::prelude::*;

verus! {

// ── Records ──────────────────────────────────────────────────────────────────

/// A peer, as it is shown.
#[derive(Debug, Clone, Default)]
pub struct VpnPeerSnapshot {
    pub destination: String,
    pub tunnel_ip: Option<String>,
    pub link_state: String,
    pub announced_routes: Vec<String>,
    pub last_seen_ts: u64,
    pub last_error: Option<String>,
    pub tx_packets: u64,
    pub tx_bytes: u64,
    pub rx_packets: u64,
    pub rx_bytes: u64,
    pub tx_bps: u64,
    pub rx_bps: u64,
    pub last_tx_ts: u64,
    pub last_rx_ts: u64,
}

/// What the record of a peer holds.
pub struct PeerSnapshotView {
    pub destination: Seq<char>,
    pub tunnel_ip: Option<Seq<char>>,
    pub link_state: Seq<char>,
    pub announced_routes: Seq<Seq<char>>,
    pub last_seen_ts: u64,
    pub last_error: Option<Seq<char>>,
    pub tx_packets: u64,
    pub tx_bytes: u64,
    pub rx_packets: u64,
    pub rx_bytes: u64,
    pub tx_bps: u64,
    pub rx_bps: u64,
    pub last_tx_ts: u64,
    pub last_rx_ts: u64,
}

impl View for VpnPeerSnapshot {
    type V = PeerSnapshotView;

    open spec fn view(&self) -> PeerSnapshotView {
        PeerSnapshotView {
            destination: self.destination@,
            tunnel_ip: opt_view(self.tunnel_ip),
            link_state: self.link_state@,
            announced_routes: views(self.announced_routes@),
            last_seen_ts: self.last_seen_ts,
            last_error: opt_view(self.last_error),
            tx_packets: self.tx_packets,
            tx_bytes: self.tx_bytes,
            rx_packets: self.rx_packets,
            rx_bytes: self.rx_bytes,
            tx_bps: self.tx_bps,
            rx_bps: self.rx_bps,
            last_tx_ts: self.last_tx_ts,
            last_rx_ts: self.last_rx_ts,
        }
    }
}

/// A route of a peer, as it is shown.
#[derive(Debug, Clone, Default)]
pub struct VpnRouteSnapshot {
    pub network: String,
    pub owner: String,
    pub status: String,
    pub last_seen_ts: u64,
    pub installed: bool,
}

/// What the record of a route holds.
pub struct RouteSnapshotView {
    pub network: Seq<char>,
    pub owner: Seq<char>,
    pub status: Seq<char>,
    pub last_seen_ts: u64,
    pub installed: bool,
}

impl View for VpnRouteSnapshot {
    type V = RouteSnapshotView;

    open spec fn view(&self) -> RouteSnapshotView {
        RouteSnapshotView {
            network: self.network@,
            owner: self.owner@,
            status: self.status@,
            last_seen_ts: self.last_seen_ts,
            installed: self.installed,
        }
    }
}

/// A local route and what peers see in its place.
#[derive(Debug, Clone, Default)]
pub struct VpnRouteMappingSnapshot {
    pub subnet: String,
    pub tunnel: String,
    pub mapped_subnet: String,
}

/// What the record of a local route holds.
pub struct MappingView {
    pub subnet: Seq<char>,
    pub tunnel: Seq<char>,
    pub mapped_subnet: Seq<char>,
}

impl View for VpnRouteMappingSnapshot {
    type V = MappingView;

    open spec fn view(&self) -> MappingView {
        MappingView {
            subnet: self.subnet@,
            tunnel: self.tunnel@,
            mapped_subnet: self.mapped_subnet@,
        }
    }
}

/// The VPN, as it is shown.
#[derive(Debug, Clone, Default)]
pub struct VpnSnapshot {
    pub destination_hash: String,
    pub network: String,
    pub local_tunnel_ip: Option<String>,
    pub backend: String,
    pub interface_name: Option<String>,
    pub status: String,
    pub advertised_routes: Vec<String>,
    pub local_routes: Vec<String>,
    pub tx_packets: u64,
    pub tx_bytes: u64,
    pub tx_bps: u64,
    pub rx_packets: u64,
    pub rx_bytes: u64,
    pub rx_bps: u64,
    pub drop_packets: u64,
    pub last_tx_ts: u64,
    pub last_rx_ts: u64,
    pub peers: Vec<VpnPeerSnapshot>,
    pub remote_routes: Vec<VpnRouteSnapshot>,
    pub route_mappings: Vec<VpnRouteMappingSnapshot>,
    pub last_error: Option<String>,
}

// ── Orders ───────────────────────────────────────────────────────────────────

impl Ranked for VpnPeerSnapshot {
    open spec fn ranks_before(a: PeerSnapshotView, b: PeerSnapshotView) -> bool {
        text_lt(a.destination, b.destination)
    }

    proof fn ranks_irreflexive(a: PeerSnapshotView) {
        lemma_text_lt_irreflexive(a.destination);
    }

    proof fn ranks_transitive(a: PeerSnapshotView, b: PeerSnapshotView, c: PeerSnapshotView) {
        lemma_text_lt_transitive(a.destination, b.destination, c.destination);
    }

    proof fn ranks_between(a: PeerSnapshotView, b: PeerSnapshotView, c: PeerSnapshotView) {
        lemma_text_lt_between(a.destination, b.destination, c.destination);
    }

    fn is_before(&self, other: &VpnPeerSnapshot) -> (out: bool) {
        less(self.destination.as_str(), other.destination.as_str())
    }
}

impl Ranked for VpnRouteSnapshot {
    open spec fn ranks_before(a: RouteSnapshotView, b: RouteSnapshotView) -> bool {
        text_lt(a.network, b.network)
    }

    proof fn ranks_irreflexive(a: RouteSnapshotView) {
        lemma_text_lt_irreflexive(a.network);
    }

    proof fn ranks_transitive(a: RouteSnapshotView, b: RouteSnapshotView, c: RouteSnapshotView) {
        lemma_text_lt_transitive(a.network, b.network, c.network);
    }

    proof fn ranks_between(a: RouteSnapshotView, b: RouteSnapshotView, c: RouteSnapshotView) {
        lemma_text_lt_between(a.network, b.network, c.network);
    }

    fn is_before(&self, other: &VpnRouteSnapshot) -> (out: bool) {
        less(self.network.as_str(), other.network.as_str())
    }
}

impl Ranked for VpnRouteMappingSnapshot {
    open spec fn ranks_before(a: MappingView, b: MappingView) -> bool {
        text_lt(a.subnet, b.subnet) || (a.subnet == b.subnet && text_lt(
            a.mapped_subnet,
            b.mapped_subnet,
        ))
    }

    proof fn ranks_irreflexive(a: MappingView) {
        lemma_text_lt_irreflexive(a.subnet);
        lemma_text_lt_irreflexive(a.mapped_subnet);
    }

    proof fn ranks_transitive(a: MappingView, b: MappingView, c: MappingView) {
        if text_lt(a.subnet, b.subnet) && text_lt(b.subnet, c.subnet) {
            lemma_text_lt_transitive(a.subnet, b.subnet, c.subnet);
        }
        if text_lt(a.mapped_subnet, b.mapped_subnet) && text_lt(
            b.mapped_subnet,
            c.mapped_subnet,
        ) {
            lemma_text_lt_transitive(a.mapped_subnet, b.mapped_subnet, c.mapped_subnet);
        }
    }

    proof fn ranks_between(a: MappingView, b: MappingView, c: MappingView) {
        if text_lt(a.subnet, c.subnet) {
            lemma_text_lt_between(a.subnet, b.subnet, c.subnet);
            lemma_text_lt_total(a.subnet, b.subnet);
            lemma_text_lt_total(b.subnet, c.subnet);
        } else {
            lemma_text_lt_between(a.mapped_subnet, b.mapped_subnet, c.mapped_subnet);
            lemma_text_lt_total(a.subnet, b.subnet);
        }
    }

    fn is_before(&self, other: &VpnRouteMappingSnapshot) -> (out: bool) {
        less(self.subnet.as_str(), other.subnet.as_str()) || (same(
            self.subnet.as_str(),
            other.subnet.as_str(),
        ) && less(self.mapped_subnet.as_str(), other.mapped_subnet.as_str()))
    }
}

// ── Parts ────────────────────────────────────────────────────────────────────

impl AddressHash {
    /// The hash as hexadecimal text.
    pub fn to_hex_string(&self) -> (out: String)
        ensures
            out@ == hex_text(self@),
    {
        hex_encode(vstd::array::array_as_slice(&self.bytes))
    }
}

/// The texts of routes.
pub open spec fn route_texts(routes: Seq<Ipv4Cidr>) -> Seq<Seq<char>> {
    routes.map_values(|r: Ipv4Cidr| route_text(r))
}

/// The texts of routes, in their order.
fn texts_of_routes(routes: &Vec<Ipv4Cidr>) -> (out: Vec<String>)
    requires
        all_wf(routes@),
    ensures
        views(out@) == route_texts(routes@),
{
    let mut out: Vec<String> = Vec::new();
    let mut i: usize = 0;
    while i < routes.len()
        invariant
            i <= routes@.len(),
            all_wf(routes@),
            views(out@) == route_texts(routes@.take(i as int)),
        decreases routes@.len() - i,
    {
        let ghost before = views(out@);
        let text = routes[i].text();
        out.push(text);
        proof {
            assert(views(out@) =~= before.push(text@));
            assert(route_texts(routes@.take(i + 1)) =~= before.push(text@));
        }
        i += 1;
    }
    assert(routes@.take(i as int) =~= routes@);
    out
}

/// A peer at `now`, as it is shown: its routes only while they count.
pub open spec fn peer_snapshot(peer: PeerView, now: u64) -> PeerSnapshotView {
    PeerSnapshotView {
        destination: hex_text(peer.hash@),
        tunnel_ip: Some(address_text(peer.tunnel_ip)),
        link_state: state_name(peer.state),
        announced_routes: if live(peer, now) {
            route_texts(peer.routes)
        } else {
            Seq::empty()
        },
        last_seen_ts: peer.last_seen_ts,
        last_error: peer.last_error,
        tx_packets: peer.metrics.tx_packets,
        tx_bytes: peer.metrics.tx_bytes,
        rx_packets: peer.metrics.rx_packets,
        rx_bytes: peer.metrics.rx_bytes,
        tx_bps: peer.metrics.tx_bps,
        rx_bps: peer.metrics.rx_bps,
        last_tx_ts: peer.metrics.last_tx_ts,
        last_rx_ts: peer.metrics.last_rx_ts,
    }
}

/// A peer at `now`, as it is shown.
fn snapshot_peer(peer: &Peer, now: u64) -> (out: VpnPeerSnapshot)
    requires
        all_wf(peer@.routes),
    ensures
        out@ == peer_snapshot(peer@, now),
{
    let announced_routes = if routes_live(peer, now) {
        texts_of_routes(&peer.routes)
    } else {
        let none: Vec<String> = Vec::new();
        assert(views(none@) =~= Seq::<Seq<char>>::empty());
        none
    };
    VpnPeerSnapshot {
        destination: peer.hash.to_hex_string(),
        tunnel_ip: Some(format_address(peer.tunnel_ip)),
        link_state: peer.state.as_str().to_owned(),
        announced_routes,
        last_seen_ts: peer.last_seen_ts,
        last_error: clone_opt(&peer.last_error),
        tx_packets: peer.metrics.tx_packets,
        tx_bytes: peer.metrics.tx_bytes,
        rx_packets: peer.metrics.rx_packets,
        rx_bytes: peer.metrics.rx_bytes,
        tx_bps: peer.metrics.tx_bps,
        rx_bps: peer.metrics.rx_bps,
        last_tx_ts: peer.metrics.last_tx_ts,
        last_rx_ts: peer.metrics.last_rx_ts,
    }
}

/// The texts of routes, each at its first place only.
pub open spec fn distinct_texts(routes: Seq<Ipv4Cidr>) -> Seq<Seq<char>>
    decreases routes.len(),
{
    if routes.len() == 0 {
        Seq::empty()
    } else {
        let before = distinct_texts(routes.drop_last());
        if before.contains(route_text(routes.last())) {
            before
        } else {
            before.push(route_text(routes.last()))
        }
    }
}

/// A route of a peer, as it is shown.
pub open spec fn route_snapshot(vpn: RuntimeView, peer: PeerView, text: Seq<char>) -> RouteSnapshotView {
    let conflict = vpn.conflicted_routes.contains(text);
    RouteSnapshotView {
        network: text,
        owner: hex_text(peer.hash@),
        status: if conflict {
            "conflict"@
        } else {
            "active"@
        },
        last_seen_ts: peer.last_seen_ts,
        installed: vpn.installed_routes.contains(text) && !conflict,
    }
}

/// The routes of a peer, as they are shown.
pub open spec fn routes_of_peer(vpn: RuntimeView, peer: PeerView) -> Seq<RouteSnapshotView> {
    distinct_texts(peer.routes).map_values(|t: Seq<char>| route_snapshot(vpn, peer, t))
}

/// The routes of all peers, as they are shown, before they are put in order.
pub open spec fn routes_of_peers(
    vpn: RuntimeView,
    peers: Seq<PeerView>,
) -> Seq<RouteSnapshotView>
    decreases peers.len(),
{
    if peers.len() == 0 {
        Seq::empty()
    } else {
        routes_of_peers(vpn, peers.drop_last()) + routes_of_peer(vpn, peers.last())
    }
}

/// A local route with what peers see in its place, as a text.
pub open spec fn translation_text(t: LocalRouteTranslation) -> Seq<char> {
    if t.local == t.exported {
        route_text(t.local)
    } else {
        route_text(t.exported) + " -> "@ + route_text(t.local)
    }
}

/// A local route with what peers see in its place, as a record.
pub open spec fn mapping(t: LocalRouteTranslation, tunnel_ip: u32) -> MappingView {
    MappingView {
        subnet: route_text(t.local),
        tunnel: address_text(tunnel_ip),
        mapped_subnet: route_text(t.exported),
    }
}

impl VpnRuntime {
    /// Adds the routes of a peer to the list of routes.
    fn push_peer_routes(&self, peer: &Peer, out: &mut Vec<VpnRouteSnapshot>)
        requires
            all_wf(peer@.routes),
        ensures
            viewed(final(out)@) == viewed(old(out)@) + routes_of_peer(self@, peer@),
    {
        let ghost start = viewed(out@);
        let mut seen: Vec<String> = Vec::new();
        let mut i: usize = 0;
        proof {
            assert(views(seen@) =~= Seq::<Seq<char>>::empty());
            assert(peer@.routes.take(0) =~= Seq::<Ipv4Cidr>::empty());
            let f = |t: Seq<char>| route_snapshot(self@, peer@, t);
            assert(start =~= start + views(seen@).map_values(f));
        }
        while i < peer.routes.len()
            invariant
                i <= peer.routes@.len(),
                all_wf(peer@.routes),
                views(seen@) == distinct_texts(peer@.routes.take(i as int)),
                viewed(out@) == start + views(seen@).map_values(
                    |t: Seq<char>| route_snapshot(self@, peer@, t),
                ),
            decreases peer.routes@.len() - i,
        {
            let ghost f = |t: Seq<char>| route_snapshot(self@, peer@, t);
            let ghost before = views(seen@);
            let ghost listed = viewed(out@);
            proof {
                let t = peer@.routes.take(i + 1);
                assert(t.drop_last() =~= peer@.routes.take(i as int));
                assert(t.last() == peer@.routes[i as int]);
            }
            let text = peer.routes[i].text();
            if !holds(&seen, text.as_str()) {
                let conflict = holds(&self.conflicted_routes, text.as_str());
                let installed = holds(&self.installed_routes, text.as_str());
                let entry = VpnRouteSnapshot {
                    network: text.clone(),
                    owner: peer.hash.to_hex_string(),
                    status: if conflict {
                        "conflict".to_owned()
                    } else {
                        "active".to_owned()
                    },
                    last_seen_ts: peer.last_seen_ts,
                    installed: installed && !conflict,
                };
                out.push(entry);
                proof {
                    assert(entry@ == f(text@));
                    assert(viewed(out@) =~= listed.push(f(text@)));
                    assert(before.push(text@).map_values(f) =~= before.map_values(f).push(
                        f(text@),
                    ));
                    assert(start + before.map_values(f).push(f(text@)) =~= listed.push(f(text@)));
                }
                seen.push(text);
                assert(views(seen@) =~= before.push(text@));
            }
            i += 1;
        }
        assert(peer@.routes.take(i as int) =~= peer@.routes);
    }

    /// The VPN at `now`.
    pub fn snapshot(&self, now: u64) -> (out: VpnSnapshot)
        requires
            self@.wf(),
        ensures
            out.destination_hash@ == hex_text(self@.destination@),
            out.network@ == route_text(self@.network),
            opt_view(out.local_tunnel_ip) == Some(address_text(self@.local_tunnel_ip)),
            out.backend@ == self@.backend,
            opt_view(out.interface_name) == self@.interface_name,
            out.status@ == status_name(self@.status),
            opt_view(out.last_error) == self@.last_error,
            (out.tx_packets, out.tx_bytes, out.tx_bps) == (
                self@.metrics.tx_packets,
                self@.metrics.tx_bytes,
                self@.metrics.tx_bps,
            ),
            (out.rx_packets, out.rx_bytes, out.rx_bps) == (
                self@.metrics.rx_packets,
                self@.metrics.rx_bytes,
                self@.metrics.rx_bps,
            ),
            (out.drop_packets, out.last_tx_ts, out.last_rx_ts) == (
                self@.metrics.drop_packets,
                self@.metrics.last_tx_ts,
                self@.metrics.last_rx_ts,
            ),
            in_order::<VpnPeerSnapshot>(viewed(out.peers@)),
            viewed(out.peers@).to_multiset() == self@.peers.map_values(
                |p: PeerView| peer_snapshot(p, now),
            ).to_multiset(),
            in_order::<VpnRouteSnapshot>(viewed(out.remote_routes@)),
            ties_kept::<VpnRouteSnapshot>(
                routes_of_peers(self@, self@.peers),
                viewed(out.remote_routes@),
            ),
            viewed(out.remote_routes@).to_multiset() == routes_of_peers(
                self@,
                self@.peers,
            ).to_multiset(),
            in_order::<String>(views(out.advertised_routes@)),
            views(out.advertised_routes@).to_multiset() == route_texts(
                self@.advertised_routes,
            ).to_multiset(),
            in_order::<String>(views(out.local_routes@)),
            views(out.local_routes@).to_multiset() == translations(
                self@.local_routes,
                self@.destination@,
                self@.route_aliasing_enabled,
            ).map_values(|t: LocalRouteTranslation| translation_text(t)).to_multiset(),
            in_order::<VpnRouteMappingSnapshot>(viewed(out.route_mappings@)),
            viewed(out.route_mappings@).to_multiset() == translations(
                self@.local_routes,
                self@.destination@,
                self@.route_aliasing_enabled,
            ).map_values(
                |t: LocalRouteTranslation| mapping(t, self@.local_tunnel_ip),
            ).to_multiset(),
    {
        let mut peers: Vec<VpnPeerSnapshot> = Vec::new();
        let mut remote_routes: Vec<VpnRouteSnapshot> = Vec::new();
        let mut i: usize = 0;
        proof {
            let f = |p: PeerView| peer_snapshot(p, now);
            assert(viewed(peers@) =~= self@.peers.take(0).map_values(f));
            assert(self@.peers.take(0) =~= Seq::<PeerView>::empty());
            assert(viewed(remote_routes@) =~= Seq::<RouteSnapshotView>::empty());
        }
        while i < self.peers.len()
            invariant
                i <= self.peers@.len(),
                self@.wf(),
                viewed(peers@) == self@.peers.take(i as int).map_values(
                    |p: PeerView| peer_snapshot(p, now),
                ),
                viewed(remote_routes@) == routes_of_peers(self@, self@.peers.take(i as int)),
            decreases self.peers@.len() - i,
        {
            let ghost f = |p: PeerView| peer_snapshot(p, now);
            let ghost shown = viewed(peers@);
            proof {
                assert(self@.peers[i as int] == self.peers@[i as int]@);
                assert(peer_wf(self@.peers[i as int], self@.destination, self@.network));
                let t = self@.peers.take(i + 1);
                assert(t.drop_last() =~= self@.peers.take(i as int));
                assert(t.last() == self@.peers[i as int]);
            }
            let entry = snapshot_peer(&self.peers[i], now);
            peers.push(entry);
            proof {
                assert(viewed(peers@) =~= shown.push(entry@));
                assert(self@.peers.take(i + 1).map_values(f) =~= shown.push(entry@));
            }
            self.push_peer_routes(&self.peers[i], &mut remote_routes);
            i += 1;
        }
        assert(self@.peers.take(i as int) =~= self@.peers);
        let list = local_route_translations(
            &self.local_routes,
            &self.destination,
            self.route_aliasing_enabled,
        );
        proof {
            assert forall|k: int| 0 <= k < list@.len() implies (#[trigger] list@[k]).local.wf()
                && list@[k].exported.wf() by {
                let r = self@.local_routes[k];
                assert(r.wf());
                assert(list@[k].local == r);
                if r.length == 24 {
                    exported_route_is_an_alias(self@.destination@, r);
                }
            }
        }
        let mut local_routes: Vec<String> = Vec::new();
        let mut route_mappings: Vec<VpnRouteMappingSnapshot> = Vec::new();
        let mut j: usize = 0;
        proof {
            let f = |t: LocalRouteTranslation| translation_text(t);
            let g = |t: LocalRouteTranslation| mapping(t, self@.local_tunnel_ip);
            assert(views(local_routes@) =~= list@.take(0).map_values(f));
            assert(viewed(route_mappings@) =~= list@.take(0).map_values(g));
        }
        while j < list.len()
            invariant
                j <= list@.len(),
                forall|k: int|
                    0 <= k < list@.len() ==> (#[trigger] list@[k]).local.wf()
                        && list@[k].exported.wf(),
                views(local_routes@) == list@.take(j as int).map_values(
                    |t: LocalRouteTranslation| translation_text(t),
                ),
                viewed(route_mappings@) == list@.take(j as int).map_values(
                    |t: LocalRouteTranslation| mapping(t, self@.local_tunnel_ip),
                ),
            decreases list@.len() - j,
        {
            let ghost f = |t: LocalRouteTranslation| translation_text(t);
            let ghost g = |t: LocalRouteTranslation| mapping(t, self@.local_tunnel_ip);
            let ghost texts = views(local_routes@);
            let ghost maps = viewed(route_mappings@);
            let local = list[j].local.text();
            let exported = list[j].exported.text();
            let unchanged = list[j].local.address == list[j].exported.address
                && list[j].local.length == list[j].exported.length;
            let text = if unchanged {
                local.clone()
            } else {
                cat3(exported.as_str(), " -> ", local.as_str())
            };
            let entry = VpnRouteMappingSnapshot {
                subnet: local,
                tunnel: format_address(self.local_tunnel_ip),
                mapped_subnet: exported,
            };
            local_routes.push(text);
            route_mappings.push(entry);
            proof {
                assert(text@ == translation_text(list@[j as int]));
                assert(entry@ == mapping(list@[j as int], self@.local_tunnel_ip));
                assert(views(local_routes@) =~= texts.push(text@));
                assert(viewed(route_mappings@) =~= maps.push(entry@));
                assert(list@.take(j + 1).map_values(f) =~= texts.push(text@));
                assert(list@.take(j + 1).map_values(g) =~= maps.push(entry@));
            }
            j += 1;
        }
        assert(list@.take(j as int) =~= list@);
        let advertised = texts_of_routes(&self.advertised_routes);
        proof {
            assert(viewed(advertised@) =~= views(advertised@));
            assert(viewed(local_routes@) =~= views(local_routes@));
        }
        let peers = sorted(peers);
        let remote_routes = sorted(remote_routes);
        let advertised_routes = sorted(advertised);
        let local_routes = sorted(local_routes);
        let route_mappings = sorted(route_mappings);
        proof {
            assert(viewed(advertised_routes@) =~= views(advertised_routes@));
            assert(viewed(local_routes@) =~= views(local_routes@));
        }
        VpnSnapshot {
            destination_hash: self.destination.to_hex_string(),
            network: self.network.text(),
            local_tunnel_ip: Some(format_address(self.local_tunnel_ip)),
            backend: self.backend.clone(),
            interface_name: clone_opt(&self.interface_name),
            status: status_str(self.status).to_owned(),
            advertised_routes,
            local_routes,
            tx_packets: self.metrics.tx_packets,
            tx_bytes: self.metrics.tx_bytes,
            tx_bps: self.metrics.tx_bps,
            rx_packets: self.metrics.rx_packets,
            rx_bytes: self.metrics.rx_bytes,
            rx_bps: self.metrics.rx_bps,
            drop_packets: self.metrics.drop_packets,
            last_tx_ts: self.metrics.last_tx_ts,
            last_rx_ts: self.metrics.last_rx_ts,
            peers,
            remote_routes,
            route_mappings,
            last_error: clone_opt(&self.last_error),
        }
    }
}

// ── Laws ─────────────────────────────────────────────────────────────────────

proof fn lemma_distinct_texts(routes: Seq<Ipv4Cidr>)
    ensures
        distinct_texts(routes).no_duplicates(),
        forall|j: int|
            0 <= j < routes.len() ==> distinct_texts(routes).contains(
                route_text(#[trigger] routes[j]),
            ),
        forall|k: int|
            0 <= k < distinct_texts(routes).len() ==> route_texts(routes).contains(
                #[trigger] distinct_texts(routes)[k],
            ),
    decreases routes.len(),
{
    if routes.len() > 0 {
        let rest = routes.drop_last();
        let before = distinct_texts(rest);
        let after = distinct_texts(routes);
        let text = route_text(routes.last());
        lemma_distinct_texts(rest);
        assert(forall|j: int| 0 <= j < rest.len() ==> #[trigger] rest[j] == routes[j]);
        assert(route_texts(routes)[routes.len() - 1] == text);
        assert forall|j: int| 0 <= j < routes.len() implies after.contains(
            route_text(#[trigger] routes[j]),
        ) by {
            if j < rest.len() {
                assert(before.contains(route_text(rest[j])));
                let k = choose|k: int| 0 <= k < before.len() && before[k] == route_text(rest[j]);
                assert(after[k] == before[k]);
            } else if !before.contains(text) {
                assert(after[before.len() as int] == text);
            }
        }
        assert forall|k: int| 0 <= k < after.len() implies route_texts(routes).contains(
            #[trigger] after[k],
        ) by {
            if k < before.len() {
                assert(route_texts(rest).contains(before[k]));
                let j = choose|j: int|
                    0 <= j < route_texts(rest).len() && route_texts(rest)[j] == before[k];
                assert(route_texts(routes)[j] == before[k]);
            }
        }
    }
}

/// Whether a route of a peer is shown: by its name, under its owner, as what became
/// of it.
pub open spec fn shows_route(
    shown: RouteSnapshotView,
    vpn: RuntimeView,
    peer: PeerView,
    route: Ipv4Cidr,
) -> bool {
    &&& shown.network == route_text(route)
    &&& shown.owner == hex_text(peer.hash@)
    &&& shown.last_seen_ts == peer.last_seen_ts
    &&& shown.status == "conflict"@ <==> vpn.conflicted_routes.contains(route_text(route))
    &&& shown.status == "active"@ <==> !vpn.conflicted_routes.contains(route_text(route))
    &&& shown.installed <==> vpn.installed_routes.contains(route_text(route))
        && !vpn.conflicted_routes.contains(route_text(route))
}

/// Every route that a peer has told of is shown, as what became of it.
pub proof fn routes_of_peers_are_shown(
    vpn: RuntimeView,
    peers: Seq<PeerView>,
    i: int,
    j: int,
)
    requires
        0 <= i < peers.len(),
        0 <= j < peers[i].routes.len(),
    ensures
        exists|k: int|
            0 <= k < routes_of_peers(vpn, peers).len() && shows_route(
                #[trigger] routes_of_peers(vpn, peers)[k],
                vpn,
                peers[i],
                peers[i].routes[j],
            ),
    decreases peers.len(),
{
    let rest = peers.drop_last();
    let before = routes_of_peers(vpn, rest);
    let own = routes_of_peer(vpn, peers.last());
    let all = routes_of_peers(vpn, peers);
    reveal_strlit("conflict");
    reveal_strlit("active");
    assert("conflict"@.len() != "active"@.len());
    if i < rest.len() {
        assert(rest[i] == peers[i]);
        routes_of_peers_are_shown(vpn, rest, i, j);
        let k = choose|k: int|
            0 <= k < before.len() && shows_route(
                #[trigger] before[k],
                vpn,
                rest[i],
                rest[i].routes[j],
            );
        assert(all[k] == before[k]);
    } else {
        let peer = peers.last();
        lemma_distinct_texts(peer.routes);
        let texts = distinct_texts(peer.routes);
        let text = route_text(peer.routes[j]);
        let k = choose|k: int| 0 <= k < texts.len() && texts[k] == text;
        assert(own[k] == route_snapshot(vpn, peer, text));
        assert(all[before.len() + k] == own[k]);
    }
}

/// Nothing else is shown among the routes of peers.
pub proof fn shown_routes_are_told_by_peers(vpn: RuntimeView, peers: Seq<PeerView>, k: int)
    requires
        0 <= k < routes_of_peers(vpn, peers).len(),
    ensures
        exists|i: int, j: int|
            0 <= i < peers.len() && 0 <= j < peers[i].routes.len() && shows_route(
                routes_of_peers(vpn, peers)[k],
                vpn,
                #[trigger] peers[i],
                #[trigger] peers[i].routes[j],
            ),
    decreases peers.len(),
{
    let rest = peers.drop_last();
    let before = routes_of_peers(vpn, rest);
    let own = routes_of_peer(vpn, peers.last());
    reveal_strlit("conflict");
    reveal_strlit("active");
    assert("conflict"@.len() != "active"@.len());
    if k < before.len() {
        shown_routes_are_told_by_peers(vpn, rest, k);
        let (i, j) = choose|i: int, j: int|
            0 <= i < rest.len() && 0 <= j < rest[i].routes.len() && shows_route(
                before[k],
                vpn,
                #[trigger] rest[i],
                #[trigger] rest[i].routes[j],
            );
        assert(peers[i] == rest[i]);
        assert(shows_route(before[k], vpn, peers[i], peers[i].routes[j]));
    } else {
        let i = peers.len() - 1;
        let peer = peers[i];
        lemma_distinct_texts(peer.routes);
        let at = k - before.len();
        let text = distinct_texts(peer.routes)[at];
        assert(own[at] == route_snapshot(vpn, peer, text));
        let texts = route_texts(peer.routes);
        let j = choose|j: int| 0 <= j < texts.len() && texts[j] == text;
        assert(shows_route(own[at], vpn, peers[i], peers[i].routes[j]));
    }
}

/// A peer shows the route of one name once.
pub proof fn routes_of_a_peer_are_shown_once(vpn: RuntimeView, peer: PeerView, a: int, b: int)
    requires
        0 <= a < b < routes_of_peer(vpn, peer).len(),
    ensures
        routes_of_peer(vpn, peer)[a].network != routes_of_peer(vpn, peer)[b].network,
{
    lemma_distinct_texts(peer.routes);
}

/// A peer is shown under its own address and with its own counts, and with its
/// routes as long as they have not ended.
pub proof fn peers_are_shown_as_they_are(peer: PeerView, now: u64)
    ensures
        ({
            let shown = peer_snapshot(peer, now);
            &&& shown.destination == hex_text(peer.hash@)
            &&& shown.tunnel_ip == Some(address_text(peer.tunnel_ip))
            &&& peer.route_expires_ts != 0 && peer.route_expires_ts <= now
                ==> shown.announced_routes.len() == 0
            &&& peer.route_expires_ts == 0 || now < peer.route_expires_ts
                ==> shown.announced_routes == route_texts(peer.routes)
            &&& (shown.last_seen_ts, shown.last_error) == (peer.last_seen_ts, peer.last_error)
            &&& (shown.tx_packets, shown.tx_bytes, shown.tx_bps, shown.last_tx_ts) == (
                peer.metrics.tx_packets,
                peer.metrics.tx_bytes,
                peer.metrics.tx_bps,
                peer.metrics.last_tx_ts,
            )
            &&& (shown.rx_packets, shown.rx_bytes, shown.rx_bps, shown.last_rx_ts) == (
                peer.metrics.rx_packets,
                peer.metrics.rx_bytes,
                peer.metrics.rx_bps,
                peer.metrics.last_rx_ts,
            )
        }),
{
    assert(peer.routes.len() == 0 ==> route_texts(peer.routes) =~= Seq::<Seq<char>>::empty());
}

/// A local route is shown with the one that stands for it, where that is another
/// one, and names both ends of the mapping.
pub proof fn mappings_name_both_ends(t: LocalRouteTranslation, tunnel_ip: u32)
    ensures
        t.exported == t.local ==> translation_text(t) == route_text(t.local),
        t.exported != t.local ==> translation_text(t) == route_text(t.exported) + " -> "@
            + route_text(t.local),
        mapping(t, tunnel_ip).subnet == route_text(t.local),
        mapping(t, tunnel_ip).mapped_subnet == route_text(t.exported),
        mapping(t, tunnel_ip).tunnel == address_text(tunnel_ip),
{
}

} // verus!
