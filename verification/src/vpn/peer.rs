//! Peers of the VPN and the state of the link to each.
use crate::text::opt_view;
use crate::vpn::network::Ipv4Cidr;
use crate::vpn::routes::AddressHash;
use vstd::prelude::*;

verus! {

/// Peer routes are dropped this long after the last announce, so that a single
/// missed announce does not flap a route.
pub const ROUTE_GRACE_SECS: u64 = 45;

/// How often peers are checked.
pub const WATCHDOG_SECS: u64 = 10;

/// How long a link may take for its handshake before it is torn down.
pub const LINK_PENDING_TIMEOUT_SECS: u64 = 10;

/// How long to wait after a link was closed before a fresh one is opened.
pub const LINK_RECONNECT_COOLDOWN_SECS: u64 = 3;

/// How long sending pauses while the link to a peer is not active.
pub const TUN_TX_BACKOFF_MILLIS: u64 = 100;

/// The state of a link, as the transport reports it.
#[derive(Clone, Copy, Debug, PartialEq, Eq, Structural)]
pub enum LinkStatus {
    Pending,
    Handshake,
    Active,
    Stale,
    Closed,
}

/// The state of the link to a peer, as the VPN tracks it.
#[derive(Clone, Copy, Debug, PartialEq, Eq, Structural)]
pub enum LinkState {
    Configured,
    Discovered,
    Pending,
    Active,
    Closed,
}

/// The name of a link state.
pub open spec fn state_name(state: LinkState) -> Seq<char> {
    match state {
        LinkState::Configured => "configured"@,
        LinkState::Discovered => "discovered"@,
        LinkState::Pending => "pending"@,
        LinkState::Active => "active"@,
        LinkState::Closed => "closed"@,
    }
}

impl LinkState {
    /// The name of the state.
    pub fn as_str(self) -> (out: &'static str)
        ensures
            out@ == state_name(self),
    {
        match self {
            LinkState::Configured => "configured",
            LinkState::Discovered => "discovered",
            LinkState::Pending => "pending",
            LinkState::Active => "active",
            LinkState::Closed => "closed",
        }
    }
}

/// Traffic counters, as they were read at one moment.
#[derive(Clone, Copy, Debug, Default, PartialEq, Eq, Structural)]
pub struct TrafficMetrics {
    pub tx_packets: u64,
    pub tx_bytes: u64,
    pub tx_bps: u64,
    pub rx_packets: u64,
    pub rx_bytes: u64,
    pub rx_bps: u64,
    pub drop_packets: u64,
    pub last_tx_ts: u64,
    pub last_rx_ts: u64,
}

/// A count as a counter of 64 bits shows it: past the largest number it starts
/// again at zero.
pub open spec fn wrapped(count: int) -> u64 {
    (count % 0x1_0000_0000_0000_0000) as u64
}

/// Counters before anything was counted.
pub open spec fn no_traffic() -> TrafficMetrics {
    TrafficMetrics {
        tx_packets: 0,
        tx_bytes: 0,
        tx_bps: 0,
        rx_packets: 0,
        rx_bytes: 0,
        rx_bps: 0,
        drop_packets: 0,
        last_tx_ts: 0,
        last_rx_ts: 0,
    }
}

/// Counters after a packet of `len` bytes came in at `now`.
pub open spec fn counted_rx(metrics: TrafficMetrics, len: usize, now: u64) -> TrafficMetrics {
    TrafficMetrics {
        rx_packets: wrapped(metrics.rx_packets + 1),
        rx_bytes: wrapped(metrics.rx_bytes + len),
        last_rx_ts: now,
        ..metrics
    }
}

/// Counters after a packet of `len` bytes went out at `now`.
pub open spec fn counted_tx(metrics: TrafficMetrics, len: usize, now: u64) -> TrafficMetrics {
    TrafficMetrics {
        tx_packets: wrapped(metrics.tx_packets + 1),
        tx_bytes: wrapped(metrics.tx_bytes + len),
        last_tx_ts: now,
        ..metrics
    }
}

/// Counters after a packet was dropped.
pub open spec fn counted_drop(metrics: TrafficMetrics) -> TrafficMetrics {
    TrafficMetrics { drop_packets: wrapped(metrics.drop_packets + 1), ..metrics }
}

impl TrafficMetrics {
    /// Counters before anything was counted.
    pub fn new() -> (out: TrafficMetrics)
        ensures
            out == no_traffic(),
    {
        TrafficMetrics {
            tx_packets: 0,
            tx_bytes: 0,
            tx_bps: 0,
            rx_packets: 0,
            rx_bytes: 0,
            rx_bps: 0,
            drop_packets: 0,
            last_tx_ts: 0,
            last_rx_ts: 0,
        }
    }

    /// Counts a packet of `len` bytes that came in at `now`.
    pub fn count_rx(&mut self, len: usize, now: u64)
        ensures
            *final(self) == counted_rx(*old(self), len, now),
    {
        self.rx_packets = self.rx_packets.wrapping_add(1);
        self.rx_bytes = self.rx_bytes.wrapping_add(len as u64);
        self.last_rx_ts = now;
    }

    /// Counts a packet of `len` bytes that went out at `now`.
    pub fn count_tx(&mut self, len: usize, now: u64)
        ensures
            *final(self) == counted_tx(*old(self), len, now),
    {
        self.tx_packets = self.tx_packets.wrapping_add(1);
        self.tx_bytes = self.tx_bytes.wrapping_add(len as u64);
        self.last_tx_ts = now;
    }

    /// Counts a packet that was dropped.
    pub fn count_drop(&mut self)
        ensures
            *final(self) == counted_drop(*old(self)),
    {
        self.drop_packets = self.drop_packets.wrapping_add(1);
    }
}

/// A peer: its address, its link and the routes that it announced.
#[derive(Debug)]
pub struct Peer {
    pub hash: AddressHash,
    pub tunnel_ip: u32,
    pub state: LinkState,
    pub routes: Vec<Ipv4Cidr>,
    pub route_expires_ts: u64,
    pub last_seen_ts: u64,
    pub last_error: Option<String>,
    pub link_attempt_ts: Option<u64>,
    pub link_requested: bool,
    pub reconnect_cooldown_until: u64,
    pub reconnect_attempts: u32,
    pub metrics: TrafficMetrics,
}

/// What a peer holds.
pub struct PeerView {
    pub hash: AddressHash,
    pub tunnel_ip: u32,
    pub state: LinkState,
    pub routes: Seq<Ipv4Cidr>,
    pub route_expires_ts: u64,
    pub last_seen_ts: u64,
    pub last_error: Option<Seq<char>>,
    pub link_attempt_ts: Option<u64>,
    pub link_requested: bool,
    pub reconnect_cooldown_until: u64,
    pub reconnect_attempts: u32,
    pub metrics: TrafficMetrics,
}

impl View for Peer {
    type V = PeerView;

    open spec fn view(&self) -> PeerView {
        PeerView {
            hash: self.hash,
            tunnel_ip: self.tunnel_ip,
            state: self.state,
            routes: self.routes@,
            route_expires_ts: self.route_expires_ts,
            last_seen_ts: self.last_seen_ts,
            last_error: opt_view(self.last_error),
            link_attempt_ts: self.link_attempt_ts,
            link_requested: self.link_requested,
            reconnect_cooldown_until: self.reconnect_cooldown_until,
            reconnect_attempts: self.reconnect_attempts,
            metrics: self.metrics,
        }
    }
}

/// A peer of which only the address is known.
pub open spec fn fresh_peer(hash: AddressHash, tunnel_ip: u32, state: LinkState) -> PeerView {
    PeerView {
        hash,
        tunnel_ip,
        state,
        routes: Seq::empty(),
        route_expires_ts: 0,
        last_seen_ts: 0,
        last_error: None,
        link_attempt_ts: None,
        link_requested: false,
        reconnect_cooldown_until: 0,
        reconnect_attempts: 0,
        metrics: no_traffic(),
    }
}

impl Peer {
    /// A peer of which only the address is known.
    pub fn new(hash: AddressHash, tunnel_ip: u32, state: LinkState) -> (out: Peer)
        ensures
            out@ == fresh_peer(hash, tunnel_ip, state),
    {
        Peer {
            hash,
            tunnel_ip,
            state,
            routes: Vec::new(),
            route_expires_ts: 0,
            last_seen_ts: 0,
            last_error: None,
            link_attempt_ts: None,
            link_requested: false,
            reconnect_cooldown_until: 0,
            reconnect_attempts: 0,
            metrics: TrafficMetrics::new(),
        }
    }

    /// Starts a link request, unless one is in flight already.
    pub fn try_begin_link_request(&mut self) -> (out: bool)
        ensures
            (out, final(self)@) == begin_request(old(self)@),
    {
        if self.link_requested {
            false
        } else {
            self.link_requested = true;
            true
        }
    }

    /// Whether a link request is in flight.
    pub fn link_request_in_flight(&self) -> (out: bool)
        ensures
            out == self@.link_requested,
    {
        self.link_requested
    }

    /// Ends the link request in flight, if there is one.
    pub fn finish_link_request(&mut self)
        ensures
            final(self)@ == finish_request(old(self)@),
    {
        self.link_requested = false;
    }

    /// Forbids fresh links for `secs` seconds from `now`.
    pub fn set_reconnect_cooldown(&mut self, now: u64, secs: u64)
        requires
            now + secs <= u64::MAX,
        ensures
            final(self)@ == cooled_down(old(self)@, now, secs),
    {
        self.reconnect_cooldown_until = now + secs;
    }

    /// The moment from which fresh links are allowed.
    pub fn reconnect_cooldown_until(&self) -> (out: u64)
        ensures
            out == self@.reconnect_cooldown_until,
    {
        self.reconnect_cooldown_until
    }
}

/// Starting a link request: whether it starts, and the peer afterwards.
pub open spec fn begin_request(peer: PeerView) -> (bool, PeerView) {
    (!peer.link_requested, PeerView { link_requested: true, ..peer })
}

/// Ending the link request in flight.
pub open spec fn finish_request(peer: PeerView) -> PeerView {
    PeerView { link_requested: false, ..peer }
}

/// Two link requests are never in flight at once: behind one that was started a
/// second one is refused, until the first has ended.
pub proof fn one_link_request_at_a_time(peer: PeerView)
    ensures
        !begin_request(begin_request(peer).1).0,
        begin_request(finish_request(begin_request(peer).1)).0,
        begin_request(finish_request(peer)).0,
{
}

// ── Decisions about links ────────────────────────────────────────────────────

/// Whether an existing outbound link is kept rather than replaced.
pub open spec fn reusable(status: Option<LinkStatus>) -> bool {
    status is Some && status->0 != LinkStatus::Closed
}

/// Whether an existing outbound link is kept rather than replaced.
pub fn should_reuse_existing_out_link(existing_status: Option<LinkStatus>) -> (out: bool)
    ensures
        out == reusable(existing_status),
{
    match existing_status {
        Some(LinkStatus::Pending) => true,
        Some(LinkStatus::Handshake) => true,
        Some(LinkStatus::Active) => true,
        Some(LinkStatus::Stale) => true,
        Some(LinkStatus::Closed) => false,
        None => false,
    }
}

/// Whether a link is stuck: still unfinished when its time is up.
pub open spec fn stuck(status: LinkStatus, link_age_secs: u64) -> bool {
    (status == LinkStatus::Pending || status == LinkStatus::Handshake) && link_age_secs
        >= LINK_PENDING_TIMEOUT_SECS
}

/// Whether a link is stuck and has to be closed.
pub fn out_link_needs_reset(status: LinkStatus, link_age_secs: u64) -> (out: bool)
    ensures
        out == stuck(status, link_age_secs),
{
    match status {
        LinkStatus::Pending | LinkStatus::Handshake => link_age_secs >= LINK_PENDING_TIMEOUT_SECS,
        LinkStatus::Stale | LinkStatus::Closed | LinkStatus::Active => false,
    }
}

/// A link that has to be reset is one that would be reused until then, and once
/// it is closed it is neither.
pub proof fn reset_links_were_reusable(status: LinkStatus, link_age_secs: u64)
    ensures
        stuck(status, link_age_secs) ==> reusable(Some(status)),
        !reusable(Some(LinkStatus::Closed)),
        !stuck(LinkStatus::Closed, link_age_secs),
{
}

/// A peer to which fresh links are forbidden for `secs` seconds from `now`.
pub open spec fn cooled_down(peer: PeerView, now: u64, secs: u64) -> PeerView {
    PeerView { reconnect_cooldown_until: (now + secs) as u64, ..peer }
}

/// Whether a fresh link to the peer is forbidden at `now`.
pub open spec fn on_cooldown(peer: PeerView, now: u64) -> bool {
    peer.reconnect_cooldown_until > now
}

/// A cooldown forbids fresh links until it expires, and no longer.
pub proof fn cooldown_blocks_until_expiry(peer: PeerView, now: u64, secs: u64, t: u64)
    requires
        now + secs <= u64::MAX,
    ensures
        on_cooldown(cooled_down(peer, now, secs), t) <==> t < now + secs,
{
}

/// Whether a fresh link to the peer is forbidden at `now`.
pub fn link_request_on_cooldown(peer: &Peer, now: u64) -> (out: bool)
    ensures
        out == on_cooldown(peer@, now),
{
    peer.reconnect_cooldown_until() > now
}

/// Whether sending has to pause: only an active link carries packets.
pub fn tun_tx_requires_backoff(state: LinkState) -> (out: bool)
    ensures
        out == (state != LinkState::Active),
{
    match state {
        LinkState::Active => false,
        _ => true,
    }
}

/// A peer after its link was seen in `status`.
pub open spec fn synced_peer(peer: PeerView, status: LinkStatus) -> PeerView {
    match status {
        LinkStatus::Active => activated_peer(peer),
        LinkStatus::Pending | LinkStatus::Handshake | LinkStatus::Stale => PeerView {
            state: LinkState::Pending,
            ..peer
        },
        LinkStatus::Closed => PeerView {
            state: LinkState::Closed,
            link_requested: false,
            ..peer
        },
    }
}

/// A peer after its link became active.
pub open spec fn activated_peer(peer: PeerView) -> PeerView {
    PeerView {
        state: LinkState::Active,
        link_attempt_ts: None,
        link_requested: false,
        reconnect_cooldown_until: 0,
        reconnect_attempts: 0,
        ..peer
    }
}

/// A peer after its link was closed at `now`.
pub open spec fn closed_peer(peer: PeerView, now: u64) -> PeerView {
    PeerView {
        state: LinkState::Closed,
        link_attempt_ts: None,
        link_requested: false,
        reconnect_cooldown_until: (now + LINK_RECONNECT_COOLDOWN_SECS) as u64,
        ..peer
    }
}

/// Records that the link to the peer became active.
pub fn mark_link_active(peer: &mut Peer)
    ensures
        final(peer)@ == activated_peer(old(peer)@),
{
    peer.state = LinkState::Active;
    peer.link_attempt_ts = None;
    peer.link_requested = false;
    peer.reconnect_cooldown_until = 0;
    peer.reconnect_attempts = 0;
}

/// Records that the link to the peer was closed at `now`.
pub fn mark_link_closed(peer: &mut Peer, now: u64)
    requires
        now + LINK_RECONNECT_COOLDOWN_SECS <= u64::MAX,
    ensures
        final(peer)@ == closed_peer(old(peer)@, now),
{
    peer.state = LinkState::Closed;
    peer.link_attempt_ts = None;
    peer.link_requested = false;
    peer.reconnect_cooldown_until = now + LINK_RECONNECT_COOLDOWN_SECS;
}

/// Brings a peer in line with the state of its link.
pub fn sync_peer_link_state(peer: &mut Peer, status: LinkStatus)
    ensures
        final(peer)@ == synced_peer(old(peer)@, status),
{
    match status {
        LinkStatus::Active => {
            mark_link_active(peer);
        },
        LinkStatus::Pending | LinkStatus::Handshake | LinkStatus::Stale => {
            peer.state = LinkState::Pending;
        },
        LinkStatus::Closed => {
            peer.state = LinkState::Closed;
            peer.link_requested = false;
        },
    }
}

/// Whether the routes of a peer count at `now`: there are some, and they have
/// no end or have not reached it.
pub open spec fn live(peer: PeerView, now: u64) -> bool {
    peer.routes.len() > 0 && (peer.route_expires_ts == 0 || peer.route_expires_ts > now)
}

/// Whether the routes of a peer count at `now`.
pub fn routes_live(peer: &Peer, now: u64) -> (out: bool)
    ensures
        out == live(peer@, now),
{
    let expires = peer.route_expires_ts;
    peer.routes.len() > 0 && (expires == 0 || expires > now)
}

// ── Laws ─────────────────────────────────────────────────────────────────────

/// The state of a peer follows its link: it is active if and only if the link is,
/// closed if and only if the link is, and pending for every other link. Nothing
/// but the link of the peer is touched.
pub proof fn peers_follow_their_links(peer: PeerView, status: LinkStatus)
    ensures
        ({
            let after = synced_peer(peer, status);
            &&& after.state == LinkState::Active <==> status == LinkStatus::Active
            &&& after.state == LinkState::Closed <==> status == LinkStatus::Closed
            &&& after.state == LinkState::Pending <==> status == LinkStatus::Pending || status
                == LinkStatus::Handshake || status == LinkStatus::Stale
            &&& after.link_requested <==> peer.link_requested && status != LinkStatus::Active
                && status != LinkStatus::Closed
            &&& status == LinkStatus::Active ==> after.reconnect_cooldown_until == 0
                && after.reconnect_attempts == 0 && after.link_attempt_ts is None
            &&& status != LinkStatus::Active ==> after.reconnect_cooldown_until
                == peer.reconnect_cooldown_until && after.reconnect_attempts
                == peer.reconnect_attempts && after.link_attempt_ts == peer.link_attempt_ts
            &&& same_apart_from_link(peer, after)
        }),
{
}

/// Whether two states of a peer differ at most in its link.
pub open spec fn same_apart_from_link(a: PeerView, b: PeerView) -> bool {
    &&& a.hash == b.hash && a.tunnel_ip == b.tunnel_ip
    &&& a.routes == b.routes && a.route_expires_ts == b.route_expires_ts
    &&& a.last_seen_ts == b.last_seen_ts && a.last_error == b.last_error
    &&& a.metrics == b.metrics
}

/// Once its link is active, a peer carries packets, and fresh links to it are
/// allowed at any time; its failed attempts are forgotten.
pub proof fn active_links_are_unhindered(peer: PeerView, t: u64)
    ensures
        ({
            let after = activated_peer(peer);
            &&& after.state == LinkState::Active
            &&& !on_cooldown(after, t)
            &&& !after.link_requested
            &&& after.reconnect_attempts == 0
            &&& after.link_attempt_ts is None
            &&& same_apart_from_link(peer, after)
        }),
{
}

/// Once its link is closed, a peer carries no packets, no request to it is in
/// flight, and fresh links to it are forbidden for three seconds, and no longer.
pub proof fn closed_links_rest_three_seconds(peer: PeerView, now: u64, t: u64)
    requires
        now + 3 <= u64::MAX,
    ensures
        ({
            let after = closed_peer(peer, now);
            &&& after.state == LinkState::Closed
            &&& on_cooldown(after, t) <==> t < now + 3
            &&& !after.link_requested
            &&& after.reconnect_attempts == peer.reconnect_attempts
            &&& after.link_attempt_ts is None
            &&& same_apart_from_link(peer, after)
        }),
{
}

/// A peer of which only the address is known has no routes at any time, may be
/// linked at once, and was never heard.
pub proof fn fresh_peers_know_nothing(hash: AddressHash, ip: u32, state: LinkState, t: u64)
    ensures
        ({
            let peer = fresh_peer(hash, ip, state);
            &&& peer.hash == hash && peer.tunnel_ip == ip && peer.state == state
            &&& !live(peer, t) && peer.routes.len() == 0 && peer.route_expires_ts == 0
            &&& !on_cooldown(peer, t) && !peer.link_requested
            &&& peer.link_attempt_ts is None && peer.reconnect_attempts == 0
            &&& peer.last_seen_ts == 0 && peer.last_error is None
            &&& peer.metrics.rx_packets == 0 && peer.metrics.tx_packets == 0
            &&& peer.metrics.rx_bytes == 0 && peer.metrics.tx_bytes == 0
            &&& peer.metrics.rx_bps == 0 && peer.metrics.tx_bps == 0
            &&& peer.metrics.last_rx_ts == 0 && peer.metrics.last_tx_ts == 0
            &&& peer.metrics.drop_packets == 0
        }),
{
}

/// The routes of a peer count from the first one on, until they end; without an end
/// they count for good.
pub proof fn routes_count_until_they_end(peer: PeerView, now: u64)
    ensures
        peer.routes.len() == 0 ==> !live(peer, now),
        peer.routes.len() >= 1 && peer.route_expires_ts == 0 ==> live(peer, now),
        peer.routes.len() >= 1 && now < peer.route_expires_ts ==> live(peer, now),
        0 < peer.route_expires_ts <= now ==> !live(peer, now),
{
}

/// A link that is there is kept unless it is closed, and closed for being stuck
/// exactly where it is unfinished after ten seconds.
pub proof fn links_are_kept_until_stuck(status: LinkStatus, age: u64)
    ensures
        reusable(Some(status)) <==> status != LinkStatus::Closed,
        !reusable(None),
        stuck(status, age) <==> (status == LinkStatus::Pending || status == LinkStatus::Handshake)
            && age >= 10,
{
}

/// A counter that is not at its end grows by what is counted, and by nothing
/// else.
pub proof fn counters_grow(metrics: TrafficMetrics, len: usize, now: u64)
    requires
        metrics.rx_packets < u64::MAX,
        metrics.tx_packets < u64::MAX,
        metrics.drop_packets < u64::MAX,
        metrics.rx_bytes + len <= u64::MAX,
        metrics.tx_bytes + len <= u64::MAX,
    ensures
        ({
            let rx = counted_rx(metrics, len, now);
            let tx = counted_tx(metrics, len, now);
            let dropped = counted_drop(metrics);
            &&& rx.rx_packets == metrics.rx_packets + 1 && rx.rx_bytes == metrics.rx_bytes + len
            &&& rx.last_rx_ts == now && rx.last_tx_ts == metrics.last_tx_ts
            &&& rx.tx_packets == metrics.tx_packets && rx.tx_bytes == metrics.tx_bytes
            &&& rx.drop_packets == metrics.drop_packets
            &&& tx.tx_packets == metrics.tx_packets + 1 && tx.tx_bytes == metrics.tx_bytes + len
            &&& tx.last_tx_ts == now && tx.last_rx_ts == metrics.last_rx_ts
            &&& tx.rx_packets == metrics.rx_packets && tx.rx_bytes == metrics.rx_bytes
            &&& tx.drop_packets == metrics.drop_packets
            &&& dropped.drop_packets == metrics.drop_packets + 1
            &&& dropped.rx_packets == metrics.rx_packets && dropped.rx_bytes == metrics.rx_bytes
            &&& dropped.tx_packets == metrics.tx_packets && dropped.tx_bytes == metrics.tx_bytes
            &&& dropped.last_rx_ts == metrics.last_rx_ts && dropped.last_tx_ts
                == metrics.last_tx_ts
        }),
{
}

/// The names of the states of a link differ.
pub proof fn link_states_have_names_of_their_own(a: LinkState, b: LinkState)
    ensures
        state_name(a) == state_name(b) ==> a == b,
        state_name(LinkState::Active) == "active"@,
        state_name(LinkState::Closed) == "closed"@,
        state_name(LinkState::Pending) == "pending"@,
{
    reveal_strlit("configured");
    reveal_strlit("discovered");
    reveal_strlit("pending");
    reveal_strlit("active");
    reveal_strlit("closed");
    assert("configured"@[0] == 'c' && "discovered"@[0] == 'd');
    assert("configured"@.len() == 10 && "discovered"@.len() == 10);
    assert("pending"@.len() == 7 && "active"@.len() == 6 && "closed"@.len() == 6);
    assert("active"@[0] == 'a' && "closed"@[0] == 'c');
}

} // verus!
