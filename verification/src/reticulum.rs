//! What happened on the Reticulum transport: errors, links and events.
use crate::dto::{
    EventView, LinkView, ReticulumEventDto, ReticulumInterfaceStatsDto, ReticulumLinkDto,
    ReticulumSnapshotDto, WsReticulumSnapshotDto,
};
use crate::order::{in_order, sorted, viewed, Ranked};
use crate::text::{
    cat2, cat4, decimal, decimal_text, lemma_text_lt_between, lemma_text_lt_irreflexive,
    lemma_text_lt_transitive, less, same, text_lt,
};
use crate::vpn::peer::LinkStatus;
use vstd::prelude::*;

verus! {

// ── Errors of the radio interface ────────────────────────────────────────────

/// What went wrong with a frame.
#[derive(Debug, Clone, Copy, PartialEq, Eq, Structural)]
pub enum InterfaceErrorKind {
    RxLdpcDecode,
    RxReassembly,
    RxDeserialize,
    TxLdpcEncode,
    TxTransmit,
    TxSerialize,
}

/// What an error is called.
pub open spec fn error_label(kind: InterfaceErrorKind) -> Seq<char> {
    match kind {
        InterfaceErrorKind::RxLdpcDecode => "rx ldpc decode"@,
        InterfaceErrorKind::RxReassembly => "rx reassembly"@,
        InterfaceErrorKind::RxDeserialize => "rx deserialize"@,
        InterfaceErrorKind::TxLdpcEncode => "tx ldpc encode"@,
        InterfaceErrorKind::TxTransmit => "tx transmit"@,
        InterfaceErrorKind::TxSerialize => "tx serialize"@,
    }
}

/// What an error is called.
pub fn interface_error_label(kind: InterfaceErrorKind) -> (out: &'static str)
    ensures
        out@ == error_label(kind),
{
    match kind {
        InterfaceErrorKind::RxLdpcDecode => "rx ldpc decode",
        InterfaceErrorKind::RxReassembly => "rx reassembly",
        InterfaceErrorKind::RxDeserialize => "rx deserialize",
        InterfaceErrorKind::TxLdpcEncode => "tx ldpc encode",
        InterfaceErrorKind::TxTransmit => "tx transmit",
        InterfaceErrorKind::TxSerialize => "tx serialize",
    }
}

/// A count with `n` more, which stops at the largest count.
pub open spec fn counted(count: u64, n: u64) -> u64 {
    if count + n <= u64::MAX {
        (count + n) as u64
    } else {
        u64::MAX
    }
}

/// The counts after one more error: the one of its kind and the one of its
/// direction go up by one.
pub open spec fn stats_after(
    s: ReticulumInterfaceStatsDto,
    kind: InterfaceErrorKind,
) -> ReticulumInterfaceStatsDto {
    match kind {
        InterfaceErrorKind::RxLdpcDecode => ReticulumInterfaceStatsDto {
            rx_errors: counted(s.rx_errors, 1),
            rx_ldpc_errors: counted(s.rx_ldpc_errors, 1),
            ..s
        },
        InterfaceErrorKind::RxReassembly => ReticulumInterfaceStatsDto {
            rx_errors: counted(s.rx_errors, 1),
            rx_reassembly_errors: counted(s.rx_reassembly_errors, 1),
            ..s
        },
        InterfaceErrorKind::RxDeserialize => ReticulumInterfaceStatsDto {
            rx_errors: counted(s.rx_errors, 1),
            rx_deserialize_errors: counted(s.rx_deserialize_errors, 1),
            ..s
        },
        InterfaceErrorKind::TxLdpcEncode => ReticulumInterfaceStatsDto {
            tx_errors: counted(s.tx_errors, 1),
            tx_ldpc_errors: counted(s.tx_ldpc_errors, 1),
            ..s
        },
        InterfaceErrorKind::TxTransmit => ReticulumInterfaceStatsDto {
            tx_errors: counted(s.tx_errors, 1),
            tx_transmit_errors: counted(s.tx_transmit_errors, 1),
            ..s
        },
        InterfaceErrorKind::TxSerialize => ReticulumInterfaceStatsDto {
            tx_errors: counted(s.tx_errors, 1),
            tx_serialize_errors: counted(s.tx_serialize_errors, 1),
            ..s
        },
    }
}

/// Whether the counts add up: each direction has as many errors as its kinds
/// together.
pub open spec fn stats_add_up(s: ReticulumInterfaceStatsDto) -> bool {
    &&& s.rx_errors == s.rx_ldpc_errors + s.rx_reassembly_errors + s.rx_deserialize_errors
    &&& s.tx_errors == s.tx_ldpc_errors + s.tx_transmit_errors + s.tx_serialize_errors
}

/// Whether each direction has as many errors as its kinds together, unless it is
/// at the largest count.
pub open spec fn totals_hold(s: ReticulumInterfaceStatsDto) -> bool {
    &&& s.rx_errors == u64::MAX || s.rx_errors == s.rx_ldpc_errors + s.rx_reassembly_errors
        + s.rx_deserialize_errors
    &&& s.tx_errors == u64::MAX || s.tx_errors == s.tx_ldpc_errors + s.tx_transmit_errors
        + s.tx_serialize_errors
}

/// Whether an error is one of receiving.
pub open spec fn is_rx_error(kind: InterfaceErrorKind) -> bool {
    match kind {
        InterfaceErrorKind::RxLdpcDecode | InterfaceErrorKind::RxReassembly
        | InterfaceErrorKind::RxDeserialize => true,
        InterfaceErrorKind::TxLdpcEncode | InterfaceErrorKind::TxTransmit
        | InterfaceErrorKind::TxSerialize => false,
    }
}

// ── Events of links ──────────────────────────────────────────────────────────

/// Something that happened on a link.
#[derive(Debug)]
pub enum LinkEvent {
    Activated,
    /// Data of so many bytes came in.
    Data(usize),
    /// A packet was proven; its hash.
    Proof(String),
    Closed,
    /// The other side identified itself; the hash of its identity.
    RemoteIdentified(String),
}

/// Something that happened on a link.
pub enum LinkEventView {
    Activated,
    Data(usize),
    Proof(Seq<char>),
    Closed,
    RemoteIdentified(Seq<char>),
}

impl View for LinkEvent {
    type V = LinkEventView;

    open spec fn view(&self) -> LinkEventView {
        match *self {
            LinkEvent::Activated => LinkEventView::Activated,
            LinkEvent::Data(len) => LinkEventView::Data(len),
            LinkEvent::Proof(hash) => LinkEventView::Proof(hash@),
            LinkEvent::Closed => LinkEventView::Closed,
            LinkEvent::RemoteIdentified(hash) => LinkEventView::RemoteIdentified(hash@),
        }
    }
}

/// What an event is called.
pub open spec fn event_kind(event: LinkEventView) -> Seq<char> {
    match event {
        LinkEventView::Activated => "activated"@,
        LinkEventView::Data(_) => "data"@,
        LinkEventView::Proof(_) => "proof"@,
        LinkEventView::Closed => "closed"@,
        LinkEventView::RemoteIdentified(_) => "identified"@,
    }
}

/// What is said of an event.
pub open spec fn event_details(event: LinkEventView) -> Seq<char> {
    match event {
        LinkEventView::Activated => "Link activated"@,
        LinkEventView::Data(len) => decimal(len as nat) + " B"@,
        LinkEventView::Proof(hash) => hash,
        LinkEventView::Closed => "Link closed"@,
        LinkEventView::RemoteIdentified(hash) => "Remote identity "@ + hash,
    }
}

/// The state of a link after an event.
pub open spec fn event_status(event: LinkEventView) -> Seq<char> {
    match event {
        LinkEventView::Closed => "closed"@,
        _ => "active"@,
    }
}

/// The bytes that an event brought in.
pub open spec fn event_packet_len(event: LinkEventView) -> Option<usize> {
    match event {
        LinkEventView::Data(len) => Some(len),
        _ => None,
    }
}

/// What an event is called.
pub fn link_event_kind(event: &LinkEvent) -> (out: &'static str)
    ensures
        out@ == event_kind(event@),
{
    match event {
        LinkEvent::Activated => "activated",
        LinkEvent::Data(_) => "data",
        LinkEvent::Proof(_) => "proof",
        LinkEvent::Closed => "closed",
        LinkEvent::RemoteIdentified(_) => "identified",
    }
}

/// What is said of an event.
pub fn link_event_details(event: &LinkEvent) -> (out: String)
    ensures
        out@ == event_details(event@),
{
    match event {
        LinkEvent::Activated => "Link activated".to_owned(),
        LinkEvent::Data(len) => {
            let count = decimal_text(*len as u64);
            cat2(count.as_str(), " B")
        },
        LinkEvent::Proof(hash) => hash.clone(),
        LinkEvent::Closed => "Link closed".to_owned(),
        LinkEvent::RemoteIdentified(hash) => cat2("Remote identity ", hash.as_str()),
    }
}

/// The bytes that an event brought in.
pub fn link_event_packet_len(event: &LinkEvent) -> (out: Option<usize>)
    ensures
        out == event_packet_len(event@),
{
    match event {
        LinkEvent::Data(len) => Some(*len),
        _ => None,
    }
}

/// The state of a link after an event.
pub fn link_event_status(event: &LinkEvent) -> (out: &'static str)
    ensures
        out@ == event_status(event@),
{
    match event {
        LinkEvent::Closed => "closed",
        _ => "active",
    }
}

/// What the state of a link is called.
pub open spec fn status_label(status: LinkStatus) -> Seq<char> {
    match status {
        LinkStatus::Pending => "pending"@,
        LinkStatus::Handshake => "handshake"@,
        LinkStatus::Active => "active"@,
        LinkStatus::Stale => "stale"@,
        LinkStatus::Closed => "closed"@,
    }
}

/// What the state of a link is called.
pub fn link_status_label(status: LinkStatus) -> (out: &'static str)
    ensures
        out@ == status_label(status),
{
    match status {
        LinkStatus::Pending => "pending",
        LinkStatus::Handshake => "handshake",
        LinkStatus::Active => "active",
        LinkStatus::Stale => "stale",
        LinkStatus::Closed => "closed",
    }
}

/// A link, as the transport knows it.
#[derive(Debug)]
pub struct LinkInfo {
    pub id: String,
    pub destination: String,
    pub status: LinkStatus,
    pub rtt_ms: u64,
}

/// The record of a link at the time `ts`.
pub open spec fn snapshot_of(link: LinkInfo, last_event: Seq<char>, ts: u64) -> LinkView {
    LinkView {
        id: link.id@,
        destination: link.destination@,
        status: status_label(link.status),
        last_event,
        packets: 0,
        bytes: 0,
        rtt_ms: Some(link.rtt_ms),
        last_seen_ts: ts,
    }
}

/// The record of a link at the time `ts`.
pub fn link_snapshot(link: &LinkInfo, last_event: &str, ts: u64) -> (out: ReticulumLinkDto)
    ensures
        out@ == snapshot_of(*link, last_event@, ts),
{
    ReticulumLinkDto {
        id: link.id.clone(),
        destination: link.destination.clone(),
        status: link_status_label(link.status).to_owned(),
        last_event: last_event.to_owned(),
        packets: 0,
        bytes: 0,
        rtt_ms: Some(link.rtt_ms),
        last_seen_ts: ts,
    }
}

/// An event on a link, and which one.
#[derive(Debug)]
pub struct LinkEventData {
    pub id: String,
    pub destination: String,
    pub event: LinkEvent,
}

/// The record of the link of an event: as the transport knows it, or else as
/// the event tells.
pub open spec fn resolved(data: LinkEventData, link: Option<LinkInfo>, ts: u64) -> LinkView {
    let kind = event_kind(data.event@);
    match link {
        Some(link) => snapshot_of(link, kind, ts),
        None => LinkView {
            id: data.id@,
            destination: data.destination@,
            status: event_status(data.event@),
            last_event: kind,
            packets: 0,
            bytes: 0,
            rtt_ms: None,
            last_seen_ts: ts,
        },
    }
}

/// The record of the link of an event.
pub fn resolve_link_snapshot(data: &LinkEventData, link: &Option<LinkInfo>, ts: u64) -> (out:
    ReticulumLinkDto)
    ensures
        out@ == resolved(*data, *link, ts),
{
    let kind = link_event_kind(&data.event);
    match link {
        Some(link) => link_snapshot(link, kind, ts),
        None => ReticulumLinkDto {
            id: data.id.clone(),
            destination: data.destination.clone(),
            status: link_event_status(&data.event).to_owned(),
            last_event: kind.to_owned(),
            packets: 0,
            bytes: 0,
            rtt_ms: None,
            last_seen_ts: ts,
        },
    }
}

// ── Links ────────────────────────────────────────────────────────────────────

/// The index of the link with an id, or the number of links.
pub open spec fn link_index(links: Seq<LinkView>, id: Seq<char>) -> int
    decreases links.len(),
{
    if links.len() == 0 || links[0].id == id {
        0
    } else {
        1 + link_index(links.skip(1), id)
    }
}

/// A link after one more packet of `len` bytes, if one came.
pub open spec fn with_packet(link: LinkView, len: Option<usize>) -> LinkView {
    match len {
        Some(len) => LinkView {
            packets: counted(link.packets, 1),
            bytes: counted(link.bytes, len as u64),
            ..link
        },
        None => link,
    }
}

/// The links after an event on the link of `fresh`: it is noted as it is now,
/// and keeps its counts.
pub open spec fn links_after(
    links: Seq<LinkView>,
    fresh: LinkView,
    len: Option<usize>,
) -> Seq<LinkView> {
    let at = link_index(links, fresh.id);
    if at < links.len() {
        links.update(
            at,
            with_packet(
                LinkView { packets: links[at].packets, bytes: links[at].bytes, ..fresh },
                len,
            ),
        )
    } else {
        links.push(with_packet(fresh, len))
    }
}

/// No two links have the same id.
pub open spec fn ids_differ(links: Seq<LinkView>) -> bool {
    forall|i: int, j: int|
        0 <= i < j < links.len() ==> (#[trigger] links[i]).id != (#[trigger] links[j]).id
}

proof fn lemma_link_index(links: Seq<LinkView>, id: Seq<char>)
    ensures
        0 <= link_index(links, id) <= links.len(),
        link_index(links, id) < links.len() ==> links[link_index(links, id)].id == id,
        forall|k: int| 0 <= k < link_index(links, id) ==> (#[trigger] links[k]).id != id,
    decreases links.len(),
{
    if links.len() > 0 && links[0].id != id {
        let rest = links.skip(1);
        lemma_link_index(rest, id);
        assert forall|k: int| 0 <= k < link_index(links, id) implies (#[trigger] links[k]).id
            != id by {
            if k > 0 {
                assert(rest[k - 1] == links[k]);
            }
        }
    }
}

/// Notes a link after an event.
fn note_link(links: &mut Vec<ReticulumLinkDto>, fresh: ReticulumLinkDto, len: Option<usize>)
    requires
        ids_differ(viewed(old(links)@)),
    ensures
        viewed(final(links)@) == links_after(viewed(old(links)@), fresh@, len),
        ids_differ(viewed(final(links)@)),
{
    let ghost before = viewed(links@);
    let mut at: usize = 0;
    assert(before.skip(0) =~= before);
    while at < links.len() && !same(links[at].id.as_str(), fresh.id.as_str())
        invariant
            at <= links@.len(),
            before == viewed(links@),
            link_index(before, fresh@.id) == at + link_index(before.skip(at as int), fresh@.id),
        decreases links@.len() - at,
    {
        proof {
            assert(before.skip(at as int)[0] == links@[at as int]@);
            assert(before.skip(at as int).skip(1) =~= before.skip(at + 1));
        }
        at += 1;
    }
    proof {
        lemma_link_index(before, fresh@.id);
        if at < links@.len() {
            assert(before.skip(at as int)[0] == links@[at as int]@);
        } else {
            assert(before.skip(at as int) =~= Seq::<LinkView>::empty());
        }
        assert(link_index(before, fresh@.id) == at);
    }
    let mut entry = fresh;
    if at < links.len() {
        assert(before[at as int] == links@[at as int]@);
        entry.packets = links[at].packets;
        entry.bytes = links[at].bytes;
    }
    match len {
        Some(len) => {
            entry.packets = entry.packets.saturating_add(1);
            entry.bytes = entry.bytes.saturating_add(len as u64);
        },
        None => {},
    }
    if at < links.len() {
        links[at] = entry;
        assert(viewed(links@) =~= before.update(at as int, entry@));
    } else {
        links.push(entry);
        assert(viewed(links@) =~= before.push(entry@));
    }
}

impl Ranked for ReticulumLinkDto {
    open spec fn ranks_before(a: LinkView, b: LinkView) -> bool {
        a.last_seen_ts > b.last_seen_ts || (a.last_seen_ts == b.last_seen_ts && text_lt(
            a.id,
            b.id,
        ))
    }

    proof fn ranks_irreflexive(a: LinkView) {
        lemma_text_lt_irreflexive(a.id);
    }

    proof fn ranks_transitive(a: LinkView, b: LinkView, c: LinkView) {
        if text_lt(a.id, b.id) && text_lt(b.id, c.id) {
            lemma_text_lt_transitive(a.id, b.id, c.id);
        }
    }

    proof fn ranks_between(a: LinkView, b: LinkView, c: LinkView) {
        if a.last_seen_ts == c.last_seen_ts {
            lemma_text_lt_between(a.id, b.id, c.id);
        }
    }

    fn is_before(&self, other: &ReticulumLinkDto) -> (out: bool) {
        self.last_seen_ts > other.last_seen_ts || (self.last_seen_ts == other.last_seen_ts && less(
            self.id.as_str(),
            other.id.as_str(),
        ))
    }
}

/// A copy of a list of links.
fn copy_links(links: &Vec<ReticulumLinkDto>) -> (out: Vec<ReticulumLinkDto>)
    ensures
        viewed(out@) == viewed(links@),
{
    let mut out: Vec<ReticulumLinkDto> = Vec::new();
    let mut i: usize = 0;
    assert(viewed(out@) =~= viewed(links@).take(0));
    while i < links.len()
        invariant
            i <= links@.len(),
            viewed(out@) == viewed(links@).take(i as int),
        decreases links@.len() - i,
    {
        let ghost before = viewed(out@);
        out.push(links[i].copy());
        proof {
            assert(viewed(out@) =~= before.push(links@[i as int]@));
            assert(viewed(links@).take(i + 1) =~= before.push(viewed(links@)[i as int]));
        }
        i += 1;
    }
    assert(viewed(links@).take(i as int) =~= viewed(links@));
    out
}

/// A copy of a list of events.
fn copy_events(events: &Vec<ReticulumEventDto>) -> (out: Vec<ReticulumEventDto>)
    ensures
        viewed(out@) == viewed(events@),
{
    let mut out: Vec<ReticulumEventDto> = Vec::new();
    let mut i: usize = 0;
    assert(viewed(out@) =~= viewed(events@).take(0));
    while i < events.len()
        invariant
            i <= events@.len(),
            viewed(out@) == viewed(events@).take(i as int),
        decreases events@.len() - i,
    {
        let ghost before = viewed(out@);
        out.push(events[i].copy());
        proof {
            assert(viewed(out@) =~= before.push(events@[i as int]@));
            assert(viewed(events@).take(i + 1) =~= before.push(viewed(events@)[i as int]));
        }
        i += 1;
    }
    assert(viewed(events@).take(i as int) =~= viewed(events@));
    out
}

// ── Events ───────────────────────────────────────────────────────────────────

/// How many events are kept.
pub const RETICULUM_EVENT_BUF_SIZE: usize = 256;

/// The first `n` of a list, or all of it.
pub open spec fn first_of<T>(s: Seq<T>, n: int) -> Seq<T> {
    if s.len() <= n {
        s
    } else {
        s.take(n)
    }
}

/// The events after one more: the newest comes first, and the oldest go.
pub open spec fn events_after(events: Seq<EventView>, event: EventView) -> Seq<EventView> {
    first_of(seq![event] + events, RETICULUM_EVENT_BUF_SIZE as int)
}

/// Notes an event.
pub fn push_event(events: &mut Vec<ReticulumEventDto>, event: ReticulumEventDto)
    ensures
        viewed(final(events)@) == events_after(viewed(old(events)@), event@),
{
    let ghost before = viewed(events@);
    events.insert(0, event);
    assert(viewed(events@) =~= seq![event@] + before);
    events.truncate(RETICULUM_EVENT_BUF_SIZE);
    assert(viewed(events@) =~= events_after(before, event@));
}

// ── The tracker ──────────────────────────────────────────────────────────────

/// What happened on the transport so far.
#[derive(Debug)]
pub struct GatewayReticulum {
    pub interface_stats: ReticulumInterfaceStatsDto,
    pub incoming_links: Vec<ReticulumLinkDto>,
    pub outgoing_links: Vec<ReticulumLinkDto>,
    pub events: Vec<ReticulumEventDto>,
}

/// What happened on the transport so far.
pub struct TrackerView {
    pub interface_stats: ReticulumInterfaceStatsDto,
    pub incoming_links: Seq<LinkView>,
    pub outgoing_links: Seq<LinkView>,
    pub events: Seq<EventView>,
}

impl View for GatewayReticulum {
    type V = TrackerView;

    open spec fn view(&self) -> TrackerView {
        TrackerView {
            interface_stats: self.interface_stats,
            incoming_links: viewed(self.incoming_links@),
            outgoing_links: viewed(self.outgoing_links@),
            events: viewed(self.events@),
        }
    }
}

/// An event that is about no link.
pub open spec fn plain_event(
    ts: u64,
    direction: Seq<char>,
    kind: Seq<char>,
    destination: Seq<char>,
    details: Seq<char>,
) -> EventView {
    EventView { ts, direction, kind, link_id: Seq::empty(), destination, details }
}

/// An event that is about no link.
fn make_event(ts: u64, direction: &str, kind: &str, destination: String, details: String) -> (out:
    ReticulumEventDto)
    ensures
        out@ == plain_event(ts, direction@, kind@, destination@, details@),
{
    let link_id = String::new();
    assert(link_id@ =~= Seq::<char>::empty());
    ReticulumEventDto {
        ts,
        direction: direction.to_owned(),
        kind: kind.to_owned(),
        link_id,
        destination,
        details,
    }
}

/// The event of an error of the radio interface.
pub open spec fn error_event(module: usize, kind: InterfaceErrorKind, ts: u64) -> EventView {
    plain_event(
        ts,
        "interface"@,
        "error"@,
        Seq::empty(),
        "module "@ + decimal(module as nat) + ": "@ + error_label(kind),
    )
}

impl TrackerView {
    /// Each link is listed once, no more events are kept than there is room for,
    /// and the error counts add up, unless one is at the largest count.
    pub open spec fn wf(self) -> bool {
        &&& ids_differ(self.incoming_links)
        &&& ids_differ(self.outgoing_links)
        &&& self.events.len() <= RETICULUM_EVENT_BUF_SIZE
        &&& totals_hold(self.interface_stats)
    }

    /// What happened, with one more error of the radio interface.
    pub open spec fn with_error(
        self,
        module: usize,
        kind: InterfaceErrorKind,
        ts: u64,
    ) -> TrackerView {
        TrackerView {
            interface_stats: stats_after(self.interface_stats, kind),
            events: events_after(self.events, error_event(module, kind, ts)),
            ..self
        }
    }
}

impl GatewayReticulum {
    /// Each link is listed once, no more events are kept than there is room for,
    /// and the error counts add up, unless one is at the largest count.
    pub open spec fn wf(self) -> bool {
        self@.wf()
    }

    /// Nothing happened yet.
    pub fn new() -> (out: GatewayReticulum)
        ensures
            out.wf(),
            stats_add_up(out@.interface_stats),
            out@.interface_stats.rx_errors == 0,
            out@.interface_stats.tx_errors == 0,
            out@.incoming_links == Seq::<LinkView>::empty(),
            out@.outgoing_links == Seq::<LinkView>::empty(),
            out@.events == Seq::<EventView>::empty(),
    {
        let out = GatewayReticulum {
            interface_stats: ReticulumInterfaceStatsDto {
                rx_errors: 0,
                tx_errors: 0,
                rx_ldpc_errors: 0,
                rx_reassembly_errors: 0,
                rx_deserialize_errors: 0,
                tx_ldpc_errors: 0,
                tx_transmit_errors: 0,
                tx_serialize_errors: 0,
            },
            incoming_links: Vec::new(),
            outgoing_links: Vec::new(),
            events: Vec::new(),
        };
        assert(out@.incoming_links =~= Seq::<LinkView>::empty());
        assert(out@.outgoing_links =~= Seq::<LinkView>::empty());
        assert(out@.events =~= Seq::<EventView>::empty());
        out
    }

    /// The state of the transport: the links by when they were last seen, the
    /// latest first, and the events, the newest first.
    pub fn snapshot(&self) -> (out: ReticulumSnapshotDto)
        ensures
            out.interface_stats == self@.interface_stats,
            in_order::<ReticulumLinkDto>(viewed(out.incoming_links@)),
            viewed(out.incoming_links@).to_multiset() == self@.incoming_links.to_multiset(),
            in_order::<ReticulumLinkDto>(viewed(out.outgoing_links@)),
            viewed(out.outgoing_links@).to_multiset() == self@.outgoing_links.to_multiset(),
            viewed(out.events@) == self@.events,
    {
        ReticulumSnapshotDto {
            interface_stats: self.interface_stats,
            incoming_links: sorted(copy_links(&self.incoming_links)),
            outgoing_links: sorted(copy_links(&self.outgoing_links)),
            events: copy_events(&self.events),
        }
    }

    /// Notes an error of the radio interface.
    pub fn record_interface_error(&mut self, module: usize, kind: InterfaceErrorKind, ts: u64)
        requires
            old(self).wf(),
        ensures
            final(self).wf(),
            final(self)@ == old(self)@.with_error(module, kind, ts),
    {
        let mut stats = self.interface_stats;
        match kind {
            InterfaceErrorKind::RxLdpcDecode => {
                stats.rx_errors = stats.rx_errors.saturating_add(1);
                stats.rx_ldpc_errors = stats.rx_ldpc_errors.saturating_add(1);
            },
            InterfaceErrorKind::RxReassembly => {
                stats.rx_errors = stats.rx_errors.saturating_add(1);
                stats.rx_reassembly_errors = stats.rx_reassembly_errors.saturating_add(1);
            },
            InterfaceErrorKind::RxDeserialize => {
                stats.rx_errors = stats.rx_errors.saturating_add(1);
                stats.rx_deserialize_errors = stats.rx_deserialize_errors.saturating_add(1);
            },
            InterfaceErrorKind::TxLdpcEncode => {
                stats.tx_errors = stats.tx_errors.saturating_add(1);
                stats.tx_ldpc_errors = stats.tx_ldpc_errors.saturating_add(1);
            },
            InterfaceErrorKind::TxTransmit => {
                stats.tx_errors = stats.tx_errors.saturating_add(1);
                stats.tx_transmit_errors = stats.tx_transmit_errors.saturating_add(1);
            },
            InterfaceErrorKind::TxSerialize => {
                stats.tx_errors = stats.tx_errors.saturating_add(1);
                stats.tx_serialize_errors = stats.tx_serialize_errors.saturating_add(1);
            },
        }
        self.interface_stats = stats;
        let number = decimal_text(module as u64);
        let details = cat4("module ", number.as_str(), ": ", interface_error_label(kind));
        let destination = String::new();
        assert(destination@ =~= Seq::<char>::empty());
        push_event(
            &mut self.events,
            make_event(ts, "interface", "error", destination, details),
        );
    }

    /// Notes an event on a link. `link` is the link as the transport knows it,
    /// if it still does.
    pub fn handle_link_event(
        &mut self,
        incoming: bool,
        data: &LinkEventData,
        link: &Option<LinkInfo>,
        ts: u64,
    )
        requires
            old(self).wf(),
        ensures
            final(self).wf(),
            ({
                let fresh = LinkView {
                    status: event_status(data.event@),
                    ..resolved(*data, *link, ts)
                };
                let len = event_packet_len(data.event@);
                let event = EventView {
                    ts,
                    direction: if incoming {
                        "incoming"@
                    } else {
                        "outgoing"@
                    },
                    kind: event_kind(data.event@),
                    link_id: data.id@,
                    destination: data.destination@,
                    details: event_details(data.event@),
                };
                final(self)@ == if incoming {
                    TrackerView {
                        incoming_links: links_after(old(self)@.incoming_links, fresh, len),
                        events: events_after(old(self)@.events, event),
                        ..old(self)@
                    }
                } else {
                    TrackerView {
                        outgoing_links: links_after(old(self)@.outgoing_links, fresh, len),
                        events: events_after(old(self)@.events, event),
                        ..old(self)@
                    }
                }
            }),
    {
        let mut fresh = resolve_link_snapshot(data, link, ts);
        fresh.status = link_event_status(&data.event).to_owned();
        let len = link_event_packet_len(&data.event);
        if incoming {
            note_link(&mut self.incoming_links, fresh, len);
        } else {
            note_link(&mut self.outgoing_links, fresh, len);
        }
        let direction = if incoming {
            "incoming"
        } else {
            "outgoing"
        };
        let event = ReticulumEventDto {
            ts,
            direction: direction.to_owned(),
            kind: link_event_kind(&data.event).to_owned(),
            link_id: data.id.clone(),
            destination: data.destination.clone(),
            details: link_event_details(&data.event),
        };
        push_event(&mut self.events, event);
    }

    /// Notes data that came in outside of links.
    pub fn handle_received_data(&mut self, destination: String, len: usize, ts: u64)
        requires
            old(self).wf(),
        ensures
            final(self).wf(),
            final(self)@ == (TrackerView {
                events: events_after(
                    old(self)@.events,
                    plain_event(
                        ts,
                        "transport"@,
                        "received-data"@,
                        destination@,
                        decimal(len as nat) + " B"@,
                    ),
                ),
                ..old(self)@
            }),
    {
        let count = decimal_text(len as u64);
        let details = cat2(count.as_str(), " B");
        push_event(
            &mut self.events,
            make_event(ts, "transport", "received-data", destination, details),
        );
    }

    /// Notes an announce.
    pub fn handle_announce(&mut self, destination: String, app_data_len: usize, ts: u64)
        requires
            old(self).wf(),
        ensures
            final(self).wf(),
            final(self)@ == (TrackerView {
                events: events_after(
                    old(self)@.events,
                    plain_event(
                        ts,
                        "transport"@,
                        "announce"@,
                        destination@,
                        "app data "@ + decimal(app_data_len as nat) + " B"@,
                    ),
                ),
                ..old(self)@
            }),
    {
        let count = decimal_text(app_data_len as u64);
        let details = crate::text::cat3("app data ", count.as_str(), " B");
        push_event(
            &mut self.events,
            make_event(ts, "transport", "announce", destination, details),
        );
    }
}

/// The state of the transport for live updates: all but the events.
pub fn build_ws_reticulum_snapshot(snapshot: ReticulumSnapshotDto) -> (out: WsReticulumSnapshotDto)
    ensures
        out.interface_stats == snapshot.interface_stats,
        out.incoming_links == snapshot.incoming_links,
        out.outgoing_links == snapshot.outgoing_links,
{
    WsReticulumSnapshotDto {
        interface_stats: snapshot.interface_stats,
        incoming_links: snapshot.incoming_links,
        outgoing_links: snapshot.outgoing_links,
    }
}

// ── Laws ─────────────────────────────────────────────────────────────────────

/// The error counts keep adding up, as long as the one of the direction is not at
/// its end.
pub proof fn error_counts_keep_adding_up(s: ReticulumInterfaceStatsDto, kind: InterfaceErrorKind)
    requires
        stats_add_up(s),
        if is_rx_error(kind) {
            s.rx_errors < u64::MAX
        } else {
            s.tx_errors < u64::MAX
        },
    ensures
        stats_add_up(stats_after(s, kind)),
        stats_after(s, kind).rx_errors + stats_after(s, kind).tx_errors == s.rx_errors
            + s.tx_errors + 1,
{
}

/// An error of the radio interface keeps the log in order. It adds one to the
/// errors of its direction, which stay as many as their kinds together, and
/// nothing to the other direction; a count at its end stays there. The links stay
/// as they are, and the error is the newest event.
pub proof fn errors_are_counted_once(
    log: TrackerView,
    module: usize,
    kind: InterfaceErrorKind,
    ts: u64,
)
    requires
        log.wf(),
    ensures
        ({
            let after = log.with_error(module, kind, ts);
            let s = log.interface_stats;
            let n = after.interface_stats;
            &&& after.wf()
            &&& is_rx_error(kind) ==> {
                &&& n.tx_errors == s.tx_errors
                &&& n.rx_errors == counted(s.rx_errors, 1)
                &&& s.rx_errors < u64::MAX ==> n.rx_errors == s.rx_errors + 1 && n.rx_errors
                    == n.rx_ldpc_errors + n.rx_reassembly_errors + n.rx_deserialize_errors
            }
            &&& !is_rx_error(kind) ==> {
                &&& n.rx_errors == s.rx_errors
                &&& n.tx_errors == counted(s.tx_errors, 1)
                &&& s.tx_errors < u64::MAX ==> n.tx_errors == s.tx_errors + 1 && n.tx_errors
                    == n.tx_ldpc_errors + n.tx_transmit_errors + n.tx_serialize_errors
            }
            &&& after.incoming_links == log.incoming_links
            &&& after.outgoing_links == log.outgoing_links
            &&& after.events.len() <= RETICULUM_EVENT_BUF_SIZE
            &&& after.events[0] == error_event(module, kind, ts)
        }),
{
    newest_events_are_kept(log.events, error_event(module, kind, ts));
}

/// The newest event is the first, no event but the oldest is lost, and no more
/// are kept than there is room for.
pub proof fn newest_events_are_kept(events: Seq<EventView>, event: EventView)
    requires
        events.len() <= RETICULUM_EVENT_BUF_SIZE,
    ensures
        events_after(events, event)[0] == event,
        events_after(events, event).len() <= RETICULUM_EVENT_BUF_SIZE,
        forall|i: int|
            0 <= i < events.len() && i + 1 < RETICULUM_EVENT_BUF_SIZE ==> #[trigger] events[i]
                == events_after(events, event)[i + 1],
        events.len() < RETICULUM_EVENT_BUF_SIZE ==> events_after(events, event) == seq![event]
            + events,
{
}

/// A link that is noted again keeps its counts and goes on counting; the other
/// links stay as they are.
pub proof fn links_keep_counting(links: Seq<LinkView>, fresh: LinkView, len: Option<usize>, i: int)
    requires
        ids_differ(links),
        0 <= i < links.len(),
    ensures
        links_after(links, fresh, len)[i].id == links[i].id,
        links[i].id != fresh.id ==> links_after(links, fresh, len)[i] == links[i],
        links[i].id == fresh.id ==> links_after(links, fresh, len)[i].packets == (match len {
            Some(_) => counted(links[i].packets, 1),
            None => links[i].packets,
        }) && links_after(links, fresh, len)[i].bytes == (match len {
            Some(len) => counted(links[i].bytes, len as u64),
            None => links[i].bytes,
        }),
{
    lemma_link_index(links, fresh.id);
    let at = link_index(links, fresh.id);
    if links[i].id == fresh.id && at != i {
        if at < i {
            assert(links[at].id != links[i].id);
        } else {
            assert(links[i].id != fresh.id);
        }
    }
}

/// Each kind of error has a count of its own beside the total of its direction:
/// one more error of a kind adds one to these two and to no other.
pub proof fn each_kind_of_error_has_its_count(s: ReticulumInterfaceStatsDto)
    requires
        s.rx_errors < u64::MAX && s.rx_ldpc_errors < u64::MAX && s.rx_reassembly_errors < u64::MAX
            && s.rx_deserialize_errors < u64::MAX,
        s.tx_errors < u64::MAX && s.tx_ldpc_errors < u64::MAX && s.tx_transmit_errors < u64::MAX
            && s.tx_serialize_errors < u64::MAX,
    ensures
        stats_after(s, InterfaceErrorKind::RxLdpcDecode) == (ReticulumInterfaceStatsDto {
            rx_errors: (s.rx_errors + 1) as u64,
            rx_ldpc_errors: (s.rx_ldpc_errors + 1) as u64,
            ..s
        }),
        stats_after(s, InterfaceErrorKind::RxReassembly) == (ReticulumInterfaceStatsDto {
            rx_errors: (s.rx_errors + 1) as u64,
            rx_reassembly_errors: (s.rx_reassembly_errors + 1) as u64,
            ..s
        }),
        stats_after(s, InterfaceErrorKind::RxDeserialize) == (ReticulumInterfaceStatsDto {
            rx_errors: (s.rx_errors + 1) as u64,
            rx_deserialize_errors: (s.rx_deserialize_errors + 1) as u64,
            ..s
        }),
        stats_after(s, InterfaceErrorKind::TxLdpcEncode) == (ReticulumInterfaceStatsDto {
            tx_errors: (s.tx_errors + 1) as u64,
            tx_ldpc_errors: (s.tx_ldpc_errors + 1) as u64,
            ..s
        }),
        stats_after(s, InterfaceErrorKind::TxTransmit) == (ReticulumInterfaceStatsDto {
            tx_errors: (s.tx_errors + 1) as u64,
            tx_transmit_errors: (s.tx_transmit_errors + 1) as u64,
            ..s
        }),
        stats_after(s, InterfaceErrorKind::TxSerialize) == (ReticulumInterfaceStatsDto {
            tx_errors: (s.tx_errors + 1) as u64,
            tx_serialize_errors: (s.tx_serialize_errors + 1) as u64,
            ..s
        }),
{
}

/// A count that is full stays full; any other grows by what is counted, as far as
/// it can.
pub proof fn counts_grow_until_they_are_full(count: u64, n: u64)
    ensures
        counted(count, n) >= count,
        counted(count, n) >= n,
        count + n <= u64::MAX ==> counted(count, n) == count + n,
        counted(u64::MAX, n) == u64::MAX,
{
}

/// Errors of different kinds, and links in different states, are called
/// differently.
pub proof fn errors_and_states_have_names_of_their_own(
    a: InterfaceErrorKind,
    b: InterfaceErrorKind,
    c: LinkStatus,
    d: LinkStatus,
)
    ensures
        error_label(a) == error_label(b) <==> a == b,
        status_label(c) == status_label(d) <==> c == d,
{
    reveal_strlit("rx ldpc decode");
    reveal_strlit("rx reassembly");
    reveal_strlit("rx deserialize");
    reveal_strlit("tx ldpc encode");
    reveal_strlit("tx transmit");
    reveal_strlit("tx serialize");
    assert("rx ldpc decode"@[0] == 'r' && "rx ldpc decode"@[3] == 'l');
    assert("rx reassembly"@[0] == 'r' && "rx reassembly"@[3] == 'r');
    assert("rx deserialize"@[0] == 'r' && "rx deserialize"@[3] == 'd');
    assert("tx ldpc encode"@[0] == 't' && "tx ldpc encode"@[3] == 'l');
    assert("tx transmit"@[0] == 't' && "tx transmit"@[3] == 't');
    assert("tx serialize"@[0] == 't' && "tx serialize"@[3] == 's');
    reveal_strlit("pending");
    reveal_strlit("handshake");
    reveal_strlit("active");
    reveal_strlit("stale");
    reveal_strlit("closed");
    assert("pending"@[0] == 'p');
    assert("handshake"@[0] == 'h');
    assert("active"@[0] == 'a');
    assert("stale"@[0] == 's');
    assert("closed"@[0] == 'c');
}

/// An event of a link says what happened: it closes the link if and only if the
/// link was closed, and it counts as a packet if and only if data came in.
pub proof fn events_say_what_happened(a: LinkEventView, b: LinkEventView)
    ensures
        event_status(a) == "closed"@ <==> a is Closed,
        event_status(a) == "active"@ <==> !(a is Closed),
        event_packet_len(a) is Some <==> a is Data,
        a matches LinkEventView::Data(len) ==> event_packet_len(a) == Some(len) && event_details(a)
            == decimal(len as nat) + " B"@,
        a matches LinkEventView::Proof(hash) ==> event_details(a) == hash,
        a matches LinkEventView::RemoteIdentified(hash) ==> event_details(a)
            == "Remote identity "@ + hash,
        event_kind(a) == event_kind(b) ==> (a is Activated <==> b is Activated) && (a is Data
            <==> b is Data) && (a is Proof <==> b is Proof) && (a is Closed <==> b is Closed),
{
    reveal_strlit("activated");
    reveal_strlit("data");
    reveal_strlit("proof");
    reveal_strlit("closed");
    reveal_strlit("identified");
    reveal_strlit("active");
    assert("activated"@[0] == 'a');
    assert("data"@[0] == 'd');
    assert("proof"@[0] == 'p');
    assert("closed"@[0] == 'c');
    assert("identified"@[0] == 'i');
    assert("active"@[0] == 'a');
}

/// A link that is known is shown as it is; one that is not is shown as its event
/// tells of it. Either way it is seen now, and nothing was counted yet.
pub proof fn links_are_shown_as_they_are(data: LinkEventData, link: Option<LinkInfo>, ts: u64)
    ensures
        ({
            let shown = resolved(data, link, ts);
            &&& shown.last_event == event_kind(data.event@)
            &&& shown.last_seen_ts == ts
            &&& (shown.packets, shown.bytes) == (0u64, 0u64)
            &&& link matches Some(link) ==> shown.id == link.id@ && shown.destination
                == link.destination@ && shown.status == status_label(link.status) && shown.rtt_ms
                == Some(link.rtt_ms)
            &&& link is None ==> shown.id == data.id@ && shown.destination == data.destination@
                && shown.rtt_ms is None && (shown.status == "closed"@ <==> data.event@ is Closed)
        }),
{
    events_say_what_happened(data.event@, data.event@);
}

/// The first event of a link adds it, and a later one renews it: its state and what
/// was last seen of it are those of the event.
pub proof fn links_are_added_or_renewed(links: Seq<LinkView>, fresh: LinkView, len: Option<usize>)
    requires
        ids_differ(links),
    ensures
        ({
            let after = links_after(links, fresh, len);
            let known = exists|i: int| 0 <= i < links.len() && (#[trigger] links[i]).id == fresh.id;
            &&& after.len() == links.len() + (if known {
                0int
            } else {
                1
            })
            &&& exists|i: int|
                0 <= i < after.len() && (#[trigger] after[i]).id == fresh.id && after[i].status
                    == fresh.status && after[i].last_event == fresh.last_event
                    && after[i].destination == fresh.destination && after[i].rtt_ms
                    == fresh.rtt_ms && after[i].last_seen_ts == fresh.last_seen_ts
            &&& !known && len is Some ==> after.last().packets == counted(fresh.packets, 1)
                && after.last().bytes == counted(fresh.bytes, len->Some_0 as u64)
            &&& !known && len is None ==> after.last() == fresh
        }),
{
    lemma_link_index(links, fresh.id);
    let after = links_after(links, fresh, len);
    let at = link_index(links, fresh.id);
    assert(after[at].id == fresh.id);
    if at < links.len() {
        assert(links[at].id == fresh.id);
    }
}

/// As many as 256 events are kept.
pub proof fn two_hundred_and_fifty_six_events_are_kept(events: Seq<EventView>, event: EventView)
    requires
        events.len() <= 256,
    ensures
        events.len() < 256 ==> events_after(events, event).len() == events.len() + 1,
        events.len() == 256 ==> events_after(events, event).len() == 256,
{
}

} // verus!
