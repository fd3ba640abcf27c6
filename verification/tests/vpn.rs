use kaonic::vpn::network::{format_address, Ipv4Cidr};
use kaonic::vpn::packet::{packet_destination, packet_source};
use kaonic::vpn::peer::{routes_live, LinkState, LinkStatus, TrafficMetrics, ROUTE_GRACE_SECS};
use kaonic::vpn::routes::{
    cidr_bounds, conflicting_local_routes, derive_tunnel_ip, discover_local_routes,
    export_local_route, local_route_translations, merge_routes, parse_configured_peers,
    routes_overlap, should_skip_interface, validate_network, AddressHash, InterfaceAddress,
    LocalRouteTranslation,
};
use kaonic::vpn::runtime::{
    CtrlFrame, LinkDataMove, LinkPacketDecision, OutLinkDecision, TunPacketDecision, VpnRuntime,
};

fn hash(text: &str) -> AddressHash {
    let mut bytes = [0u8; 16];
    hex::decode_to_slice(text, &mut bytes).unwrap();
    AddressHash { bytes }
}

fn net(text: &str) -> Ipv4Cidr {
    Ipv4Cidr::parse(text).unwrap()
}

fn own() -> AddressHash {
    hash("971a7ac9b42ce6e0faa131bb3c2e7852")
}

fn peer() -> AddressHash {
    hash("fb08aff16ec6f5ccf0d3eb179028e9c3")
}

fn runtime(allow_all: bool, allowed: Vec<AddressHash>) -> VpnRuntime {
    VpnRuntime::start(
        net("10.20.0.0/16"),
        allow_all,
        allowed,
        vec![net("192.168.10.0/24")],
        own(),
        Some("tun0".to_owned()),
        "linux".to_owned(),
        true,
        &vec![net("10.50.0.0/24")],
    )
    .unwrap()
}

#[test]
fn derive_tunnel_ip_stable_and_in_network() {
    let network = net("10.20.0.0/16");
    let h = hash("fb08aff16ec6f5ccf0d3eb179028e9c3");
    let a = derive_tunnel_ip(network, &h).unwrap();
    let b = derive_tunnel_ip(network, &h).unwrap();
    assert_eq!(a, b);
    let (first, last) = cidr_bounds(network);
    assert!(first <= a as u64 && (a as u64) <= last);
}

#[test]
fn export_local_route_lands_in_alias_pool() {
    let dest = hash("971a7ac9b42ce6e0faa131bb3c2e7852");
    let r = net("192.168.10.0/24");
    let e = export_local_route(&dest, r);
    let oct = e.first_address().to_be_bytes();
    assert_eq!(oct[0], 192);
    assert_eq!(oct[1], 168);
    assert!((100..=254).contains(&oct[2]));
    assert_ne!(e, r);
}

#[test]
fn export_local_route_preserves_non_24_routes() {
    let dest = hash("971a7ac9b42ce6e0faa131bb3c2e7852");
    let r = net("10.42.0.0/16");
    assert_eq!(export_local_route(&dest, r), r);
}

#[test]
fn merge_routes_unions_inputs() {
    let d = vec![net("192.168.10.0/24"), net("10.50.0.0/24")];
    let a = vec![net("10.50.0.0/24"), net("172.16.1.0/24")];
    let m = merge_routes(&d, &a);
    assert_eq!(m.len(), 3);
}

#[test]
fn local_conflicts_block_overlapping_remotes() {
    let locals = vec![LocalRouteTranslation {
        local: net("192.168.10.0/24"),
        exported: net("192.168.142.0/24"),
    }];
    let conflicts = conflicting_local_routes(
        &locals,
        &vec![
            net("192.168.10.0/24"),
            net("192.168.142.0/24"),
            net("192.168.177.0/24"),
        ],
    );
    assert!(conflicts.contains(&"192.168.10.0/24".to_owned()));
    assert!(conflicts.contains(&"192.168.142.0/24".to_owned()));
    assert!(!conflicts.contains(&"192.168.177.0/24".to_owned()));
}

#[test]
fn networks_are_read_and_written() {
    let network = net("10.20.0.0/16");
    assert_eq!(network.first_address(), 0x0a14_0000);
    assert_eq!(network.network_length(), 16);
    assert_eq!(network.text(), "10.20.0.0/16");
    assert_eq!(net("10.1.2.3").text(), "10.1.2.3");
    assert!(Ipv4Cidr::parse("10.20.0.1/16").is_err());
    assert!(Ipv4Cidr::parse("10.20.0.0/33").is_err());
    assert!(Ipv4Cidr::parse("nonsense").is_err());
    assert!(Ipv4Cidr::new(0x0a14_0001, 16).is_none());
    assert!(Ipv4Cidr::new(0x0a14_0000, 16).is_some());
    assert_eq!(format_address(0xc0a8_0a01), "192.168.10.1");
}

#[test]
fn tunnels_need_room_for_hosts() {
    assert!(validate_network(net("10.0.0.0/30")).is_ok());
    assert!(validate_network(net("10.0.0.0/31")).is_err());
    let ip = derive_tunnel_ip(net("10.0.0.0/30"), &peer()).unwrap();
    assert!(ip == 0x0a00_0001 || ip == 0x0a00_0002);
    assert!(VpnRuntime::start(
        net("10.0.0.0/31"),
        true,
        Vec::new(),
        Vec::new(),
        own(),
        None,
        "mock".to_owned(),
        false,
        &Vec::new(),
    )
    .is_err());
}

#[test]
fn overlaps_are_shared_addresses() {
    assert!(routes_overlap(net("10.0.0.0/8"), net("10.20.0.0/16")));
    assert!(!routes_overlap(net("10.20.0.0/16"), net("10.21.0.0/16")));
    assert_eq!(cidr_bounds(net("10.20.0.0/16")), (0x0a14_0000, 0x0a14_ffff));
}

#[test]
fn routes_are_exported_under_an_alias() {
    let list = local_route_translations(&vec![net("192.168.10.0/24")], &own(), true);
    assert_eq!(list.len(), 1);
    assert_eq!(list[0].exported, export_local_route(&own(), net("192.168.10.0/24")));
    let plain = local_route_translations(&vec![net("192.168.10.0/24")], &own(), false);
    assert_eq!(plain[0].exported, plain[0].local);
}

#[test]
fn interfaces_show_local_routes() {
    assert!(should_skip_interface("tun0", Some("tun0")));
    assert!(!should_skip_interface("eth0", Some("tun0")));
    let interfaces = vec![
        InterfaceAddress {
            name: "eth0".to_owned(),
            loopback: false,
            link_local: false,
            ipv4: Some((0xc0a8_0a00, 24)),
        },
        InterfaceAddress {
            name: "eth1".to_owned(),
            loopback: false,
            link_local: false,
            ipv4: Some((0xc0a8_0b05, 24)),
        },
        InterfaceAddress {
            name: "lo".to_owned(),
            loopback: true,
            link_local: false,
            ipv4: Some((0x7f00_0001, 8)),
        },
    ];
    assert_eq!(
        discover_local_routes(&interfaces, Some("tun0")),
        vec![net("192.168.10.0/24")]
    );
}

#[test]
fn configured_peers_are_checked() {
    let peers = vec!["a".to_owned(), "b".to_owned()];
    let ok = parse_configured_peers(&peers, &vec![Ok(peer()), Ok(peer())]).unwrap();
    assert_eq!(ok.len(), 1);
    let err = parse_configured_peers(&peers, &vec![Ok(peer()), Err("bad".to_owned())])
        .unwrap_err();
    assert!(err.message().contains("bad"));
}

fn ipv4_packet(source: [u8; 4], destination: [u8; 4]) -> Vec<u8> {
    let mut packet = Vec::new();
    etherparse::PacketBuilder::ipv4(source, destination, 64)
        .udp(1000, 2000)
        .write(&mut packet, b"data")
        .unwrap();
    packet
}

#[test]
fn packets_tell_their_addresses() {
    let packet = ipv4_packet([10, 20, 0, 1], [10, 20, 0, 2]);
    assert_eq!(packet_source(&packet), Some(0x0a14_0001));
    assert_eq!(packet_destination(&packet), Some(0x0a14_0002));
    assert_eq!(packet_source(&[0x45, 0]), None);
    assert_eq!(packet_destination(b"no packet"), None);
}

#[test]
fn packets_go_to_active_peers() {
    let mut vpn = runtime(true, Vec::new());
    assert!(vpn.handle_peer_announce(peer(), vec![net("172.16.0.0/24")], 100));
    let packet = ipv4_packet([10, 20, 0, 1], [172, 16, 0, 9]);
    assert_eq!(
        vpn.handle_tun_packet(&packet, Some(peer())),
        TunPacketDecision::Backoff
    );
    vpn.out_link_activated(&peer());
    assert_eq!(
        vpn.handle_tun_packet(&packet, Some(peer())),
        TunPacketDecision::Send(peer())
    );
    assert_eq!(vpn.handle_tun_packet(&packet, None), TunPacketDecision::Drop);
    assert_eq!(vpn.handle_tun_packet(b"x", None), TunPacketDecision::Ignore);
    let own_ip = vpn.local_tunnel_ip.to_be_bytes();
    let to_self = ipv4_packet([10, 20, 0, 1], own_ip);
    assert_eq!(
        vpn.handle_tun_packet(&to_self, Some(peer())),
        TunPacketDecision::Ignore
    );
}

#[test]
fn only_listed_peers_are_taken() {
    let mut vpn = runtime(false, vec![peer()]);
    assert!(vpn.peer_allowed(&peer()));
    assert!(!vpn.peer_allowed(&own()));
    assert!(!vpn.handle_peer_announce(own(), Vec::new(), 1));
    assert_eq!(
        vpn.handle_link_packet(Some(own()), None),
        LinkPacketDecision::Drop
    );
    assert_eq!(
        vpn.handle_link_packet(Some(peer()), None),
        LinkPacketDecision::Forward(Some(peer()))
    );
    assert_eq!(vpn.request_out_link(&own(), None, 1), OutLinkDecision::Refuse);
    let removed = vpn
        .replace_peer_policy(false, &Vec::new(), &Vec::new())
        .unwrap();
    assert_eq!(removed, vec![peer()]);
    assert!(!vpn.peer_allowed(&peer()));
}

#[test]
fn closed_links_cool_down_before_the_next() {
    let mut vpn = runtime(true, Vec::new());
    vpn.handle_peer_announce(peer(), Vec::new(), 10);
    assert_eq!(vpn.request_out_link(&peer(), None, 10), OutLinkDecision::Open);
    assert_eq!(vpn.request_out_link(&peer(), None, 10), OutLinkDecision::InFlight);
    vpn.finish_out_link(&peer());
    assert_eq!(
        vpn.request_out_link(&peer(), Some(LinkStatus::Active), 11),
        OutLinkDecision::Reuse
    );
    vpn.out_link_closed(&peer(), 20);
    assert_eq!(
        vpn.request_out_link(&peer(), None, 21),
        OutLinkDecision::Cooldown(2)
    );
    assert_eq!(vpn.request_out_link(&peer(), None, 23), OutLinkDecision::Open);
}

#[test]
fn announced_routes_expire() {
    let mut vpn = runtime(true, Vec::new());
    vpn.handle_peer_announce(peer(), vec![net("172.16.0.0/24")], 100);
    assert!(!vpn.expire_routes(100 + ROUTE_GRACE_SECS - 1));
    assert!(vpn.expire_routes(100 + ROUTE_GRACE_SECS));
    assert!(!vpn.expire_routes(100 + ROUTE_GRACE_SECS));
    assert!(vpn.handle_ctrl_frame(
        Some(peer()),
        CtrlFrame::Routes(vec![Some(net("172.17.0.0/24")), None]),
        200
    ));
    assert!(!vpn.handle_ctrl_frame(None, CtrlFrame::Ping, 200));
    assert!(!vpn.handle_ctrl_frame(Some(peer()), CtrlFrame::Invalid("eh".to_owned()), 201));
    let snapshot = vpn.snapshot(201);
    assert_eq!(snapshot.peers.len(), 1);
    assert_eq!(snapshot.peers[0].announced_routes, vec!["172.17.0.0/24"]);
    assert_eq!(snapshot.peers[0].last_error.as_deref(), Some("eh"));
    assert_eq!(
        snapshot.peers[0].destination,
        "fb08aff16ec6f5ccf0d3eb179028e9c3"
    );
    assert_eq!(snapshot.network, "10.20.0.0/16");
}

#[test]
fn overlapping_routes_are_left_out() {
    let mut vpn = runtime(true, Vec::new());
    let plan = vpn.plan_route_sync(&vec![net("10.50.0.0/16"), net("172.16.0.0/24")]);
    assert_eq!(plan.conflicts, vec!["10.50.0.0/16"]);
    assert_eq!(plan.desired, vec!["172.16.0.0/24"]);
    assert!(plan.stale.is_empty());
    vpn.finish_route_sync(plan, None);
    assert_eq!(vpn.installed_routes, vec!["172.16.0.0/24"]);
    let plan = vpn.plan_route_sync(&Vec::new());
    assert_eq!(plan.stale, vec!["172.16.0.0/24"]);
    vpn.finish_route_sync(plan, Some("no netlink".to_owned()));
    assert_eq!(vpn.last_error.as_deref(), Some("no netlink"));
    vpn.metrics = TrafficMetrics { tx_packets: 3, ..TrafficMetrics::new() };
    let snapshot = vpn.snapshot(1);
    assert_eq!(snapshot.status, "error");
    assert_eq!(snapshot.tx_packets, 3);
}

#[test]
fn advertised_routes_are_replaced() {
    let mut vpn = runtime(true, Vec::new());
    vpn.replace_advertised_routes(vec![net("10.60.0.0/24")], &vec![net("10.50.0.0/24")]);
    assert_eq!(vpn.local_routes, vec![net("10.50.0.0/24"), net("10.60.0.0/24")]);
    vpn.refresh_local_routes(&Vec::new());
    assert_eq!(vpn.local_routes, vec![net("10.60.0.0/24")]);
    assert_eq!(vpn.exported_routes().len(), 1);
}

#[test]
fn stuck_links_are_reset() {
    let mut vpn = runtime(true, Vec::new());
    vpn.handle_peer_announce(peer(), Vec::new(), 10);
    assert!(vpn.check_out_link(&peer(), LinkStatus::Pending, 10));
    assert!(!vpn.check_out_link(&peer(), LinkStatus::Active, 10));
    vpn.set_link_state(&peer(), LinkState::Closed);
    vpn.mark_peer_seen(&peer(), 50);
    let snapshot = vpn.snapshot(60);
    assert_eq!(snapshot.peers[0].last_seen_ts, 50);
    assert_eq!(snapshot.peers[0].link_state, LinkState::Closed.as_str());
}

#[test]
fn counters_grow_by_packets_and_bytes() {
    let mut metrics = TrafficMetrics::new();
    assert_eq!(metrics, TrafficMetrics::default());
    metrics.count_rx(1400, 7);
    metrics.count_rx(60, 8);
    metrics.count_tx(100, 9);
    metrics.count_drop();
    assert_eq!((metrics.rx_packets, metrics.rx_bytes, metrics.last_rx_ts), (2, 1460, 8));
    assert_eq!((metrics.tx_packets, metrics.tx_bytes, metrics.last_tx_ts), (1, 100, 9));
    assert_eq!(metrics.drop_packets, 1);
    assert_eq!((metrics.rx_bps, metrics.tx_bps), (0, 0));
    metrics.rx_packets = u64::MAX;
    metrics.rx_bytes = u64::MAX;
    metrics.count_rx(5, 10);
    assert_eq!((metrics.rx_packets, metrics.rx_bytes), (0, 4));
}

#[test]
fn written_packets_are_credited() {
    let mut vpn = runtime(true, Vec::new());
    vpn.handle_peer_announce(peer(), Vec::new(), 10);
    let next = vpn.handle_link_data(Some(peer()), None, None, 20);
    assert_eq!(next, LinkDataMove::Write(Some(peer())));
    assert_eq!(vpn.metrics, TrafficMetrics::new());
    vpn.finish_link_data(Some(peer()), 1400, None, 20);
    assert_eq!((vpn.metrics.rx_packets, vpn.metrics.rx_bytes), (1, 1400));
    assert_eq!(vpn.metrics.last_rx_ts, 20);
    assert_eq!(vpn.peers[0].metrics.rx_packets, 1);
    assert_eq!(vpn.peers[0].metrics.rx_bytes, 1400);
    assert_eq!(vpn.peers[0].last_seen_ts, 20);

    let next = vpn.handle_link_data(None, None, Some(peer()), 21);
    assert_eq!(next, LinkDataMove::Write(Some(peer())));
    let next = vpn.handle_link_data(None, None, None, 21);
    assert_eq!(next, LinkDataMove::Write(None));
    vpn.finish_link_data(None, 100, None, 21);
    assert_eq!((vpn.metrics.rx_packets, vpn.metrics.rx_bytes), (2, 1500));
    assert_eq!(vpn.peers[0].metrics.rx_packets, 1);

    vpn.finish_link_data(Some(peer()), 1400, Some("closed".to_owned()), 22);
    assert_eq!(vpn.last_error.as_deref(), Some("vpn tun send: closed"));
    assert_eq!(vpn.metrics.rx_packets, 2);
    assert_eq!(vpn.peers[0].last_seen_ts, 20);
}

#[test]
fn packets_of_strangers_are_counted_as_dropped() {
    let mut vpn = runtime(true, Vec::new());
    assert_eq!(vpn.handle_link_data(Some(peer()), None, None, 20), LinkDataMove::Nothing);
    assert_eq!(vpn.metrics.drop_packets, 1);
    let mut listed = runtime(false, Vec::new());
    assert_eq!(listed.handle_link_data(None, None, None, 20), LinkDataMove::Nothing);
    assert_eq!(listed.metrics.drop_packets, 1);
    assert_eq!(listed.metrics.rx_packets, 0);
}

#[test]
fn control_frames_are_not_written_to_the_tunnel() {
    let mut vpn = runtime(true, Vec::new());
    vpn.handle_peer_announce(peer(), Vec::new(), 10);
    let routes = || CtrlFrame::Routes(vec![Some(net("172.17.0.0/24"))]);
    assert_eq!(vpn.handle_link_data(None, Some(routes()), None, 30), LinkDataMove::Nothing);
    assert!(vpn.peers[0].routes.is_empty());
    assert_eq!(vpn.peers[0].last_seen_ts, 10);
    let next = vpn.handle_link_data(Some(peer()), Some(CtrlFrame::Ping), None, 31);
    assert_eq!(next, LinkDataMove::Nothing);
    assert_eq!(vpn.peers[0].last_seen_ts, 31);
    let next = vpn.handle_link_data(Some(peer()), Some(routes()), None, 32);
    assert_eq!(next, LinkDataMove::Sync);
    assert_eq!(vpn.peers[0].routes, vec![net("172.17.0.0/24")]);
    assert_eq!(vpn.metrics, TrafficMetrics::new());
}

#[test]
fn packets_out_of_the_tunnel_are_counted() {
    let mut vpn = runtime(true, Vec::new());
    vpn.handle_peer_announce(peer(), Vec::new(), 10);
    assert!(!vpn.finish_tun_packet(TunPacketDecision::Ignore, 40, 0, 11));
    assert_eq!(vpn.metrics, TrafficMetrics::new());
    assert!(!vpn.finish_tun_packet(TunPacketDecision::Drop, 40, 0, 11));
    assert!(vpn.finish_tun_packet(TunPacketDecision::Backoff, 40, 0, 11));
    assert!(vpn.finish_tun_packet(TunPacketDecision::Send(peer()), 40, 0, 11));
    assert_eq!(vpn.metrics.drop_packets, 3);
    assert_eq!(vpn.metrics.tx_packets, 0);
    assert!(!vpn.finish_tun_packet(TunPacketDecision::Send(peer()), 40, 2, 12));
    assert_eq!((vpn.metrics.tx_packets, vpn.metrics.tx_bytes), (1, 40));
    assert_eq!(vpn.peers[0].metrics.tx_packets, 1);
    assert_eq!(vpn.peers[0].metrics.last_tx_ts, 12);
    assert_eq!(vpn.peers[0].last_seen_ts, 10);
    let snapshot = vpn.snapshot(13);
    assert_eq!((snapshot.tx_packets, snapshot.drop_packets), (1, 3));
}

#[test]
fn shared_routes_are_shown_in_the_order_of_the_peers() {
    let mut vpn = runtime(true, Vec::new());
    let other = hash("0123456789abcdef0123456789abcdef");
    vpn.handle_peer_announce(peer(), vec![net("172.20.0.0/24"), net("172.16.0.0/24")], 10);
    vpn.handle_peer_announce(other, vec![net("172.16.0.0/24")], 10);
    let snapshot = vpn.snapshot(11);
    let shown: Vec<(&str, &str)> = snapshot
        .remote_routes
        .iter()
        .map(|route| (route.network.as_str(), route.owner.as_str()))
        .collect();
    assert_eq!(
        shown,
        vec![
            ("172.16.0.0/24", "fb08aff16ec6f5ccf0d3eb179028e9c3"),
            ("172.16.0.0/24", "0123456789abcdef0123456789abcdef"),
            ("172.20.0.0/24", "fb08aff16ec6f5ccf0d3eb179028e9c3"),
        ]
    );
}

#[test]
fn ended_routes_stay_ended() {
    let mut vpn = runtime(true, Vec::new());
    vpn.handle_peer_announce(peer(), vec![net("172.16.0.0/24")], 100);
    assert!(routes_live(&vpn.peers[0], 100));
    assert!(routes_live(&vpn.peers[0], 100 + ROUTE_GRACE_SECS - 1));
    for later in [100 + ROUTE_GRACE_SECS, 200, u64::MAX] {
        assert!(!routes_live(&vpn.peers[0], later));
    }
    vpn.handle_peer_announce(peer(), Vec::new(), 300);
    assert!(!routes_live(&vpn.peers[0], 300));
}
