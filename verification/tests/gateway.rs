use kaonic::api::error::{map_audio_error, map_network_error, AudioErrorKind, NetworkErrorKind};
use kaonic::api::ping::{parse_ping_latency, request_vpn_ping};
use kaonic::api::system::{
    build_ws_interfaces, check_service_restart, request_service_restart, request_system_reboot,
    root_ca_failure, run_systemctl,
};
use kaonic::api::vpn::{
    access_answer, get_vpn_routes, invalid_address, speed_test_error, speed_test_result,
    speed_test_url, SpeedTestFailure,
};
use kaonic::atak::{
    atak_ports, destination_name, local_address, port_tag, send_addresses, should_link,
    BridgeMetrics,
};
use kaonic::command::CommandOutput;
use kaonic::dashboard::{serial, set_serial, shown_version};
use kaonic::digest::{frame_crc32, sha256_hex};
use kaonic::frames::{
    build_frame_stats, clamp_module, compact_preview, frame_ascii_preview, frame_preview,
    push_frame, received_frame, sent_frame, FrameCounters,
};
use kaonic::http::body::{json_detail, serve_embedded};
use kaonic::http::host::{https_authority, redirect_to_https, strip_port};
use kaonic::http::proxy::{
    proxy_answer, proxy_bytes, request_url, unreadable_body, BytesReply, InstallerRequest,
};
use kaonic::http::upgrade::{
    check_program, replace_installer_binary, temporary_program, upgrade_done, upgrade_failure,
    UpgradeMove, UpgradeStep,
};
use kaonic::http::upload::{
    cache_task_panic, plugin_error_response, plugin_task_panic, read_upload_bytes, UploadEvent,
};
use kaonic::mavlink::{
    check_mavlink_control, control_mavlink_service, get_service_status, load_mavlink_snapshot,
    service_card,
};
use kaonic::plugins::error::PluginError;
use kaonic::radio::{
    check_test_frame, check_test_message, radio_label, setup_steps, test_sent_message, Accelerator,
    Antenna, BandwidthFilter, HardwareRadioConfig, Modulation, OfdmModulation, QpskModulation, RadioBand,
    RadioStep,
};
use kaonic::radio_form::{power_mark, radio_form};
use kaonic::radio_interface::{
    packet_log_summary, receive_event, transmit_event, RxEvent, RxNext, TxEvent, TxNext,
};
use kaonic::reticulum::{
    GatewayReticulum, InterfaceErrorKind, LinkEvent, LinkEventData, LinkInfo,
    RETICULUM_EVENT_BUF_SIZE,
};
use kaonic::services::{
    format_service_status, is_fresh, is_gateway_service_unit, parse_show_output,
    query_gateway_services, service_brief_name,
};
use kaonic::startup::{device_serial, should_run_webapp_only};
use kaonic::system_metrics::{
    fastest_core_mhz, fs_space_mb, parse_cpu_model, parse_hostname, parse_mem_mb, parse_os_name,
    parse_stat, read_os_details,
};
use kaonic::update::{handle_upload, make_targets, resolve_target, unknown_target, UpdateOutcome};
use kaonic::vpn::peer::LinkStatus;
use kaonic::vpn::routes::AddressHash;
use kaonic::vpn::snapshot::{VpnPeerSnapshot, VpnRouteSnapshot, VpnSnapshot};

fn output(success: bool, stdout: &str, stderr: &str) -> CommandOutput {
    CommandOutput {
        success,
        stdout: stdout.as_bytes().to_vec(),
        stderr: stderr.as_bytes().to_vec(),
    }
}

// ── Ping ─────────────────────────────────────────────────────────────────────

#[test]
fn parses_ping_latency_from_output() {
    let output = b"64 bytes from 10.20.78.77: icmp_seq=1 ttl=64 time=12.34 ms\n";
    assert_eq!(parse_ping_latency(output), Some("12.34 ms".into()));
}

#[test]
fn missing_ping_latency_returns_none() {
    let output = b"1 packets transmitted, 0 packets received, 100% packet loss\n";
    assert_eq!(parse_ping_latency(output), None);
}

#[test]
fn parses_busybox_sub_millisecond_latency() {
    let output = b"64 bytes from 10.20.78.77: seq=0 ttl=64 time<1 ms\n";
    assert_eq!(parse_ping_latency(output), Some("<1 ms".into()));
}

#[test]
fn pings_are_answered() {
    assert_eq!(parse_ping_latency(b"time=ms\n"), None);
    assert_eq!(parse_ping_latency(b"\xfftime=7ms\n"), Some("7 ms".into()));
    let answer = request_vpn_ping("10.0.0.1", &Ok(output(true, "time=1.5 ms", ""))).unwrap();
    assert!(answer.ok);
    assert_eq!(answer.latency.as_deref(), Some("1.5 ms"));
    let answer = request_vpn_ping("10.0.0.1", &Ok(output(false, "time=1.5 ms", ""))).unwrap();
    assert!(!answer.ok);
    assert_eq!(answer.latency, None);
    let err = request_vpn_ping("10.0.0.1", &Err("no ping".to_owned())).unwrap_err();
    assert_eq!(err.status, 502);
    assert_eq!(err.message, "failed to execute ping 10.0.0.1: no ping");
}

// ── System requests ──────────────────────────────────────────────────────────

#[test]
fn reboots_and_restarts_are_answered() {
    assert_eq!(
        request_system_reboot(&Ok(output(true, "", ""))).unwrap(),
        "Reboot requested"
    );
    let err = request_system_reboot(&Ok(output(false, "", ""))).unwrap_err();
    assert_eq!((err.status, err.message.as_str()), (500, "systemctl reboot failed"));
    let err = request_system_reboot(&Err("x".to_owned())).unwrap_err();
    assert_eq!(err.message, "failed to execute systemctl reboot: x");
    assert_eq!(
        request_service_restart("a.service", &Ok(output(true, "", ""))).unwrap(),
        "Restart requested for a.service"
    );
    let err = request_service_restart("a.service", &Ok(output(false, "out", " err \n")))
        .unwrap_err();
    assert_eq!(err.message, "err");
    let err = request_service_restart("a.service", &Ok(output(false, " out ", " \n")))
        .unwrap_err();
    assert_eq!(err.message, "out");
    assert!(check_service_restart("kaonic-gateway.service").is_ok());
    assert_eq!(check_service_restart("sshd.service").unwrap_err().status, 400);
    assert!(run_systemctl("stop", "a.service", &Ok(output(true, "", ""))).is_ok());
    assert_eq!(
        run_systemctl("stop", "a.service", &Ok(output(false, "", ""))).unwrap_err(),
        "systemctl stop a.service failed"
    );
    assert_eq!(
        run_systemctl("stop", "a.service", &Err("x".to_owned())).unwrap_err(),
        "failed to execute systemctl stop a.service: x"
    );
    let err = root_ca_failure("/ca.pem", "gone", true);
    assert_eq!(err.status, 404);
    assert_eq!(err.message, "failed to read root CA certificate /ca.pem: gone");
    let addresses = build_ws_interfaces(Some("192.168.1.2".to_owned()), None);
    assert_eq!(addresses.wlan0_ip.as_deref(), Some("192.168.1.2"));
    assert_eq!(addresses.usb0_ip, None);
}

#[test]
fn errors_have_their_status() {
    assert_eq!(map_audio_error(AudioErrorKind::InvalidVolume), 400);
    assert_eq!(map_audio_error(AudioErrorKind::NotFound), 404);
    assert_eq!(map_audio_error(AudioErrorKind::CommandIo), 500);
    assert_eq!(
        map_network_error(NetworkErrorKind::InvalidSsid, "x".to_owned()).status,
        400
    );
    assert_eq!(
        map_network_error(NetworkErrorKind::TaskJoin, "x".to_owned()).status,
        500
    );
}

// ── VPN requests ─────────────────────────────────────────────────────────────

fn vpn_snapshot() -> VpnSnapshot {
    VpnSnapshot {
        local_tunnel_ip: Some("10.20.0.1".to_owned()),
        local_routes: vec!["192.168.10.0/24".to_owned()],
        peers: vec![VpnPeerSnapshot {
            tunnel_ip: Some("10.20.0.7".to_owned()),
            ..VpnPeerSnapshot::default()
        }],
        remote_routes: vec![
            VpnRouteSnapshot {
                network: "a".to_owned(),
                installed: true,
                ..VpnRouteSnapshot::default()
            },
            VpnRouteSnapshot {
                network: "b".to_owned(),
                installed: false,
                ..VpnRouteSnapshot::default()
            },
        ],
        ..VpnSnapshot::default()
    }
}

#[test]
fn routes_of_the_vpn_are_shown() {
    let answer = get_vpn_routes(&vpn_snapshot());
    assert_eq!(answer.tunnel_ip.as_deref(), Some("10.20.0.1"));
    assert_eq!(answer.exported_routes, vec!["192.168.10.0/24"]);
    assert_eq!(answer.remote_installed, vec!["a"]);
    assert_eq!(
        access_answer(true, Vec::new()).status,
        "VPN access updated (allow all peers)"
    );
    assert_eq!(
        access_answer(false, Vec::new()).status,
        "VPN access updated (allowlist only)"
    );
    assert_eq!(
        invalid_address("x", "eh").message,
        "invalid IPv4 address 'x': eh"
    );
}

#[test]
fn speed_tests_need_a_peer() {
    let snapshot = vpn_snapshot();
    assert_eq!(
        speed_test_url(Some(&snapshot), "10.20.0.7").unwrap(),
        "https://10.20.0.7/"
    );
    assert_eq!(
        speed_test_url(Some(&snapshot), "10.20.0.8").unwrap_err().status,
        404
    );
    assert_eq!(speed_test_url(None, "10.20.0.7").unwrap_err().status, 503);
    let result = speed_test_result(1000, 8);
    assert_eq!((result.duration_ms, result.bps), (8, 1_000_000));
    let result = speed_test_result(1, 0);
    assert_eq!((result.duration_ms, result.bps), (1, 8000));
    let err = speed_test_error(SpeedTestFailure::Status("404 Not Found".to_owned()));
    assert_eq!((err.status, err.message.as_str()), (502, "speed-test returned 404 Not Found"));
    let err = speed_test_error(SpeedTestFailure::ReadRootCa("x".to_owned()));
    assert_eq!(err.status, 500);
}

// ── HTTP ─────────────────────────────────────────────────────────────────────

#[test]
fn plain_requests_are_sent_on() {
    assert_eq!(strip_port("example.org:8080"), "example.org");
    assert_eq!(strip_port("example.org"), "example.org");
    assert_eq!(strip_port("[::1]:80"), "[::1]");
    assert_eq!(strip_port("[::1"), "[::1");
    assert_eq!(strip_port("::1"), "::1");
    assert_eq!(https_authority(Some("h:80"), "1.2.3.4", 443), "h");
    assert_eq!(https_authority(Some("h:80"), "1.2.3.4", 8443), "h:8443");
    assert_eq!(https_authority(None, "1.2.3.4", 443), "1.2.3.4");
    assert_eq!(
        redirect_to_https(Some("h"), "1.2.3.4", 443, "/a?b=c"),
        "https://h/a?b=c"
    );
}

#[test]
fn details_are_escaped() {
    assert_eq!(json_detail("ok"), "{\"detail\":\"ok\"}");
    assert_eq!(
        json_detail("a\"b\\c\n\t\u{8}\u{c}\r\u{1}\u{1f}\u{7f}é"),
        "{\"detail\":\"a\\\"b\\\\c\\n\\t\\b\\f\\r\\u0001\\u001f\u{7f}é\"}"
    );
}

#[test]
fn assets_have_their_type() {
    let asset = serve_embedded("style.css", Some(vec![1])).unwrap();
    assert_eq!(asset.content_type, "text/css");
    assert_eq!(asset.content, vec![1]);
    let asset = serve_embedded("kaonic-logo.SVG", Some(vec![])).unwrap();
    assert_eq!(asset.content_type, "image/svg+xml");
    let asset = serve_embedded("LICENSE", Some(vec![])).unwrap();
    assert_eq!(asset.content_type, "application/octet-stream");
    assert!(serve_embedded("style.css", None).is_none());
}

#[test]
fn requests_are_handed_on_to_the_installer() {
    assert_eq!(
        request_url(&InstallerRequest::List),
        "http://127.0.0.1:8682/api/plugins"
    );
    assert_eq!(
        request_url(&InstallerRequest::Restart("p".to_owned())),
        "http://127.0.0.1:8682/api/plugins/p/restart"
    );
    assert_eq!(
        request_url(&InstallerRequest::Delete("p".to_owned())),
        "http://127.0.0.1:8682/api/plugins/p"
    );
    let answer = proxy_answer(Ok((404, Some("no".to_owned()))));
    assert_eq!((answer.status, answer.body.as_str()), (404, "no"));
    let answer = proxy_answer(Ok((7, None)));
    assert_eq!((answer.status, answer.body.as_str()), (500, ""));
    let answer = proxy_answer(Err("refused".to_owned()));
    assert_eq!(answer.status, 502);
    assert_eq!(
        answer.body,
        "{\"detail\":\"kaonic-installer unreachable: refused\"}"
    );
    assert_eq!(unreadable_body("x").body, "failed to read body: x");
    let bytes = proxy_bytes(BytesReply::Full(200, None, vec![9])).unwrap();
    assert_eq!(bytes.content_type, "application/octet-stream");
    let answer = proxy_bytes(BytesReply::Broken("eof".to_owned())).unwrap_err();
    assert_eq!(answer.body, "{\"detail\":\"read plugin icon body: eof\"}");
    let answer = proxy_bytes(BytesReply::Unreachable("x".to_owned())).unwrap_err();
    assert_eq!(answer.status, 502);
}

#[test]
fn upgrades_clean_up_after_themselves() {
    assert_eq!(check_program(Ok(Vec::new())).unwrap_err().status, 400);
    assert_eq!(
        check_program(Err("x".to_owned())).unwrap_err().body,
        "{\"detail\":\"failed to read replacement binary: x\"}"
    );
    assert_eq!(check_program(Ok(vec![1])).unwrap(), vec![1]);
    assert_eq!(
        temporary_program("/usr/bin"),
        "/usr/bin/.kaonic-installer.upgrade.tmp"
    );
    let mut step = UpgradeStep::Write;
    let mut steps = 1;
    while let UpgradeMove::Go(next) = replace_installer_binary(step, true) {
        step = next;
        steps += 1;
    }
    assert_eq!(steps, 5);
    assert_eq!(replace_installer_binary(step, true), UpgradeMove::Done);
    assert_eq!(
        replace_installer_binary(UpgradeStep::Replace, false),
        UpgradeMove::Fail { start_service: true, remove_temporary: true }
    );
    assert_eq!(
        replace_installer_binary(UpgradeStep::Write, false),
        UpgradeMove::Fail { start_service: false, remove_temporary: false }
    );
    assert_eq!(
        upgrade_failure(UpgradeStep::Replace, "/usr/bin/kaonic-installer", "busy").body,
        "{\"detail\":\"replace installer binary /usr/bin/kaonic-installer: busy\"}"
    );
    assert_eq!(upgrade_done().status, 200);
}

#[test]
fn uploads_have_one_field() {
    assert_eq!(read_upload_bytes(UploadEvent::Field(vec![4])).unwrap(), vec![4]);
    assert_eq!(
        read_upload_bytes(UploadEvent::End).unwrap_err().body,
        "{\"detail\":\"no file uploaded\"}"
    );
    assert_eq!(
        read_upload_bytes(UploadEvent::Unreadable("x".to_owned())).unwrap_err().body,
        "{\"detail\":\"read error: x\"}"
    );
    assert_eq!(
        read_upload_bytes(UploadEvent::Malformed("x".to_owned())).unwrap_err().body,
        "{\"detail\":\"multipart error: x\"}"
    );
    let answer = plugin_error_response(&PluginError::not_found("gone".to_owned()));
    assert_eq!((answer.status, answer.body.as_str()), (404, "{\"detail\":\"gone\"}"));
    assert_eq!(plugin_task_panic("x").status, 500);
    assert_eq!(cache_task_panic("x").detail, "plugin cache task panic: x");
}

#[test]
fn programs_are_updated_by_name() {
    let (commd, gateway) = make_targets("/etc/kaonic", "/usr/bin");
    assert_eq!(commd.bin_path, "/usr/bin/kaonic-commd");
    assert_eq!(gateway.service, "kaonic-gateway.service");
    assert_eq!(
        resolve_target(&commd, &gateway, "gateway").unwrap().name,
        "gateway"
    );
    assert!(resolve_target(&commd, &gateway, "factory").is_none());
    assert_eq!(unknown_target().status, 404);
    assert_eq!(handle_upload(UpdateOutcome::Made("done".to_owned())).status, 200);
    assert_eq!(
        handle_upload(UpdateOutcome::Broken("x".to_owned())).body,
        "{\"detail\":\"task panic: x\"}"
    );
}

// ── MAVLink ──────────────────────────────────────────────────────────────────

#[test]
fn mavlink_services_are_controlled() {
    assert!(check_mavlink_control("rns-mavlink-fc.service", "restart").is_ok());
    assert_eq!(
        check_mavlink_control("sshd.service", "explode").unwrap_err(),
        "Invalid service name"
    );
    assert_eq!(
        check_mavlink_control("rns-mavlink-gc.service", "explode").unwrap_err(),
        "Invalid action"
    );
    assert_eq!(
        control_mavlink_service(&Ok(output(false, "", "no\n"))).unwrap_err(),
        "systemctl command failed: no\n"
    );
    assert_eq!(
        control_mavlink_service(&Err("x".to_owned())).unwrap_err(),
        "Failed to execute systemctl"
    );
    let status = get_service_status(
        &Ok(output(true, "", "")),
        &Ok(output(false, "", "")),
        &Ok(output(true, "unit\n   Active: active (running)\n", "")),
    )
    .unwrap();
    assert_eq!(status.status_text, "Active: active (running)");
    let card = service_card(&status);
    assert_eq!((card.badge, card.mark), ("Disabled", "●"));
    let unknown = get_service_status(
        &Ok(output(false, "", "")),
        &Ok(output(false, "", "")),
        &Ok(output(false, "", "")),
    )
    .unwrap();
    assert_eq!(unknown.status_text, "Active: unknown");
    let snapshot = load_mavlink_snapshot(Ok(status), Ok(unknown)).unwrap();
    assert!(snapshot.fc.active && !snapshot.gc.active);
    let err = get_service_status(
        &Ok(output(true, "", "")),
        &Err("x".to_owned()),
        &Ok(output(true, "", "")),
    )
    .unwrap_err();
    assert_eq!(err, "Failed to check service enabled: x");
}

// ── ATAK ─────────────────────────────────────────────────────────────────────

#[test]
fn bridges_find_their_fellows() {
    let ports = atak_ports();
    assert_eq!(ports[0].port, 6969);
    assert_eq!(ports[1].group, [224, 10, 10, 1]);
    assert_eq!(port_tag(6969), 6969u16.to_be_bytes());
    assert_eq!(destination_name(17012), "atak.17012");
    let own = AddressHash { bytes: [1; 16] };
    let peer = AddressHash { bytes: [2; 16] };
    let tag = port_tag(6969);
    assert!(should_link(6969, &own, &tag, &peer, false));
    assert!(!should_link(6969, &own, &tag, &peer, true));
    assert!(!should_link(6969, &own, &tag, &own, false));
    assert!(!should_link(17012, &own, &tag, &peer, false));
    let addresses = vec![
        None,
        Some([127, 0, 0, 1]),
        Some([10, 0, 0, 1]),
        Some([192, 168, 10, 1]),
    ];
    assert_eq!(local_address(&addresses), [192, 168, 10, 1]);
    assert_eq!(local_address(&vec![None]), [0, 0, 0, 0]);
    assert_eq!(
        send_addresses(&addresses),
        vec![[10, 0, 0, 1], [192, 168, 10, 1]]
    );
    let mut metrics = BridgeMetrics::new();
    metrics.count_rx();
    metrics.count_tx();
    metrics.count_tx();
    assert_eq!((metrics.rx_packets, metrics.tx_packets), (1, 2));
}

// ── Radio ────────────────────────────────────────────────────────────────────

fn ofdm() -> OfdmModulation {
    OfdmModulation { mcs: 6, opt: 0, pdt: 3, tx_power: 10 }
}

#[test]
fn only_the_upper_band_switches_antennas() {
    let mut module = HardwareRadioConfig::with_defaults(BandwidthFilter::Narrow, ofdm()).module(0).unwrap();
    assert!(HardwareRadioConfig::with_defaults(BandwidthFilter::Narrow, ofdm()).module(2).is_none());
    let steps = setup_steps(&module);
    assert!(!steps.iter().any(|step| matches!(step, RadioStep::SetAntenna(_))));
    module.radio_config.freq_hz = 2_450_000_000;
    assert_eq!(module.band(), RadioBand::Band24);
    let steps = setup_steps(&module);
    assert!(steps.iter().any(|step| matches!(step, RadioStep::SetAntenna(_))));
}

#[test]
fn test_messages_are_checked() {
    assert_eq!(check_test_message(0, " hi ").unwrap(), "hi");
    assert_eq!(check_test_message(2, "hi").unwrap_err().status, 404);
    assert_eq!(
        check_test_message(1, "  ").unwrap_err().reason,
        "message is required"
    );
    assert_eq!(
        check_test_message(1, &"x".repeat(2048)).unwrap_err().reason,
        "message exceeds 2047 characters"
    );
    assert_eq!(test_sent_message(1), "Sent test frame on Radio B");
    assert_eq!(radio_label(5), "Radio");
    assert!(check_test_frame(0, b"hi", 2048, true).is_ok());
    assert_eq!(
        check_test_frame(0, b"hi", 2048, false).unwrap_err(),
        "radio backend unavailable"
    );
    assert_eq!(
        check_test_frame(0, b"hi!", 2, true).unwrap_err(),
        "message exceeds 2 bytes"
    );
}

#[test]
fn forms_show_radio_modules() {
    let mut module = HardwareRadioConfig::with_defaults(BandwidthFilter::Narrow, ofdm()).module(1).unwrap();
    let qpsk = QpskModulation { fchip: 1, mode: 2, tx_power: 3 };
    module.modulation = Modulation::Qpsk(qpsk);
    module.accelerator = Accelerator::Hardware;
    module.antenna = Antenna::External;
    let form = radio_form(1, &module, ofdm(), QpskModulation { fchip: 0, mode: 0, tx_power: 0 });
    assert_eq!(form.label, "Radio B");
    assert_eq!(form.modulation, "QPSK");
    assert_eq!(form.accelerator, "Hardware");
    assert_eq!(form.antenna, "External");
    assert_eq!(form.ofdm, ofdm());
    assert_eq!(form.qpsk, qpsk);
    assert_eq!(power_mark(22).class, "tx-value tx-high");
    assert_eq!(power_mark(21).class, "tx-value");
    assert_eq!(power_mark(10).text, "10 dBm");
}

#[test]
fn received_packets_are_delivered_or_reported() {
    assert_eq!(receive_event(0, RxEvent::Frame { module: 1 }).next, RxNext::Wait);
    assert_eq!(receive_event(0, RxEvent::Frame { module: 0 }).next, RxNext::Decode);
    let decision = receive_event(0, RxEvent::Decoded { ok: false });
    assert_eq!(decision.error, Some(InterfaceErrorKind::RxLdpcDecode));
    let decision = receive_event(0, RxEvent::Assembled { readable: true });
    assert!(decision.deliver);
    assert_eq!(decision.next, RxNext::Assemble);
    let decision = receive_event(0, RxEvent::Assembled { readable: false });
    assert_eq!(decision.error, Some(InterfaceErrorKind::RxDeserialize));
    assert_eq!(decision.next, RxNext::Assemble);
    assert_eq!(receive_event(0, RxEvent::TryAgain).error, None);
    assert_eq!(
        receive_event(0, RxEvent::Broken).error,
        Some(InterfaceErrorKind::RxReassembly)
    );
}

#[test]
fn frames_are_sent_until_one_fails() {
    assert_eq!(transmit_event(TxEvent::Serialized { ok: true }).next, TxNext::Encode);
    let decision = transmit_event(TxEvent::Serialized { ok: false });
    assert_eq!(decision.error, Some(InterfaceErrorKind::TxSerialize));
    assert_eq!(
        transmit_event(TxEvent::Encoded { frames: Some(3) }).next,
        TxNext::Send(0)
    );
    assert_eq!(
        transmit_event(TxEvent::Encoded { frames: None }).error,
        Some(InterfaceErrorKind::TxLdpcEncode)
    );
    let decision = transmit_event(TxEvent::Sent { index: 0, frames: 3, ok: true });
    assert!(decision.observe);
    assert_eq!(decision.next, TxNext::Send(1));
    let decision = transmit_event(TxEvent::Sent { index: 2, frames: 3, ok: true });
    assert_eq!(decision.next, TxNext::Yield);
    let decision = transmit_event(TxEvent::Sent { index: 1, frames: 3, ok: false });
    assert_eq!(decision.error, Some(InterfaceErrorKind::TxTransmit));
    assert!(!decision.observe);
    assert_eq!(decision.next, TxNext::Wait);
    assert_eq!(
        packet_log_summary("Data", "None", "ab", 12),
        "type=Data ctx=None dst=ab len=12"
    );
}

// ── Frames ───────────────────────────────────────────────────────────────────

#[test]
fn frames_are_shown_in_short() {
    let data: Vec<u8> = (0x41..0x61).collect();
    assert_eq!(
        frame_preview(&data),
        "41 42 43 44 45 46 47 48 49 4a 4b 4c 4d 4e 4f 50"
    );
    assert_eq!(compact_preview(&data), "4142434445464748494a4b4c");
    assert_eq!(frame_ascii_preview(b"a\x00b\x7f"), "a.b.");
    assert_eq!(frame_crc32(b"123456789"), "cbf43926");
    assert_eq!(frame_crc32(b""), "00000000");
    assert_eq!(
        sha256_hex(b""),
        "e3b0c44298fc1c149afbf4c8996fb92427ae41e4649b934ca495991b7852b855"
    );
    assert_eq!(clamp_module(7), 1);
}

#[test]
fn newest_frames_stay() {
    let mut frames = Vec::new();
    push_frame(&mut frames, received_frame(0, -70, 2, b"ab", 1), 2);
    push_frame(&mut frames, sent_frame(3, b"cd", 2), 2);
    push_frame(&mut frames, received_frame(0, -71, 2, b"ef", 3), 2);
    let seen: Vec<(u64, &str, usize)> = frames
        .iter()
        .map(|f| (f.ts, f.direction.as_str(), f.module))
        .collect();
    assert_eq!(seen, vec![(3, "rx", 0), (2, "tx", 1)]);
    assert_eq!(frames[0].hex, "65 66");
    let mut counters = FrameCounters {
        rx_frames: 0,
        rx_bytes: 0,
        tx_frames: 0,
        tx_bytes: 0,
        last_rssi: 0,
    };
    assert_eq!(build_frame_stats(&counters, 0, 0).last_rssi, None);
    counters.count_received(-70, 10);
    counters.count_sent(5);
    let stats = build_frame_stats(&counters, 3, 4);
    assert_eq!(stats.last_rssi, Some(-70));
    assert_eq!((stats.rx_bytes, stats.tx_bytes), (10, 5));
    assert_eq!((stats.rx_bps, stats.tx_bps), (3, 4));
}

// ── Reticulum ────────────────────────────────────────────────────────────────

#[test]
fn links_and_errors_are_counted() {
    let mut tracker = GatewayReticulum::new();
    tracker.record_interface_error(0, InterfaceErrorKind::RxReassembly, 5);
    tracker.record_interface_error(1, InterfaceErrorKind::TxTransmit, 6);
    let stats = &tracker.interface_stats;
    assert_eq!((stats.rx_errors, stats.tx_errors), (1, 1));
    assert_eq!(stats.rx_reassembly_errors, 1);
    let event = |event| LinkEventData {
        id: "l".to_owned(),
        destination: "d".to_owned(),
        event,
    };
    let link = Some(LinkInfo {
        id: "l".to_owned(),
        destination: "d".to_owned(),
        status: LinkStatus::Active,
        rtt_ms: 12,
    });
    tracker.handle_link_event(true, &event(LinkEvent::Activated), &link, 7);
    tracker.handle_link_event(true, &event(LinkEvent::Data(100)), &link, 8);
    tracker.handle_link_event(false, &event(LinkEvent::Closed), &None, 9);
    let snapshot = tracker.snapshot();
    assert_eq!(snapshot.incoming_links.len(), 1);
    assert_eq!(snapshot.incoming_links[0].bytes, 100);
    assert_eq!(snapshot.incoming_links[0].packets, 1);
    assert_eq!(snapshot.outgoing_links.len(), 1);
    assert_eq!(snapshot.events[0].ts, 9);
    for i in 0..2 * RETICULUM_EVENT_BUF_SIZE as u64 {
        tracker.handle_announce("d".to_owned(), 3, 100 + i);
    }
    assert_eq!(tracker.snapshot().events.len(), RETICULUM_EVENT_BUF_SIZE);
    tracker.handle_received_data("d".to_owned(), 3, 5000);
    assert_eq!(tracker.snapshot().events[0].ts, 5000);
}

// ── Services and system ──────────────────────────────────────────────────────

#[test]
fn services_are_reported() {
    assert!(is_gateway_service_unit("kaonic-gateway.service"));
    assert!(!is_gateway_service_unit("sshd.service"));
    assert_eq!(format_service_status("loaded", "active", "running"), "active (running)");
    assert!(!service_brief_name("kaonic-gateway.service").is_empty());
    let services = parse_show_output(
        "Id=kaonic-gateway.service\nLoadState=loaded\nActiveState=active\nSubState=running\n",
    );
    let gateway = services
        .iter()
        .find(|service| service.unit == "kaonic-gateway.service")
        .unwrap();
    assert_eq!(gateway.active_state, "active");
    let failed = query_gateway_services(&Err("x".to_owned()));
    assert_eq!(failed.len(), services.len());
    assert!(is_fresh(1000, 1000));
    assert!(!is_fresh(0, 1_000_000));
}

#[test]
fn the_system_is_measured() {
    assert_eq!(
        parse_mem_mb("MemTotal:  2048 kB\nMemFree: 1 kB\nMemAvailable: 1024 kB\n"),
        (1, 2)
    );
    assert_eq!(fs_space_mb(4096, 512, 1024, 512), (2, 4));
    assert_eq!(parse_hostname(" box \n"), "box");
    assert_eq!(parse_hostname("\n"), "Unknown");
    assert_eq!(parse_cpu_model("processor : 0\nmodel name : Cortex\n"), "Cortex");
    assert_eq!(
        fastest_core_mhz(&vec!["800000\n".to_owned(), "1200000\n".to_owned()]),
        Some(1200)
    );
    assert_eq!(fastest_core_mhz(&vec!["x".to_owned()]), None);
    assert_eq!(parse_stat("cpu  1 2 3 4 5 6\n"), Some((4, 21)));
    assert_eq!(
        parse_os_name("NAME=x\nPRETTY_NAME=\"Debian 12\"\n").as_deref(),
        Some("Debian 12")
    );
    assert!(read_os_details("Debian".to_owned(), "Kernel 6".to_owned()).contains("Kernel 6"));
}

#[test]
fn starting_goes_by_the_environment() {
    assert!(should_run_webapp_only(Some(" YES "), true, true));
    assert!(!should_run_webapp_only(Some("0"), false, false));
    assert!(!should_run_webapp_only(None, true, true));
    assert!(should_run_webapp_only(None, true, false));
    assert!(should_run_webapp_only(None, false, true));
    assert_eq!(device_serial(Some(" K1 \n")), "K1");
    assert_eq!(device_serial(None), "unknown");
    let mut slot = None;
    assert_eq!(serial(&slot), "unknown");
    set_serial(&mut slot, "K1".to_owned());
    set_serial(&mut slot, "K2".to_owned());
    assert_eq!(serial(&slot), "K1");
    assert_eq!(shown_version(None, "1.0"), "1.0");
    assert_eq!(shown_version(Some("2.0".to_owned()), "1.0"), "2.0");
}

#[test]
fn error_counts_stop_at_their_end() {
    let mut tracker = GatewayReticulum::new();
    tracker.record_interface_error(0, InterfaceErrorKind::RxDeserialize, 1);
    tracker.record_interface_error(0, InterfaceErrorKind::RxLdpcDecode, 2);
    let stats = tracker.snapshot().interface_stats;
    assert_eq!(
        stats.rx_errors,
        stats.rx_ldpc_errors + stats.rx_reassembly_errors + stats.rx_deserialize_errors
    );
    tracker.interface_stats.rx_errors = u64::MAX;
    tracker.interface_stats.rx_ldpc_errors = u64::MAX - 1;
    tracker.record_interface_error(1, InterfaceErrorKind::RxReassembly, 3);
    tracker.record_interface_error(1, InterfaceErrorKind::TxSerialize, 4);
    let snapshot = tracker.snapshot();
    assert_eq!(snapshot.interface_stats.rx_errors, u64::MAX);
    assert_eq!(snapshot.interface_stats.tx_errors, 1);
    assert_eq!(snapshot.interface_stats.tx_serialize_errors, 1);
    assert_eq!(snapshot.events[0].details, "module 1: tx serialize");
}
