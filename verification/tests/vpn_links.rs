use kaonic::vpn::peer::{
    link_request_on_cooldown, out_link_needs_reset, should_reuse_existing_out_link,
    tun_tx_requires_backoff, LinkState, LinkStatus, Peer, LINK_PENDING_TIMEOUT_SECS,
    LINK_RECONNECT_COOLDOWN_SECS,
};
use kaonic::vpn::routes::AddressHash;

fn hash(text: &str) -> AddressHash {
    let mut bytes = [0u8; 16];
    hex::decode_to_slice(text, &mut bytes).unwrap();
    AddressHash { bytes }
}

#[test]
fn fresh_attempts_start_when_no_reusable_link_exists() {
    assert!(!should_reuse_existing_out_link(None));
    assert!(!should_reuse_existing_out_link(Some(LinkStatus::Closed)));
}

#[test]
fn reusable_link_states_do_not_restart_attempts() {
    assert!(should_reuse_existing_out_link(Some(LinkStatus::Pending)));
    assert!(should_reuse_existing_out_link(Some(LinkStatus::Handshake)));
    assert!(should_reuse_existing_out_link(Some(LinkStatus::Active)));
    assert!(should_reuse_existing_out_link(Some(LinkStatus::Stale)));
}

#[test]
fn stale_and_closed_links_are_left_to_transport_recovery() {
    assert!(!out_link_needs_reset(LinkStatus::Stale, 0));
    assert!(!out_link_needs_reset(LinkStatus::Closed, 0));
}

#[test]
fn pending_links_only_reset_after_timeout() {
    assert!(!out_link_needs_reset(
        LinkStatus::Pending,
        LINK_PENDING_TIMEOUT_SECS - 1
    ));
    assert!(out_link_needs_reset(
        LinkStatus::Pending,
        LINK_PENDING_TIMEOUT_SECS
    ));
    assert!(out_link_needs_reset(
        LinkStatus::Handshake,
        LINK_PENDING_TIMEOUT_SECS
    ));
}

#[test]
fn tun_tx_only_runs_without_backoff_when_link_is_active() {
    assert!(tun_tx_requires_backoff(LinkState::Configured));
    assert!(tun_tx_requires_backoff(LinkState::Pending));
    assert!(tun_tx_requires_backoff(LinkState::Closed));
    assert!(!tun_tx_requires_backoff(LinkState::Active));
}

#[test]
fn reconnect_cooldown_blocks_new_attempts_until_expiry() {
    let mut peer = Peer::new(
        hash("971a7ac9b42ce6e0faa131bb3c2e7852"),
        0x0a14_0002,
        LinkState::Closed,
    );
    peer.set_reconnect_cooldown(1_700_000_000, LINK_RECONNECT_COOLDOWN_SECS);
    let cooldown_until = peer.reconnect_cooldown_until();
    assert!(link_request_on_cooldown(
        &peer,
        cooldown_until.saturating_sub(1)
    ));
    assert!(!link_request_on_cooldown(&peer, cooldown_until));
}

#[test]
fn only_one_link_request_can_be_started_at_a_time() {
    let mut peer = Peer::new(
        hash("fb08aff16ec6f5ccf0d3eb179028e9c3"),
        0x0a14_0003,
        LinkState::Closed,
    );
    assert!(peer.try_begin_link_request());
    assert!(peer.link_request_in_flight());
    assert!(!peer.try_begin_link_request());
    peer.finish_link_request();
    assert!(!peer.link_request_in_flight());
    assert!(peer.try_begin_link_request());
}
