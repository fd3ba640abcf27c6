use kaonic::api::config::{put_vpn_access, put_vpn_routes};
use kaonic::settings::{
    codename_of_bytes, seed_of_bytes, GatewayConfig, ModuleTexts,
};
use kaonic::settings_form::GatewaySettingsDto;
use kaonic::settings_store::Database;
use kaonic::vpn::network::Ipv4Cidr;
use kaonic::vpn::routes::AddressHash;

fn net(text: &str) -> Ipv4Cidr {
    Ipv4Cidr::parse(text).unwrap()
}

fn module(name: &str) -> ModuleTexts {
    ModuleTexts {
        radio_config: format!("{name}-radio"),
        modulation: format!("{name}-modulation"),
        accelerator: format!("{name}-accelerator"),
        antenna: format!("{name}-antenna"),
    }
}

#[test]
fn codename_is_created_once_and_persisted() {
    let mut db = Database::new();

    let first = db.load_or_create_codename();
    let second = db.load_or_create_codename();

    assert_eq!(first, second);
    assert_eq!(first.len(), 8);
    assert!(first
        .chars()
        .all(|c| c.is_ascii_lowercase() || c.is_ascii_digit()));
}

#[test]
fn codename_can_be_overridden() {
    let mut db = Database::new();

    db.save_codename("abcd1234");

    assert_eq!(db.load_or_create_codename(), "abcd1234");
}

#[test]
fn codenames_are_not_all_the_same() {
    let mut first = Database::new();
    let mut second = Database::new();
    let mut third = Database::new();
    let a = first.load_or_create_codename();
    let b = second.load_or_create_codename();
    let c = third.load_or_create_codename();
    assert!(a != b || b != c);
    assert_eq!(codename_of_bytes(&[0, 25, 26, 35, 36, 1, 2, 3]).len(), 8);
}

#[test]
fn seeds_are_created_once_under_their_name() {
    let mut db = Database::new();
    let own = db.load_or_create_seed();
    let other = db.load_or_create_named_seed("atak_bridge_identity_seed");
    assert_ne!(own, other);
    assert_eq!(db.load_or_create_seed(), own);
    assert_eq!(db.load_or_create_named_seed("atak_bridge_identity_seed"), other);
    assert_eq!(seed_of_bytes(&[0, 255, 16]), "00ff10");
}

#[test]
fn missing_settings_have_usual_values() {
    let db = Database::new();
    let config = db.load_config().unwrap();
    assert_eq!(config.network, net("10.20.0.0/16"));
    assert!(config.allow_all_peers);
    assert!(config.peers.is_empty());
    assert_eq!(config.advertised_routes, vec![net("192.168.10.0/24")]);
    assert_eq!(config.announce_freq_secs, 5);
}

#[test]
fn malformed_settings_have_usual_values() {
    let mut db = Database::new();
    db.set("announce_freq_secs", "often");
    db.set("allow_all_peers", "maybe");
    db.set("advertised_routes", "no json");
    let config = db.load_config().unwrap();
    assert_eq!(config.announce_freq_secs, 5);
    assert!(config.allow_all_peers);
    assert!(config.advertised_routes.is_empty());
    db.set("network", "10.20.0.1/16");
    let err = db.load_config().unwrap_err();
    assert!(err.starts_with("invalid network '10.20.0.1/16': "));
}

#[test]
fn saved_settings_come_back() {
    let mut db = Database::new();
    let config = GatewayConfig {
        network: net("10.30.0.0/16"),
        allow_all_peers: false,
        peers: vec!["bb".to_owned(), "aa".to_owned(), "bb".to_owned()],
        advertised_routes: vec![net("172.16.0.0/24"), net("10.1.2.3/32")],
        announce_freq_secs: 42,
    };
    db.save_config(&config, &module("a"), &module("b"));
    let loaded = db.load_config().unwrap();
    assert_eq!(loaded.network, config.network);
    assert!(!loaded.allow_all_peers);
    assert_eq!(loaded.peers, vec!["aa", "bb"]);
    assert_eq!(loaded.advertised_routes, config.advertised_routes);
    assert_eq!(loaded.announce_freq_secs, 42);
    assert_eq!(
        db.get("advertised_routes").as_deref(),
        Some("[\"172.16.0.0/24\",\"10.1.2.3\"]")
    );
    assert_eq!(
        db.load_module_config(1).modulation.as_deref(),
        Some("b-modulation")
    );
    assert_eq!(
        db.load_module_config(0).antenna.as_deref(),
        Some("a-antenna")
    );
}

#[test]
fn older_radio_settings_count_for_the_first_module() {
    let mut db = Database::new();
    db.set("kaonic_ctrl_radio_config", "old");
    assert_eq!(db.load_module_config(0).radio_config.as_deref(), Some("old"));
    assert_eq!(db.load_module_config(1).radio_config, None);
    db.save_module_config(0, &module("new"));
    assert_eq!(
        db.load_module_config(0).radio_config.as_deref(),
        Some("new-radio")
    );
}

#[test]
fn the_form_shows_and_takes_settings() {
    let form = GatewaySettingsDto::default();
    assert_eq!(form.network, "10.0.0.0/24");
    let config = form.to_config().unwrap();
    let again = GatewaySettingsDto::from_config(&config);
    assert_eq!(again.network, "10.0.0.0/24");
    assert_eq!(again.advertised_routes, vec!["192.168.10.0/24"]);
    let mut wrong = GatewaySettingsDto::default();
    wrong.advertised_routes = vec!["nonsense".to_owned()];
    assert!(wrong.to_config().is_err());
}

#[test]
fn routes_are_set_through_the_interface() {
    let mut db = Database::new();
    let routes = put_vpn_routes(
        &mut db,
        &vec![" 172.16.0.0/24 ".to_owned()],
        &module("a"),
        &module("b"),
    )
    .unwrap();
    assert_eq!(routes, vec![net("172.16.0.0/24")]);
    assert_eq!(db.load_config().unwrap().advertised_routes, routes);
    let err = put_vpn_routes(
        &mut db,
        &vec![" 1.2.3.4/8 ".to_owned()],
        &module("a"),
        &module("b"),
    )
    .unwrap_err();
    assert_eq!(err.status, 400);
    assert!(err.message.starts_with("invalid route ' 1.2.3.4/8 ': "));
    assert_eq!(db.load_config().unwrap().advertised_routes, routes);
    db.set("network", "x");
    let err = put_vpn_routes(&mut db, &Vec::new(), &module("a"), &module("b")).unwrap_err();
    assert_eq!(err.status, 500);
    assert!(err
        .message
        .starts_with("failed to load config: Invalid parameter name: invalid network 'x': "));
}

#[test]
fn access_is_set_through_the_interface() {
    let mut db = Database::new();
    let first = AddressHash { bytes: [0xb0; 16] };
    let second = AddressHash { bytes: [0x0a; 16] };
    let peers = vec!["B0".to_owned(), " 0a ".to_owned(), "b0".to_owned()];
    let parsed = vec![Ok(first), Ok(second), Ok(first)];
    let list = put_vpn_access(&mut db, false, &peers, &parsed, &module("a"), &module("b")).unwrap();
    assert_eq!(list, vec!["0a".repeat(16), "b0".repeat(16)]);
    let config = db.load_config().unwrap();
    assert!(!config.allow_all_peers);
    assert_eq!(config.peers, list);
    let err = put_vpn_access(
        &mut db,
        true,
        &vec!["  ".to_owned()],
        &vec![Ok(first)],
        &module("a"),
        &module("b"),
    )
    .unwrap_err();
    assert_eq!(err.message, "peer hash is required");
    let err = put_vpn_access(
        &mut db,
        true,
        &vec![" zz ".to_owned()],
        &vec![Err("Odd".to_owned())],
        &module("a"),
        &module("b"),
    )
    .unwrap_err();
    assert_eq!(err.message, "invalid peer hash 'zz': Odd");
    assert!(!db.load_config().unwrap().allow_all_peers);
}
