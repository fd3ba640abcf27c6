use kaonic::command::CommandOutput;
use kaonic::plugins::built_in::{
    binary_of_target, make_core_targets, sync_core_plugin, CoreFacts, CorePluginSpec,
    ManifestFile, Target,
};
use kaonic::plugins::discovery::{
    discover_plugin_record, evaluate_official, is_plugin_entry, plan_discovery, plan_recovery,
    reconcile_plugin_bin_path, recovery_action, DiscoveryFacts, RecoveryAction, SignatureCheck,
};
use kaonic::plugins::error::PluginError;
use kaonic::plugins::install::{
    install_custom_files, install_message, install_plugin, installed_record, place_path,
    plan_install, InstallFacts, InstallStep, Place,
};
use kaonic::plugins::links::{
    install_bin_path, prepare_bin_path_rollback, remove_managed_symlink, restore_bin_path,
    LinkState,
};
use kaonic::plugins::manifest::PluginManifest;
use kaonic::plugins::package::{PluginPackage, PluginPackageFile};
use kaonic::plugins::records::{
    build_plugin_summaries, first_available_timestamp, latest_available_timestamp, PluginRecord,
    StatusCache,
};
use kaonic::plugins::requests::{
    check_update_target, control_plugin, delete_plugin, locate_plugin_icon, read_plugin_icon,
    upload_plugin_update, UpdateRoute,
};
use kaonic::plugins::rollback::{
    prepare_rollback, rollback_install, service_aftermath, Spot, Step,
};
use kaonic::plugins::schema::missing_columns;
use kaonic::plugins::start::{
    initialize_store, reconcile_plugin_bin_paths, sync_core_plugins, StartFailure,
};
use kaonic::plugins::store::{discover_plugins, FoundEntry, PluginStore};
use kaonic::plugins::systemd::{
    parse_service_report, parse_systemd_number, read_service_systemd_status, PluginAction,
};
use rusqlite::Connection;
use sha2::{Digest, Sha256};
use std::collections::HashMap;

const BINARY: &[u8] = b"#!/bin/sh\nexit 0\n";

fn digest(bytes: &[u8]) -> String {
    hex::encode(Sha256::digest(bytes))
}

fn manifest() -> PluginManifest {
    PluginManifest {
        name: "Sample".to_owned(),
        description: "Sample plugin".to_owned(),
        version: "0.1.0".to_owned(),
        service: "kaonic-plugin-sample.service".to_owned(),
        developer: "Beechat".to_owned(),
        channel: Some("stable".to_owned()),
        github_url: None,
        webview: Some(8780),
        tls: false,
        icon: None,
        symlink: None,
    }
}

fn record(id: &str) -> PluginRecord {
    PluginRecord {
        id: id.to_owned(),
        name: "Sample".to_owned(),
        description: "Sample plugin".to_owned(),
        version: "0.1.0".to_owned(),
        service: format!("{id}.service"),
        developer: "Beechat".to_owned(),
        channel: Some("stable".to_owned()),
        github_url: None,
        webview: None,
        tls: false,
        icon: None,
        binary_name: id.to_owned(),
        bin_path: None,
        sha256: "ab".repeat(32),
        install_dir: format!("/plugins/{id}"),
        package_path: format!("/plugins/{id}/package.zip"),
        official: false,
        enabled: true,
        removable: true,
        target_name: None,
        installed_at: 1,
        updated_at: 1,
    }
}

fn found_files(binary: &[u8], checksum: &str) -> DiscoveryFacts {
    DiscoveryFacts {
        tls_files: Ok(()),
        has_binary: true,
        has_service: true,
        has_checksum: true,
        binary: Ok(binary.to_vec()),
        checksum: Ok(format!("{checksum}\n")),
        signature: None,
    }
}

fn discover(dir: &str, manifest: PluginManifest, facts: &DiscoveryFacts) -> Result<PluginRecord, PluginError> {
    discover_plugin_record(
        dir,
        &ManifestFile::Read(manifest),
        facts,
        Ok(false),
        true,
        &vec![Some(5), None, Some(9)],
        100,
    )
}

fn package() -> PluginPackage {
    PluginPackage {
        manifest: manifest(),
        manifest_raw: "raw".to_owned(),
        id: "kaonic-plugin-sample".to_owned(),
        binary_name: "kaonic-plugin-sample".to_owned(),
        service_name: "kaonic-plugin-sample.service".to_owned(),
        bin_path: None,
        sha256: digest(BINARY),
        binary_bytes: BINARY.to_vec(),
        service_bytes: b"[Service]\n".to_vec(),
        custom_files: Vec::new(),
        signature_bytes: None,
    }
}

// ── Targets and built-in plugins ─────────────────────────────────────────────

#[test]
fn core_targets_include_factory() {
    let targets = make_core_targets("/etc/kaonic", "/usr/bin", "/etc/kaonic/plugins");
    let factory = targets
        .iter()
        .find(|target| target.name == "factory")
        .expect("factory target registered");

    assert_eq!(factory.service, "kaonic-factory.service");
    assert_eq!(factory.symlink_path, "/usr/bin/kaonic-factory");
    assert_eq!(
        factory.binary_path,
        "/etc/kaonic/plugins/kaonic-factory/current/kaonic-factory"
    );
}

fn gateway_target() -> Target {
    Target {
        name: "gateway".to_owned(),
        symlink_path: "/usr/bin/kaonic-gateway".to_owned(),
        binary_path: "/plugins/kaonic-gateway/current/kaonic-gateway".to_owned(),
        service: "kaonic-gateway.service".to_owned(),
        meta_dir: "/meta".to_owned(),
    }
}

fn gateway_manifest() -> PluginManifest {
    PluginManifest {
        name: "Gateway From Manifest".to_owned(),
        description: "Loaded from kaonic-plugin.toml".to_owned(),
        version: "0.9.0".to_owned(),
        service: "kaonic-gateway.service".to_owned(),
        developer: "Manifest Dev".to_owned(),
        channel: Some("stable".to_owned()),
        github_url: Some("https://example.invalid/gateway".to_owned()),
        webview: Some(8085),
        tls: false,
        icon: None,
        symlink: Some("/usr/bin/kaonic-gateway".to_owned()),
    }
}

fn gateway_facts() -> CoreFacts {
    CoreFacts {
        tls_files: Ok(()),
        version: Some("1.2.3\n".to_owned()),
        checksum: Some("abcd\n".to_owned()),
        binary: Some(b"gateway".to_vec()),
        times: vec![Some(7), Some(3), None],
        now: 50,
        enabled: false,
    }
}

#[test]
fn syncs_built_in_plugin_metadata_from_manifest_file() {
    let spec = CorePluginSpec::new(gateway_target(), "/plugins");
    let record = sync_core_plugin(
        &spec,
        Some(ManifestFile::Read(gateway_manifest())),
        &gateway_facts(),
    )
    .unwrap()
    .unwrap();
    assert_eq!(record.name, "Gateway From Manifest");
    assert_eq!(record.description, "Loaded from kaonic-plugin.toml");
    assert_eq!(record.developer, "Manifest Dev");
    assert_eq!(record.channel.as_deref(), Some("stable"));
    assert_eq!(
        record.github_url.as_deref(),
        Some("https://example.invalid/gateway")
    );
    assert_eq!(record.bin_path.as_deref(), Some("/usr/bin/kaonic-gateway"));
    assert_eq!(record.webview, Some(8085));
    assert_eq!(record.version, "1.2.3");
    assert_eq!(record.sha256, "abcd");
    assert_eq!(record.installed_at, 3);
    assert_eq!(record.updated_at, 7);
    assert_eq!(record.target_name.as_deref(), Some("gateway"));
    assert!(!record.removable);
}

#[test]
fn built_in_plugins_must_fit_their_target() {
    assert_eq!(binary_of_target(&gateway_target()), "kaonic-gateway");
    let spec = CorePluginSpec::new(gateway_target(), "/plugins");
    assert!(sync_core_plugin(&spec, None, &gateway_facts())
        .unwrap()
        .is_none());

    let mut other = gateway_manifest();
    other.symlink = None;
    let err = sync_core_plugin(&spec, Some(ManifestFile::Read(other)), &gateway_facts())
        .unwrap_err();
    assert_eq!(err.status, 400);
    assert_eq!(
        err.detail,
        "built-in plugin manifest bin_path None does not match target path /usr/bin/kaonic-gateway"
    );

    let mut other = gateway_manifest();
    other.symlink = Some("/usr/bin/other".to_owned());
    let err = sync_core_plugin(&spec, Some(ManifestFile::Read(other)), &gateway_facts())
        .unwrap_err();
    assert_eq!(
        err.detail,
        "built-in plugin manifest bin_path Some(\"/usr/bin/other\") does not match target path /usr/bin/kaonic-gateway"
    );

    let mut other = gateway_manifest();
    other.service = "kaonic-commd.service".to_owned();
    let err = sync_core_plugin(&spec, Some(ManifestFile::Read(other)), &gateway_facts())
        .unwrap_err();
    assert_eq!(
        err.detail,
        "built-in plugin manifest service kaonic-commd.service does not match target service kaonic-gateway.service"
    );

    let err = sync_core_plugin(
        &spec,
        Some(ManifestFile::Unreadable("gone".to_owned())),
        &gateway_facts(),
    )
    .unwrap_err();
    assert_eq!(err.status, 500);
    assert_eq!(err.detail, "read built-in plugin manifest: gone");

    let mut facts = gateway_facts();
    facts.tls_files = Err("no key".to_owned());
    let err = sync_core_plugin(&spec, Some(ManifestFile::Read(gateway_manifest())), &facts)
        .unwrap_err();
    assert_eq!(err.status, 500);
    assert_eq!(err.detail, "generate built-in plugin TLS files: no key");
}

#[test]
fn built_in_checksums_come_from_the_binary_without_a_file() {
    let spec = CorePluginSpec::new(gateway_target(), "/plugins");
    let mut facts = gateway_facts();
    facts.checksum = None;
    facts.version = None;
    facts.times = Vec::new();
    let record = sync_core_plugin(&spec, Some(ManifestFile::Read(gateway_manifest())), &facts)
        .unwrap()
        .unwrap();
    assert_eq!(record.sha256, digest(b"gateway"));
    assert_eq!(record.version, "0.9.0");
    assert_eq!(record.installed_at, 50);
    assert_eq!(record.updated_at, 50);
}

#[test]
fn rejects_deleting_built_in_plugin() {
    let mut own = record("kaonic-gateway");
    own.removable = false;
    own.target_name = Some("gateway".to_owned());
    let err = delete_plugin("/plugins", "/systemd", "kaonic-gateway", &Some(own)).unwrap_err();
    assert_eq!(err.status, 400);
    assert!(err.detail.contains("built-in"));
}

// ── Discovery ────────────────────────────────────────────────────────────────

#[test]
fn discovers_untracked_plugin_from_disk() {
    let record = discover(
        "/plugins/kaonic-plugin-sample",
        manifest(),
        &found_files(BINARY, &digest(BINARY)),
    );
    let mut store = PluginStore::new();
    discover_plugins(
        &mut store,
        &vec![FoundEntry {
            name: "kaonic-plugin-sample".to_owned(),
            is_dir: true,
            record,
        }],
    );
    let mut cache = StatusCache::new();
    cache.insert(
        "kaonic-plugin-sample.service".to_owned(),
        parse_service_report("ActiveState=active\nSubState=running\nMainPID=77\n"),
    );
    let plugins = build_plugin_summaries(&store.records, &cache);
    assert_eq!(plugins.len(), 1);
    assert_eq!(plugins[0].id, "kaonic-plugin-sample");
    assert_eq!(plugins[0].service, "kaonic-plugin-sample.service");
    assert_eq!(plugins[0].channel.as_deref(), Some("stable"));
    assert_eq!(plugins[0].webview, Some(8780));
    assert_eq!(plugins[0].sha256, digest(BINARY));
    assert_eq!(plugins[0].installed_at, 5);
    assert_eq!(plugins[0].updated_at, 9);
    assert_eq!(plugins[0].systemd_status.main_pid, Some(77));
    assert_eq!(plugins[0].systemd_status.active_state, "active");
}

#[test]
fn lists_plugins_with_stored_sha256_from_database() {
    let original = digest(BINARY);
    let entry = |binary: &[u8]| FoundEntry {
        name: "kaonic-plugin-sample".to_owned(),
        is_dir: true,
        record: discover(
            "/plugins/kaonic-plugin-sample",
            manifest(),
            &found_files(binary, &digest(binary)),
        ),
    };
    let mut store = PluginStore::new();
    discover_plugins(&mut store, &vec![entry(BINARY)]);
    discover_plugins(&mut store, &vec![entry(b"#!/bin/sh\necho live\n")]);
    let plugins = build_plugin_summaries(&store.records, &StatusCache::new());
    assert_eq!(plugins.len(), 1);
    assert_eq!(plugins[0].sha256, original);
}

#[test]
fn plugins_that_were_changed_are_not_found() {
    let err = discover(
        "/plugins/kaonic-plugin-sample",
        manifest(),
        &found_files(b"broken", &digest(BINARY)),
    )
    .unwrap_err();
    assert!(err.detail.contains("SHA-256 mismatch"));
    let mut facts = found_files(BINARY, &digest(BINARY));
    facts.has_binary = false;
    assert!(discover("/plugins/kaonic-plugin-sample", manifest(), &facts).is_err());
}

#[test]
fn discovery_keeps_services_apart() {
    let mut store = PluginStore::new();
    store.upsert_plugin(record("a"));
    let mut thief = record("b");
    thief.service = "a.service".to_owned();
    let entries = vec![
        FoundEntry { name: "b".to_owned(), is_dir: true, record: Ok(thief) },
        FoundEntry { name: ".hidden".to_owned(), is_dir: true, record: Ok(record(".hidden")) },
        FoundEntry { name: "file".to_owned(), is_dir: false, record: Ok(record("file")) },
        FoundEntry { name: "c".to_owned(), is_dir: true, record: Ok(record("c")) },
    ];
    discover_plugins(&mut store, &entries);
    discover_plugins(&mut store, &entries);
    let ids: Vec<&str> = store.records.iter().map(|r| r.id.as_str()).collect();
    assert_eq!(ids, vec!["a", "c"]);
    assert_eq!(store.service_owner("a.service").as_deref(), Some("a"));
    assert_eq!(store.service_owner("b.service"), None);
    let mut thief = record("b");
    thief.service = "a.service".to_owned();
    assert_eq!(
        store.check_free(&thief).unwrap_err().detail,
        "service a.service is already owned by plugin a"
    );
    let mut own = record("a");
    own.bin_path = Some("/usr/bin/a".to_owned());
    assert!(store.check_free(&own).is_ok());
    store.upsert_plugin(own);
    assert_eq!(store.bin_path_owner("/usr/bin/a").as_deref(), Some("a"));
    let mut other = record("d");
    other.bin_path = Some("/usr/bin/a".to_owned());
    assert_eq!(
        store.check_free(&other).unwrap_err().detail,
        "bin_path /usr/bin/a is already owned by plugin a"
    );
    assert_eq!(store.records.len(), 2);
}

#[test]
fn update_targets_stay_apart() {
    let mut store = PluginStore::new();
    let mut gateway = record("a");
    gateway.target_name = Some("gateway".to_owned());
    assert!(store.check_free(&gateway).is_ok());
    store.upsert_plugin(gateway);
    assert_eq!(store.target_owner("gateway").as_deref(), Some("a"));
    assert_eq!(store.target_owner("commd"), None);

    let mut thief = record("b");
    thief.target_name = Some("gateway".to_owned());
    let err = store.check_free(&thief).unwrap_err();
    assert_eq!(err.status, 500);
    assert_eq!(
        err.detail,
        "upsert plugin record: UNIQUE constraint failed: plugins.target_name"
    );
    discover_plugins(
        &mut store,
        &vec![FoundEntry { name: "b".to_owned(), is_dir: true, record: Ok(thief) }],
    );
    assert_eq!(store.records.len(), 1);

    let mut again = record("a");
    again.target_name = Some("gateway".to_owned());
    assert!(store.check_free(&again).is_ok());
    for id in ["c", "d"] {
        let mut unnamed = record(id);
        unnamed.target_name = Some(String::new());
        assert!(store.check_free(&unnamed).is_ok());
        store.upsert_plugin(unnamed);
    }
    assert_eq!(store.records.len(), 3);
}

#[test]
fn stores_and_serves_plugin_without_icon() {
    let mut store = PluginStore::new();
    store.upsert_plugin(record("kaonic-plugin-sample"));

    let loaded = store.load_plugin("kaonic-plugin-sample");
    assert!(loaded.as_ref().unwrap().icon.is_none());

    let err = locate_plugin_icon("kaonic-plugin-sample", &loaded).unwrap_err();
    assert_eq!(err.status, 404);
    assert_eq!(locate_plugin_icon("other", &None).unwrap_err().status, 404);

    let mut shown = record("kaonic-plugin-sample");
    shown.icon = Some("assets/icon.svg".to_owned());
    let file = locate_plugin_icon("kaonic-plugin-sample", &Some(shown)).unwrap();
    assert_eq!(
        file.path,
        "/plugins/kaonic-plugin-sample/current/assets/icon.svg"
    );
    let icon = read_plugin_icon(&file, Ok(vec![1, 2])).unwrap();
    assert_eq!(icon.content_type, "image/svg+xml");
    assert_eq!(icon.bytes, vec![1, 2]);
    let err = read_plugin_icon(&file, Err("gone".to_owned())).unwrap_err();
    assert_eq!(err.status, 404);
}

#[test]
fn adds_icon_column_to_legacy_database() {
    let conn = Connection::open_in_memory().unwrap();
    conn.execute_batch(
        "CREATE TABLE plugins (
            id TEXT PRIMARY KEY,
            name TEXT NOT NULL,
            description TEXT NOT NULL,
            version TEXT NOT NULL,
            service TEXT NOT NULL UNIQUE,
            developer TEXT NOT NULL,
            channel TEXT,
            github_url TEXT,
            webview INTEGER,
            tls INTEGER NOT NULL DEFAULT 0,
            binary_name TEXT NOT NULL,
            bin_path TEXT,
            sha256 TEXT NOT NULL DEFAULT '',
            install_dir TEXT NOT NULL,
            package_path TEXT NOT NULL,
            official INTEGER NOT NULL DEFAULT 0,
            enabled INTEGER NOT NULL DEFAULT 1,
            removable INTEGER NOT NULL DEFAULT 1,
            target_name TEXT,
            installed_at INTEGER NOT NULL,
            updated_at INTEGER NOT NULL
        );
        INSERT INTO plugins (
            id, name, description, version, service, developer, binary_name,
            install_dir, package_path, installed_at, updated_at
        ) VALUES (
            'kaonic-plugin-sample', 'Sample', 'Sample plugin', '0.1.0',
            'kaonic-plugin-sample.service', 'Beechat', 'kaonic-plugin-sample',
            '/etc/kaonic/plugins/kaonic-plugin-sample',
            '/etc/kaonic/plugins/kaonic-plugin-sample/package.zip', 1, 1
        );",
    )
    .unwrap();
    let columns = |conn: &Connection| -> Vec<String> {
        let mut stmt = conn.prepare("PRAGMA table_info(plugins)").unwrap();
        let rows = stmt.query_map([], |row| row.get::<_, String>(1)).unwrap();
        rows.filter_map(Result::ok).collect()
    };
    for migration in missing_columns(&columns(&conn)) {
        conn.execute(&migration.statement, []).unwrap();
    }
    assert!(
        columns(&conn).iter().any(|column| column == "icon"),
        "icon column added to legacy database"
    );
    assert!(missing_columns(&columns(&conn)).is_empty());
    let icons: Vec<Option<String>> = conn
        .prepare("SELECT icon FROM plugins")
        .unwrap()
        .query_map([], |row| row.get(0))
        .unwrap()
        .filter_map(Result::ok)
        .collect();
    assert_eq!(icons.len(), 1);
    assert!(icons[0].is_none());
}

#[test]
fn legacy_tables_get_every_column() {
    let missing: Vec<String> = missing_columns(&vec!["id".to_owned(), "icon".to_owned()])
        .into_iter()
        .map(|migration| migration.column)
        .collect();
    assert_eq!(
        missing,
        vec![
            "bin_path",
            "removable",
            "github_url",
            "channel",
            "webview",
            "tls",
            "target_name",
            "sha256"
        ]
    );
}

#[test]
fn signatures_make_plugins_official() {
    assert_eq!(
        evaluate_official(false, true, SignatureCheck::Matched).ok(),
        Some(false)
    );
    assert_eq!(
        evaluate_official(true, false, SignatureCheck::Matched).ok(),
        Some(false)
    );
    assert_eq!(
        evaluate_official(true, true, SignatureCheck::Matched).ok(),
        Some(true)
    );
    assert_eq!(
        evaluate_official(true, true, SignatureCheck::Mismatched)
            .unwrap_err()
            .status,
        400
    );
    assert_eq!(
        evaluate_official(true, true, SignatureCheck::Failed("x".to_owned()))
            .unwrap_err()
            .status,
        500
    );
}

#[test]
fn discovery_looks_beside_the_manifest() {
    let plan = plan_discovery("/plugins/s", &ManifestFile::Read(manifest())).unwrap();
    assert_eq!(plan.binary_path, "/plugins/s/current/kaonic-plugin-sample");
    assert_eq!(plan.service_path, "/plugins/s/kaonic-plugin-sample.service");
    assert_eq!(plan.hash_path, "/plugins/s/kaonic-plugin-sample.sha256");
    assert!(is_plugin_entry(true, "x"));
    assert!(!is_plugin_entry(true, ".x"));
    assert!(!is_plugin_entry(false, "x"));
}

// ── Links ────────────────────────────────────────────────────────────────────

#[test]
fn manages_plugin_symlink_safely() {
    let link = "/bin/sample";
    let binary = "/plugin/current/sample";
    assert_eq!(install_bin_path(link, binary, &LinkState::Missing).ok(), Some(false));
    let made = LinkState::Link(binary.to_owned());
    assert_eq!(remove_managed_symlink(link, binary, &made).ok(), Some(true));
    assert_eq!(install_bin_path(link, binary, &made).ok(), Some(true));

    let other = LinkState::Link("/plugin/other".to_owned());
    assert_eq!(
        remove_managed_symlink(link, binary, &other).unwrap_err().detail,
        "plugin bin_path /bin/sample is owned by another target"
    );
    assert_eq!(
        install_bin_path(link, binary, &LinkState::Other).unwrap_err().detail,
        "plugin bin_path /bin/sample conflicts with an existing file"
    );
    assert_eq!(
        remove_managed_symlink(link, binary, &LinkState::Unknown("eh".to_owned()))
            .unwrap_err()
            .status,
        500
    );
}

#[test]
fn links_come_back_after_a_failed_update() {
    let info = prepare_bin_path_rollback(
        Some("/bin/sample"),
        Some("/plugin/current/sample"),
        &LinkState::Link("/plugin/current/sample".to_owned()),
    )
    .unwrap()
    .unwrap();
    assert_eq!(info, "/bin/sample\n/plugin/current/sample\n");
    assert_eq!(
        restore_bin_path(&info),
        Some(("/bin/sample".to_owned(), "/plugin/current/sample".to_owned()))
    );
    assert_eq!(restore_bin_path("only one line"), None);
    assert!(prepare_bin_path_rollback(None, Some("/x"), &LinkState::Missing)
        .unwrap()
        .is_none());
}

#[test]
fn initialize_store_recreates_bin_path_symlink() {
    let entry = || {
        let mut linked = manifest();
        linked.symlink = Some("/usr/bin/kaonic-plugin-sample".to_owned());
        FoundEntry {
            name: "kaonic-plugin-sample".to_owned(),
            is_dir: true,
            record: discover(
                "/plugins/kaonic-plugin-sample",
                linked,
                &found_files(BINARY, &digest(BINARY)),
            ),
        }
    };
    let link = "/usr/bin/kaonic-plugin-sample".to_owned();
    let target = "/plugins/kaonic-plugin-sample/current/kaonic-plugin-sample".to_owned();
    let wanted = vec![(link.clone(), target.clone())];
    let files = vec![target.clone()];
    let mut disk: HashMap<String, String> = HashMap::new();
    let mut store = PluginStore::new();
    let links = initialize_store(&mut store, &vec![entry()], Vec::new(), &files).unwrap();
    assert_eq!(links, wanted);
    disk.extend(links);
    assert_eq!(disk.get(&link), Some(&target));

    disk.remove(&link);
    let links = initialize_store(&mut store, &vec![entry()], Vec::new(), &files).unwrap();
    assert_eq!(store.records.len(), 1);
    disk.extend(links);
    assert_eq!(disk.get(&link), Some(&target));

    assert_eq!(reconcile_plugin_bin_paths(&store, &files), wanted);
    assert!(reconcile_plugin_bin_paths(&store, &Vec::new()).is_empty());
    let mut own = store.load_plugin("kaonic-plugin-sample").unwrap();
    assert_eq!(reconcile_plugin_bin_path(&own, true), Some((link, target)));
    assert_eq!(reconcile_plugin_bin_path(&own, false), None);
    own.removable = false;
    assert_eq!(reconcile_plugin_bin_path(&own, true), None);
}

// ── Installation and recovery ────────────────────────────────────────────────

#[test]
fn installs_custom_files_into_current_directory() {
    let files = vec![
        PluginPackageFile {
            relative_path: "config/settings.toml".to_owned(),
            bytes: b"mode = \"demo\"\n".to_vec(),
        },
        PluginPackageFile {
            relative_path: ".env".to_owned(),
            bytes: b"NAME=sample\n".to_vec(),
        },
    ];
    let mut steps = Vec::new();
    install_custom_files(&mut steps, &files);
    let plan = plan_install("/plugins", "/systemd", &package(), &None, false, false);
    let mut written: HashMap<String, Vec<u8>> = HashMap::new();
    for step in steps {
        if let InstallStep::Write(place, bytes, _) = step {
            written.insert(place_path(&plan, &place), bytes);
        }
    }
    let current = "/plugins/kaonic-plugin-sample/current";
    assert_eq!(
        written.get(&format!("{current}/config/settings.toml")).unwrap(),
        b"mode = \"demo\"\n"
    );
    assert_eq!(
        written.get(&format!("{current}/.env")).unwrap(),
        b"NAME=sample\n"
    );
}

#[test]
fn new_plugins_are_enabled_and_started() {
    let plan = plan_install("/plugins", "/systemd", &package(), &None, false, false);
    assert_eq!(plan.plugin_dir, "/plugins/kaonic-plugin-sample");
    assert_eq!(plan.rollback_dir, "/plugins/kaonic-plugin-sample/.rollback");
    assert_eq!(plan.service_path, "/systemd/kaonic-plugin-sample.service");
    assert!(plan.should_enable && plan.should_start && !plan.stop_first);
    let facts = InstallFacts { has_current: false, has_signature: false, has_legacy_signature: false };
    let steps = install_plugin(&package(), b"zip", &b"unit".to_vec(), facts, &plan);
    let mut files: HashMap<String, Vec<u8>> = HashMap::new();
    let mut last = String::new();
    for step in steps {
        if let InstallStep::Write(place, bytes, _) = &step {
            files.insert(place_path(&plan, place), bytes.clone());
        }
        last = format!("{step:?}");
    }
    assert_eq!(last, "Record");
    assert_eq!(
        files["/plugins/kaonic-plugin-sample/current/kaonic-plugin-sample"],
        BINARY
    );
    assert_eq!(files["/plugins/kaonic-plugin-sample/package.zip"], b"zip");
    assert_eq!(files["/systemd/kaonic-plugin-sample.service"], b"unit");
    assert_eq!(
        files["/plugins/kaonic-plugin-sample/kaonic-plugin-sample.sha256"],
        format!("{}\n", digest(BINARY)).into_bytes()
    );
    assert_eq!(
        place_path(&plan, &Place::Current),
        "/plugins/kaonic-plugin-sample/current"
    );
}

#[test]
fn updates_keep_the_first_installation_time() {
    let mut existing = record("kaonic-plugin-sample");
    existing.enabled = false;
    let existing = Some(existing);
    let plan = plan_install("/plugins", "/systemd", &package(), &existing, true, true);
    assert!(!plan.should_enable && plan.should_start && plan.stop_first);
    let record = installed_record(&package(), &plan, true, &existing, 99).unwrap();
    assert_eq!(record.installed_at, 1);
    assert_eq!(record.updated_at, 99);
    assert!(!record.enabled);
    assert!(record.official);
    assert_eq!(
        install_message("Sample", "0.1.0", true).detail,
        "Updated plugin Sample to 0.1.0"
    );
    assert_eq!(
        install_message("Sample", "0.1.0", false).detail,
        "Installed plugin Sample 0.1.0"
    );
}

fn spot(at: &Spot) -> String {
    format!("{at:?}")
}

fn run(files: &mut HashMap<String, Vec<u8>>, steps: &[Step]) {
    for step in steps {
        match step {
            Step::Clear => files.retain(|at, _| !at.starts_with("Saved")),
            Step::Move(from, to) => {
                if let Some(bytes) = files.remove(&spot(from)) {
                    files.insert(spot(to), bytes);
                }
            }
            Step::Copy(from, to) => {
                if let Some(bytes) = files.get(&spot(from)).cloned() {
                    files.insert(spot(to), bytes);
                }
            }
            Step::Mirror(from, to) => match files.get(&spot(from)).cloned() {
                Some(bytes) => {
                    files.insert(spot(to), bytes);
                }
                None => {
                    files.remove(&spot(to));
                }
            },
            Step::Remove(at) => {
                files.remove(&spot(at));
            }
        }
    }
}

#[test]
fn recovers_plugin_from_rollback_after_interrupted_update() {
    let service = "kaonic-plugin-sample.service";
    let hash = "kaonic-plugin-sample.sha256";
    let stored = |name: &str| spot(&Spot::Stored(name.to_owned()));
    let mut files: HashMap<String, Vec<u8>> = HashMap::new();
    files.insert(stored("current"), BINARY.to_vec());
    files.insert(stored("package.zip"), b"rollback-zip".to_vec());
    files.insert(stored(hash), digest(BINARY).into_bytes());
    files.insert(stored(service), b"old unit".to_vec());
    files.insert(spot(&Spot::Unit), b"old unit".to_vec());

    run(&mut files, &prepare_rollback(service));
    assert!(!files.contains_key(&stored("current")));
    files.insert(stored("current"), b"broken".to_vec());
    files.insert(stored(hash), "0".repeat(64).into_bytes());

    assert_eq!(recovery_action(false, true), RecoveryAction::Restore);
    run(&mut files, &rollback_install(service));
    assert_eq!(files[&stored("current")], BINARY);
    assert_eq!(files[&stored(hash)], digest(BINARY).into_bytes());
    assert_eq!(files[&stored("package.zip")], b"rollback-zip");
    assert!(!files.keys().any(|at| at.starts_with("Saved")));

    assert_eq!(recovery_action(true, true), RecoveryAction::Clean);
    assert_eq!(recovery_action(false, false), RecoveryAction::GiveUp);
    let after = service_aftermath(None, false);
    assert!(after.remove_unit && !after.enable && !after.start);
    let after = service_aftermath(Some(false), true);
    assert!(!after.remove_unit && !after.enable && after.start);
}

#[test]
fn recovery_goes_by_the_books() {
    let mut own = record("kaonic-plugin-sample");
    own.bin_path = Some("/usr/bin/sample".to_owned());
    let saved = record("kaonic-plugin-sample");
    let plan = plan_recovery("/plugins/kaonic-plugin-sample", "/systemd", &Some(own), &saved);
    assert_eq!(plan.bin_path.as_deref(), Some("/usr/bin/sample"));
    assert_eq!(plan.service_path, "/systemd/kaonic-plugin-sample.service");
    assert_eq!(
        plan.target,
        "/plugins/kaonic-plugin-sample/current/kaonic-plugin-sample"
    );
    let plan = plan_recovery("/p", "/systemd", &None, &saved);
    assert_eq!(plan.bin_path, None);
    assert_eq!(plan.target, "/p/current/kaonic-plugin-sample");
}

// ── Requests ─────────────────────────────────────────────────────────────────

#[test]
fn plugins_are_controlled_by_their_service() {
    let own = Some(record("s"));
    let plan = control_plugin("s", &own, PluginAction::Stop).unwrap();
    assert_eq!(plan.service, "s.service");
    assert!(!plan.enabled);
    let plan = control_plugin("s", &own, PluginAction::Restart).unwrap();
    assert!(plan.enabled);
    let err = control_plugin("x", &None, PluginAction::Start).unwrap_err();
    assert_eq!(err.status, 404);
    assert_eq!(err.detail, "unknown plugin: x");
}

#[test]
fn updates_of_built_in_plugins_go_to_their_target() {
    let specs = vec![CorePluginSpec::new(gateway_target(), "/plugins")];
    let mut own = record("kaonic-gateway");
    own.target_name = Some("gateway".to_owned());
    assert_eq!(
        upload_plugin_update("kaonic-gateway", &Some(own.copy()), &specs).ok(),
        Some(UpdateRoute::BuiltIn(0))
    );
    assert_eq!(
        upload_plugin_update("s", &Some(record("s")), &specs).ok(),
        Some(UpdateRoute::Package)
    );
    let err = upload_plugin_update("kaonic-gateway", &Some(own), &Vec::new()).unwrap_err();
    assert_eq!(err.status, 500);
    assert!(check_update_target("a", "a").is_ok());
    assert_eq!(
        check_update_target("a", "b").unwrap_err().detail,
        "plugin package targets a, expected b"
    );
}

// ── Services ─────────────────────────────────────────────────────────────────

#[test]
fn service_reports_are_read() {
    assert_eq!(parse_systemd_number("12"), Some(12));
    assert_eq!(parse_systemd_number("[not set]"), None);
    let output = CommandOutput {
        success: false,
        stdout: Vec::new(),
        stderr: b"Unit not found\n".to_vec(),
    };
    let status = read_service_systemd_status(&Ok(output));
    assert_eq!(status.main_pid, None);
    assert_eq!(status.active_state, "Unit not found");
    assert_eq!(status.sub_state, "Unit not found");
    let status = read_service_systemd_status(&Err("no systemctl".to_owned()));
    assert_eq!(status.active_state, "systemctl unavailable: no systemctl");
    assert_eq!(status.sub_state, "unknown");
    let output = CommandOutput {
        success: true,
        stdout: b"ActiveState=act\xffive\nMainPID=0\nTasksCurrent=3\n".to_vec(),
        stderr: Vec::new(),
    };
    let status = read_service_systemd_status(&Ok(output));
    assert_eq!(status.active_state, "act\u{fffd}ive");
    assert_eq!(status.main_pid, None);
    assert_eq!(status.tasks_current, Some(3));
}

#[test]
fn file_times_are_the_first_and_the_last() {
    let times = vec![None, Some(4), Some(2), Some(9)];
    assert_eq!(first_available_timestamp(&times), Some(2));
    assert_eq!(latest_available_timestamp(&times), Some(9));
    assert_eq!(first_available_timestamp(&vec![None]), None);
}

#[test]
fn built_in_plugins_are_put_in_up_to_the_first_that_cannot_be() {
    let core = |id: &str, target: &str| {
        let mut own = record(id);
        own.removable = false;
        own.target_name = Some(target.to_owned());
        own
    };
    let mut store = PluginStore::new();
    store.upsert_plugin(record("a"));
    let outcomes = vec![Ok(Some(core("gateway", "gateway"))), Ok(None)];
    assert!(initialize_store(&mut store, &Vec::new(), outcomes, &Vec::new()).unwrap().is_empty());
    assert_eq!(store.records.len(), 2);
    assert_eq!(store.target_owner("gateway").as_deref(), Some("gateway"));

    let mut thief = core("commd", "commd");
    thief.service = "a.service".to_owned();
    assert!(!store.has_room(&thief));
    let outcomes = vec![
        Ok(Some(core("factory", "factory"))),
        Ok(Some(thief)),
        Ok(Some(core("late", "late"))),
    ];
    match sync_core_plugins(&mut store, outcomes) {
        Err(StartFailure::Taken(taken)) => assert_eq!(taken.id, "commd"),
        other => panic!("{other:?}"),
    }
    let ids: Vec<&str> = store.records.iter().map(|r| r.id.as_str()).collect();
    assert_eq!(ids, vec!["a", "gateway", "factory"]);

    let broken = vec![Err(PluginError::bad_request("bad".to_owned())), Ok(Some(record("late")))];
    match initialize_store(&mut store, &Vec::new(), broken, &Vec::new()) {
        Err(StartFailure::Refused(err)) => assert_eq!(err.detail, "bad"),
        other => panic!("{other:?}"),
    }
    assert_eq!(store.records.len(), 3);

    let mut blank = record("blank");
    blank.bin_path = Some(String::new());
    let mut other = record("other");
    other.bin_path = Some(String::new());
    assert!(sync_core_plugins(&mut store, vec![Ok(Some(blank)), Ok(Some(other))]).is_ok());
    assert_eq!(store.records.len(), 5);
}

#[test]
fn starts_repeat() {
    let mut gateway = record("gateway");
    gateway.target_name = Some("gateway".to_owned());
    gateway.removable = false;
    let found = || {
        let mut linked = record("b");
        linked.bin_path = Some("/usr/bin/b".to_owned());
        let mut thief = record("c");
        thief.service = "gateway.service".to_owned();
        vec![
            FoundEntry { name: "b".to_owned(), is_dir: true, record: Ok(linked) },
            FoundEntry { name: "c".to_owned(), is_dir: true, record: Ok(thief) },
        ]
    };
    let mut store = PluginStore::new();
    store.upsert_plugin(gateway.copy());
    let files = vec!["/plugins/b/current/b".to_owned()];
    let mut seen = Vec::new();
    for _ in 0..3 {
        let core = vec![Ok(Some(gateway.copy()))];
        let links = initialize_store(&mut store, &found(), core, &files).unwrap();
        assert_eq!(links, vec![("/usr/bin/b".to_owned(), files[0].clone())]);
        seen.push(format!("{:?}", store.records));
    }
    assert_eq!(seen[0], seen[1]);
    assert_eq!(seen[1], seen[2]);
    assert_eq!(store.records.len(), 2);
}
