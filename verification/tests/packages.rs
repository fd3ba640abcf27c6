use kaonic::plugins::manifest::{
    derive_binary_name, icon_content_type, normalize_bin_path, normalize_channel,
    normalize_custom_file_path, normalize_github_url, normalize_icon_path, normalize_webview_port,
    validate_manifest, PluginManifest,
};
use kaonic::plugins::package::{
    checksum_of_text, parse_plugin_package, read_package_manifest, validate_sha256_text,
    verify_sha256, PluginPackage,
};
use kaonic::plugins::error::PluginError;
use kaonic::plugins::unit_file::normalize_service_working_directory;
use sha2::{Digest, Sha256};
use std::io::{Cursor, Write};
use zip::write::SimpleFileOptions;
use zip::ZipWriter;

const MANIFEST_NAME: &str = "kaonic-plugin.toml";
const BINARY: &[u8] = b"#!/bin/sh\nexit 0\n";

fn text_value(table: &toml::Table, key: &str) -> Option<String> {
    table.get(key).and_then(|value| value.as_str()).map(str::to_owned)
}

fn read_manifest(raw: &str) -> Result<PluginManifest, String> {
    let file: toml::Table = raw.parse().map_err(|err: toml::de::Error| err.to_string())?;
    let table = file
        .get("kaonic-plugin")
        .and_then(|value| value.as_table())
        .ok_or_else(|| "missing field `kaonic-plugin`".to_owned())?;
    let required = |key: &str| {
        text_value(table, key).ok_or_else(|| format!("missing field `{key}`"))
    };
    Ok(PluginManifest {
        name: required("name")?,
        description: required("description")?,
        version: required("version")?,
        service: required("service")?,
        developer: required("developer")?,
        channel: text_value(table, "channel"),
        github_url: text_value(table, "github_url"),
        webview: table
            .get("webview")
            .and_then(|value| value.as_integer())
            .map(|port| port as u16),
        tls: table.get("tls").and_then(|value| value.as_bool()).unwrap_or(false),
        icon: text_value(table, "icon"),
        symlink: text_value(table, "symlink"),
    })
}

fn parse(zip_bytes: &[u8]) -> Result<PluginPackage, PluginError> {
    let raw = read_package_manifest(zip_bytes)?;
    parse_plugin_package(zip_bytes, read_manifest(&raw))
}

fn sample_manifest(channel: &str) -> String {
    format!(
        "[kaonic-plugin]\nname = \"Sample\"\ndescription = \"Sample plugin\"\nversion = \"0.1.0\"\nservice = \"kaonic-plugin-sample.service\"\ndeveloper = \"Beechat\"\nchannel = \"{channel}\"\ngithub_url = \"https://github.com/BeechatNetworkSystemsLtd/kaonic-gateway\"\nwebview = 8780\n"
    )
}

fn build_zip(manifest: &str, sha256: &str, extra: &[(&str, &[u8])]) -> Vec<u8> {
    let mut cursor = Cursor::new(Vec::<u8>::new());
    {
        let mut writer = ZipWriter::new(&mut cursor);
        let options = SimpleFileOptions::default();
        let entries: Vec<(&str, &[u8])> = vec![
            (MANIFEST_NAME, manifest.as_bytes()),
            (
                "kaonic-plugin-sample.service",
                b"[Service]\nExecStart=/bin/true\n",
            ),
            ("files/config/settings.toml", b"mode = \"demo\"\n"),
            ("files/.env", b"NAME=sample\n"),
            ("kaonic-plugin-sample.sha256", sha256.as_bytes()),
            ("kaonic-plugin-sample", BINARY),
        ];
        for (name, bytes) in entries.iter().chain(extra.iter()) {
            writer.start_file(*name, options).unwrap();
            writer.write_all(bytes).unwrap();
        }
        writer.finish().unwrap();
    }
    cursor.into_inner()
}

fn binary_hash() -> String {
    hex::encode(Sha256::digest(BINARY))
}

fn build_test_plugin_zip() -> Vec<u8> {
    build_zip(&sample_manifest("experimental"), &binary_hash(), &[])
}

fn build_test_plugin_zip_with_signature(signature_name: &str) -> Vec<u8> {
    build_zip(
        &sample_manifest("experimental"),
        &binary_hash(),
        &[(signature_name, b"signature-bytes")],
    )
}

fn build_test_plugin_zip_with_icon(icon_value: &str, icon_entry: Option<&str>) -> Vec<u8> {
    let mut manifest = sample_manifest("experimental");
    manifest.push_str(&format!("icon = \"{icon_value}\"\n"));
    match icon_entry {
        Some(entry) => build_zip(&manifest, &binary_hash(), &[(entry, b"icon-bytes")]),
        None => build_zip(&manifest, &binary_hash(), &[]),
    }
}

#[test]
fn derives_binary_name_from_service() {
    assert_eq!(
        derive_binary_name("kaonic-plugin-sample.service").unwrap(),
        "kaonic-plugin-sample"
    );
}

#[test]
fn rejects_nested_service_path() {
    let err = derive_binary_name("plugins/sample.service").unwrap_err();
    assert_eq!(err.status, 400);
}

#[test]
fn rejects_relative_bin_path() {
    let err = normalize_bin_path(Some("usr/bin/sample")).unwrap_err();
    assert_eq!(err.status, 400);
}

#[test]
fn parses_plugin_package_without_icon() {
    let zip_bytes = build_test_plugin_zip();
    let package = parse(&zip_bytes).unwrap();
    assert!(package.manifest.icon.is_none());
    assert!(normalize_icon_path(package.manifest.icon.as_deref())
        .unwrap()
        .is_none());
}

#[test]
fn parses_plugin_package_with_icon() {
    let zip_bytes = build_test_plugin_zip_with_icon("icon.png", Some("files/icon.png"));
    let package = parse(&zip_bytes).unwrap();
    assert_eq!(package.manifest.icon.as_deref(), Some("icon.png"));
}

#[test]
fn rejects_icon_missing_from_package() {
    let zip_bytes = build_test_plugin_zip_with_icon("icon.png", None);
    let err = parse(&zip_bytes).unwrap_err();
    assert_eq!(err.status, 400);
    assert!(err.detail.contains("icon"), "unexpected detail {}", err.detail);
}

#[test]
fn rejects_icon_with_unsupported_extension() {
    let err = normalize_icon_path(Some("icon.bmp")).unwrap_err();
    assert_eq!(err.status, 400);
}

#[test]
fn rejects_icon_escaping_plugin_directory() {
    let err = normalize_icon_path(Some("../../etc/shadow.png")).unwrap_err();
    assert_eq!(err.status, 400);
}

#[test]
fn normalizes_nested_icon_path() {
    let icon = normalize_icon_path(Some("  assets/icon.svg  "))
        .unwrap()
        .unwrap();
    assert_eq!(icon, "assets/icon.svg");
    assert_eq!(icon_content_type(&icon), "image/svg+xml");
    assert_eq!(icon_content_type("icon.PNG"), "image/png");
}

#[test]
fn treats_blank_icon_as_absent() {
    assert!(normalize_icon_path(Some("   ")).unwrap().is_none());
    assert!(normalize_icon_path(None).unwrap().is_none());
}

#[test]
fn rejects_zero_webview_port() {
    let err = normalize_webview_port(Some(0)).unwrap_err();
    assert_eq!(err.status, 400);
}

#[test]
fn parses_plugin_package_entries_of_sample() {
    let package = parse(&build_test_plugin_zip()).unwrap();
    assert_eq!(package.binary_name, "kaonic-plugin-sample");
    assert_eq!(package.service_name, "kaonic-plugin-sample.service");
    assert_eq!(package.binary_bytes, BINARY);
    assert_eq!(package.service_bytes, b"[Service]\nExecStart=/bin/true\n");
    assert_eq!(package.custom_files[0].bytes, b"mode = \"demo\"\n");
    assert_eq!(package.sha256, binary_hash());
    assert_eq!(package.manifest_raw, sample_manifest("experimental"));
    assert_eq!(package.bin_path, None);
}

#[test]
fn parses_plugin_package() {
    let zip_bytes = build_test_plugin_zip();
    let package = parse(&zip_bytes).unwrap();
    assert_eq!(package.id, "kaonic-plugin-sample");
    assert_eq!(package.manifest.name, "Sample");
    assert_eq!(package.manifest.channel.as_deref(), Some("experimental"));
    assert_eq!(package.manifest.webview, Some(8780));
    assert_eq!(package.sha256.len(), 64);
    assert_eq!(package.custom_files.len(), 2);
    assert_eq!(package.custom_files[0].relative_path, "config/settings.toml");
    assert_eq!(package.custom_files[1].relative_path, ".env");
    assert!(package.signature_bytes.is_none());
}

#[test]
fn parses_plugin_package_sig_signature() {
    let zip_bytes = build_test_plugin_zip_with_signature("kaonic-plugin-sample.sig");
    let package = parse(&zip_bytes).unwrap();
    assert_eq!(
        package.signature_bytes.as_deref(),
        Some(b"signature-bytes".as_slice())
    );
}

#[test]
fn parses_plugin_package_legacy_sign_signature() {
    let zip_bytes = build_test_plugin_zip_with_signature("kaonic-plugin-sample.sign");
    let package = parse(&zip_bytes).unwrap();
    assert_eq!(
        package.signature_bytes.as_deref(),
        Some(b"signature-bytes".as_slice())
    );
}

#[test]
fn rejects_plugin_package_with_bad_sha256() {
    let zip_bytes = build_zip(&sample_manifest("experimental"), "deadbeef", &[]);
    let err = parse(&zip_bytes).unwrap_err();
    assert_eq!(err.status, 400);
}

#[test]
fn rejects_invalid_plugin_channel() {
    let zip_bytes = build_zip(&sample_manifest("beta"), &binary_hash(), &[]);
    let err = parse(&zip_bytes).unwrap_err();
    assert_eq!(err.status, 400);
    assert!(err.detail.contains("plugin channel"));
}

#[test]
fn adds_working_directory_to_service_section() {
    let normalized = normalize_service_working_directory(
        b"[Unit]\nDescription=Sample\n\n[Service]\nExecStart=/bin/true\n",
        "/etc/kaonic/plugins/sample/current",
    )
    .unwrap();
    let text = String::from_utf8(normalized).unwrap();
    assert!(text.contains(
        "[Service]\nExecStart=/bin/true\nWorkingDirectory=/etc/kaonic/plugins/sample/current\n"
    ));
}

#[test]
fn replaces_existing_working_directory_in_service_section() {
    let normalized = normalize_service_working_directory(
        b"[Service]\nWorkingDirectory=/tmp\nExecStart=/bin/true\n",
        "/etc/kaonic/plugins/sample/current",
    )
    .unwrap();
    let text = String::from_utf8(normalized).unwrap();
    assert!(!text.contains("WorkingDirectory=/tmp"));
    assert!(text.contains("WorkingDirectory=/etc/kaonic/plugins/sample/current"));
}

#[test]
fn units_that_are_no_text_are_refused() {
    let err = normalize_service_working_directory(&[0x5b, 0xff], "/x").unwrap_err();
    assert_eq!(err.status, 400);
    assert!(
        err.detail.ends_with("invalid utf-8 sequence of 1 bytes from index 1"),
        "unexpected detail {}",
        err.detail
    );
}

#[test]
fn bytes_that_are_no_archive_are_refused() {
    let err = read_package_manifest(b"no archive at all").unwrap_err();
    assert_eq!(err.status, 400);
    assert!(err.detail.starts_with("bad plugin ZIP: "));
}

#[test]
fn packages_need_a_manifest_and_a_binary() {
    let mut cursor = Cursor::new(Vec::<u8>::new());
    {
        let mut writer = ZipWriter::new(&mut cursor);
        writer
            .start_file("readme.txt", SimpleFileOptions::default())
            .unwrap();
        writer.write_all(b"hello").unwrap();
        writer.finish().unwrap();
    }
    let zip_bytes = cursor.into_inner();
    let err = read_package_manifest(&zip_bytes).unwrap_err();
    assert_eq!(err.status, 400);
    assert!(err.detail.contains("kaonic-plugin.toml"));
    let err = parse_plugin_package(&zip_bytes, read_manifest(&sample_manifest("stable")))
        .unwrap_err();
    assert_eq!(err.status, 400);
}

#[test]
fn malformed_manifests_are_refused() {
    let zip_bytes = build_zip("[kaonic-plugin]\nname = \"x\"\n", &binary_hash(), &[]);
    let err = parse(&zip_bytes).unwrap_err();
    assert_eq!(err.status, 400);
    assert!(err.detail.contains("missing field `description`"));
}

#[test]
fn binaries_that_were_changed_are_refused() {
    let other = hex::encode(Sha256::digest(b"other"));
    let zip_bytes = build_zip(&sample_manifest("stable"), &other, &[]);
    let err = parse(&zip_bytes).unwrap_err();
    assert_eq!(err.status, 400);
    assert!(err.detail.contains("SHA-256 mismatch"));
    assert!(err.detail.contains(&binary_hash()));
}

#[test]
fn digests_are_compared_without_case() {
    let upper = binary_hash().to_ascii_uppercase();
    assert!(verify_sha256(BINARY, &upper, "plugin binary").is_ok());
    let err = verify_sha256(b"x", &upper, "plugin binary").unwrap_err();
    assert_eq!(
        err.detail,
        format!(
            "plugin binary SHA-256 mismatch: expected {upper}, got {}",
            hex::encode(Sha256::digest(b"x"))
        )
    );
}

#[test]
fn digests_have_64_hexadecimal_digits() {
    assert!(validate_sha256_text(&"aB".repeat(32)).is_ok());
    assert!(validate_sha256_text(&"ab".repeat(31)).is_err());
    assert!(validate_sha256_text(&"xy".repeat(32)).is_err());
    assert_eq!(
        checksum_of_text(&format!(" {}\n", "ab".repeat(32))).unwrap(),
        "ab".repeat(32)
    );
}

#[test]
fn manifest_values_are_normalized() {
    assert_eq!(normalize_github_url(Some("  ")), None);
    assert_eq!(
        normalize_github_url(Some(" https://x ")),
        Some("https://x".to_owned())
    );
    assert_eq!(
        normalize_channel(Some(" Stable ")).ok().flatten(),
        Some("stable".to_owned())
    );
    assert_eq!(normalize_channel(None).ok(), Some(None));
    assert_eq!(normalize_webview_port(Some(8780)).ok(), Some(Some(8780)));
    assert_eq!(
        normalize_custom_file_path("config/settings.toml").unwrap(),
        "config/settings.toml"
    );
    assert!(normalize_custom_file_path("../x").is_err());
    assert!(normalize_custom_file_path("/x").is_err());
}

#[test]
fn manifests_need_their_fields() {
    let mut manifest = read_manifest(&sample_manifest("stable")).unwrap();
    assert!(validate_manifest(&manifest).is_ok());
    manifest.name = "  ".to_owned();
    assert_eq!(validate_manifest(&manifest).unwrap_err().status, 400);
}
