//! Plugins that are found on disk.
use crate::digest::{hex_text, sha256};
use crate::paths::{join_path, joined_path};
use crate::plugins::built_in::{
    file_times, installed_time, updated_time, ManifestFile, ManifestFileView,
};
use crate::plugins::error::{bad, failed, PluginError, Refusal};
use crate::plugins::manifest::{
    bin_path_of, binary_name_of, channel_of, derive_binary_name, filled, icon_of,
    manifest_refusal, normalize_bin_path, normalize_channel, normalize_github_url,
    normalize_icon_path, normalize_webview_port, validate_manifest, webview_of, ManifestView,
    PluginManifest,
};
use crate::plugins::package::{
    checksum_of_text, has_digest, is_sha256_text, mismatch, opt_bytes_view, verify_sha256,
};
use crate::plugins::records::{
    binary_path_of, binary_target, current_binary_path, plugin_binary_target, PluginRecord,
    RecordView,
};
use crate::text::{cat2, clone_opt, lower, opt_as_str, opt_view, to_chars, trim, trimmed};
use vstd::prelude::*;
use vstd::slice::slice_to_vec;

verus! {

// ── Signatures ───────────────────────────────────────────────────────────────

/// What the check of a signature gave.
#[derive(Debug)]
pub enum SignatureCheck {
    /// It could not be made, and why.
    Failed(String),
    /// The signature is that of the official key.
    Matched,
    /// It is not.
    Mismatched,
}

/// Whether a plugin is official: it has a signature, there is a certificate to
/// check it with, and it matches. One that does not match is refused.
pub open spec fn official_of(
    has_signature: bool,
    has_certificate: bool,
    check: SignatureCheck,
) -> Result<bool, Refusal> {
    if !has_signature || !has_certificate {
        Ok(false)
    } else {
        match check {
            SignatureCheck::Failed(detail) => Err(failed(detail@)),
            SignatureCheck::Matched => Ok(true),
            SignatureCheck::Mismatched => Err(
                bad("plugin signature did not match the official public key"@),
            ),
        }
    }
}

/// Whether a plugin is official.
pub fn evaluate_official(
    has_signature: bool,
    has_certificate: bool,
    check: SignatureCheck,
) -> (out: Result<bool, PluginError>)
    ensures
        crate::plugins::links::flag_outcome(out) == official_of(
            has_signature,
            has_certificate,
            check,
        ),
{
    if !has_signature || !has_certificate {
        return Ok(false);
    }
    match check {
        SignatureCheck::Failed(detail) => Err(PluginError::internal(detail)),
        SignatureCheck::Matched => Ok(true),
        SignatureCheck::Mismatched => Err(
            PluginError::bad_request(
                "plugin signature did not match the official public key".to_owned(),
            ),
        ),
    }
}

// ── Where to look ────────────────────────────────────────────────────────────

/// The files of a plugin that may be installed in a directory.
#[derive(Debug)]
pub struct DiscoveryPlan {
    pub service_name: String,
    pub binary_name: String,
    pub current_dir: String,
    pub binary_path: String,
    pub service_path: String,
    pub hash_path: String,
    pub package_path: String,
    /// Whether the plugin asks for TLS files in its current directory.
    pub tls: bool,
}

/// The files of a plugin that may be installed in a directory.
pub struct PlanView {
    pub service_name: Seq<char>,
    pub binary_name: Seq<char>,
    pub current_dir: Seq<char>,
    pub binary_path: Seq<char>,
    pub service_path: Seq<char>,
    pub hash_path: Seq<char>,
    pub package_path: Seq<char>,
    pub tls: bool,
}

impl View for DiscoveryPlan {
    type V = PlanView;

    open spec fn view(&self) -> PlanView {
        PlanView {
            service_name: self.service_name@,
            binary_name: self.binary_name@,
            current_dir: self.current_dir@,
            binary_path: self.binary_path@,
            service_path: self.service_path@,
            hash_path: self.hash_path@,
            package_path: self.package_path@,
            tls: self.tls,
        }
    }
}

/// The files of the plugin with the manifest `m` in the directory `dir`.
pub open spec fn plan_of(dir: Seq<char>, m: ManifestView) -> PlanView {
    let service = trim(m.service);
    let binary = binary_name_of(service)->Ok_0;
    PlanView {
        service_name: service,
        binary_name: binary,
        current_dir: join_path(dir, "current"@),
        binary_path: binary_target(dir, binary),
        service_path: join_path(dir, service),
        hash_path: join_path(dir, binary + ".sha256"@),
        package_path: join_path(dir, "package.zip"@),
        tls: m.tls,
    }
}

/// Why a manifest file stands for no plugin, if it does not.
pub open spec fn manifest_file_refusal(manifest: ManifestFileView) -> Option<Refusal> {
    match manifest {
        ManifestFileView::Unreadable(err) => Some(failed("read plugin manifest: "@ + err)),
        ManifestFileView::Malformed(err) => Some(bad("bad plugin manifest: "@ + err)),
        ManifestFileView::Read(m) => manifest_refusal(m),
    }
}

/// What an outcome with a plan stands for.
pub open spec fn plan_outcome(out: Result<DiscoveryPlan, PluginError>) -> Result<
    PlanView,
    Refusal,
> {
    match out {
        Ok(plan) => Ok(plan@),
        Err(err) => Err(err@),
    }
}

/// The manifest in a manifest file.
fn readable_manifest(file: &ManifestFile) -> (out: Result<&PluginManifest, PluginError>)
    ensures
        match out {
            Ok(manifest) => manifest_file_refusal(file@) is None && file@
                == ManifestFileView::Read(manifest@),
            Err(err) => manifest_file_refusal(file@) == Some(err@),
        },
{
    match file {
        ManifestFile::Unreadable(err) => Err(
            PluginError::internal(cat2("read plugin manifest: ", err.as_str())),
        ),
        ManifestFile::Malformed(err) => Err(
            PluginError::bad_request(cat2("bad plugin manifest: ", err.as_str())),
        ),
        ManifestFile::Read(manifest) => match validate_manifest(manifest) {
            Ok(()) => Ok(manifest),
            Err(err) => Err(err),
        },
    }
}

/// The files to look for, going by the manifest file of a directory.
pub fn plan_discovery(plugin_dir: &str, manifest: &ManifestFile) -> (out: Result<
    DiscoveryPlan,
    PluginError,
>)
    ensures
        plan_outcome(out) == (match manifest_file_refusal(manifest@) {
            Some(refusal) => Err(refusal),
            None => Ok(plan_of(plugin_dir@, manifest@->Read_0)),
        }),
{
    let manifest = match readable_manifest(manifest) {
        Ok(manifest) => manifest,
        Err(err) => {
            return Err(err);
        },
    };
    let service_name = trimmed(manifest.service.as_str());
    let binary_name = match derive_binary_name(service_name.as_str()) {
        Ok(name) => name,
        Err(err) => {
            return Err(err);
        },
    };
    let hash_name = cat2(binary_name.as_str(), ".sha256");
    Ok(
        DiscoveryPlan {
            current_dir: joined_path(plugin_dir, "current"),
            binary_path: plugin_binary_target(plugin_dir, binary_name.as_str()),
            service_path: joined_path(plugin_dir, service_name.as_str()),
            hash_path: joined_path(plugin_dir, hash_name.as_str()),
            package_path: joined_path(plugin_dir, "package.zip"),
            service_name,
            binary_name,
            tls: manifest.tls,
        },
    )
}

// ── What is there ────────────────────────────────────────────────────────────

/// What is found of the files of a plan.
#[derive(Debug)]
pub struct DiscoveryFacts {
    /// Whether the TLS files it asks for are there, or why they could not be
    /// made.
    pub tls_files: Result<(), String>,
    pub has_binary: bool,
    pub has_service: bool,
    pub has_checksum: bool,
    /// The bytes of the binary, or why they could not be read.
    pub binary: Result<Vec<u8>, String>,
    /// The text of the checksum file, or why it could not be read.
    pub checksum: Result<String, String>,
    /// The bytes of the signature file, if there is one, or why they could not
    /// be read.
    pub signature: Option<Result<Vec<u8>, String>>,
}

/// The checked files of a plugin.
#[derive(Debug)]
pub struct CheckedFiles {
    pub sha256: String,
    pub binary_bytes: Vec<u8>,
    pub signature_bytes: Option<Vec<u8>>,
}

/// The checked files of a plugin.
pub struct FilesView {
    pub sha256: Seq<char>,
    pub binary_bytes: Seq<u8>,
    pub signature_bytes: Option<Seq<u8>>,
}

impl View for CheckedFiles {
    type V = FilesView;

    open spec fn view(&self) -> FilesView {
        FilesView {
            sha256: self.sha256@,
            binary_bytes: self.binary_bytes@,
            signature_bytes: opt_bytes_view(self.signature_bytes),
        }
    }
}

/// The files of a plan that have to be there, or the first that is not.
pub open spec fn presence(plan: PlanView, facts: DiscoveryFacts) -> Option<Refusal> {
    if let Err(err) = facts.tls_files {
        Some(failed("generate discovered plugin TLS files: "@ + err@))
    } else if !facts.has_binary {
        Some(bad("missing plugin binary "@ + plan.binary_path))
    } else if !facts.has_service {
        Some(bad("missing plugin service "@ + plan.service_path))
    } else if !facts.has_checksum {
        Some(bad("missing plugin checksum "@ + plan.hash_path))
    } else {
        None
    }
}

/// The files of a plugin, or the first thing that is wrong with them.
pub open spec fn files_of(plan: PlanView, facts: DiscoveryFacts) -> Result<FilesView, Refusal> {
    if presence(plan, facts) is Some {
        Err(presence(plan, facts)->Some_0)
    } else {
        match (facts.binary, facts.checksum) {
            (Err(err), _) => Err(failed("read plugin binary: "@ + err@)),
            (_, Err(err)) => Err(failed("read plugin checksum: "@ + err@)),
            (Ok(binary), Ok(text)) => if !is_sha256_text(trim(text@)) {
                Err(bad("plugin sha256 file must contain a 64-character hex digest"@))
            } else if !has_digest(binary@, trim(text@)) {
                Err(
                    mismatch(
                        "installed plugin binary"@,
                        trim(text@),
                        hex_text(sha256(binary@)),
                    ),
                )
            } else {
                match facts.signature {
                    Some(Err(err)) => Err(failed("read plugin signature: "@ + err@)),
                    Some(Ok(signature)) => Ok(
                        FilesView {
                            sha256: trim(text@),
                            binary_bytes: binary@,
                            signature_bytes: Some(signature@),
                        },
                    ),
                    None => Ok(
                        FilesView {
                            sha256: trim(text@),
                            binary_bytes: binary@,
                            signature_bytes: None,
                        },
                    ),
                }
            },
        }
    }
}

/// What an outcome with checked files stands for.
pub open spec fn files_outcome(out: Result<CheckedFiles, PluginError>) -> Result<
    FilesView,
    Refusal,
> {
    match out {
        Ok(files) => Ok(files@),
        Err(err) => Err(err@),
    }
}

/// Accepts the files of a plugin that are all there and whose binary has the
/// checksum that was stored for it.
pub fn check_discovery(plan: &DiscoveryPlan, facts: &DiscoveryFacts) -> (out: Result<
    CheckedFiles,
    PluginError,
>)
    ensures
        files_outcome(out) == files_of(plan@, *facts),
{
    match &facts.tls_files {
        Ok(()) => {},
        Err(err) => {
            return Err(
                PluginError::internal(
                    cat2("generate discovered plugin TLS files: ", err.as_str()),
                ),
            );
        },
    }
    if !facts.has_binary {
        return Err(
            PluginError::bad_request(cat2("missing plugin binary ", plan.binary_path.as_str())),
        );
    }
    if !facts.has_service {
        return Err(
            PluginError::bad_request(cat2("missing plugin service ", plan.service_path.as_str())),
        );
    }
    if !facts.has_checksum {
        return Err(
            PluginError::bad_request(cat2("missing plugin checksum ", plan.hash_path.as_str())),
        );
    }
    let binary = match &facts.binary {
        Ok(bytes) => bytes,
        Err(err) => {
            return Err(PluginError::internal(cat2("read plugin binary: ", err.as_str())));
        },
    };
    let text = match &facts.checksum {
        Ok(text) => text,
        Err(err) => {
            return Err(PluginError::internal(cat2("read plugin checksum: ", err.as_str())));
        },
    };
    let sum = match checksum_of_text(text.as_str()) {
        Ok(sum) => sum,
        Err(err) => {
            return Err(err);
        },
    };
    match verify_sha256(binary.as_slice(), sum.as_str(), "installed plugin binary") {
        Ok(()) => {},
        Err(err) => {
            return Err(err);
        },
    }
    let signature_bytes = match &facts.signature {
        Some(Ok(bytes)) => Some(slice_to_vec(bytes.as_slice())),
        Some(Err(err)) => {
            return Err(PluginError::internal(cat2("read plugin signature: ", err.as_str())));
        },
        None => None,
    };
    Ok(
        CheckedFiles {
            sha256: sum,
            binary_bytes: slice_to_vec(binary.as_slice()),
            signature_bytes,
        },
    )
}

// ── The record ───────────────────────────────────────────────────────────────

/// The record of a plugin that was found in the directory `dir`.
pub open spec fn discovered_of(
    dir: Seq<char>,
    m: ManifestView,
    files: FilesView,
    official: bool,
    enabled: bool,
    times: Seq<Option<u64>>,
    now: u64,
) -> RecordView {
    let plan = plan_of(dir, m);
    RecordView {
        id: plan.binary_name,
        name: m.name,
        description: m.description,
        version: m.version,
        service: plan.service_name,
        developer: m.developer,
        channel: channel_of(m.channel)->Ok_0,
        github_url: filled(m.github_url),
        webview: webview_of(m.webview)->Ok_0,
        tls: m.tls,
        icon: icon_of(m.icon)->Ok_0,
        binary_name: plan.binary_name,
        bin_path: bin_path_of(m.symlink)->Ok_0,
        sha256: files.sha256,
        install_dir: dir,
        package_path: plan.package_path,
        official,
        enabled,
        removable: true,
        target_name: None,
        installed_at: installed_time(times, now),
        updated_at: updated_time(times, now),
    }
}

/// What an outcome with a record stands for.
pub open spec fn found_outcome(out: Result<PluginRecord, PluginError>) -> Result<
    RecordView,
    Refusal,
> {
    match out {
        Ok(record) => Ok(record@),
        Err(err) => Err(err@),
    }
}

/// The record of a plugin that was found on disk, from its manifest, its
/// checked files and the times of its files.
pub fn discovered_record(
    plugin_dir: &str,
    manifest: &PluginManifest,
    files: &CheckedFiles,
    official: bool,
    enabled: bool,
    times: &Vec<Option<u64>>,
    now: u64,
) -> (out: Result<PluginRecord, PluginError>)
    ensures
        found_outcome(out) == (match manifest_refusal(manifest@) {
            Some(refusal) => Err(refusal),
            None => Ok(
                discovered_of(plugin_dir@, manifest@, files@, official, enabled, times@, now),
            ),
        }),
{
    match validate_manifest(manifest) {
        Ok(()) => {},
        Err(err) => {
            return Err(err);
        },
    }
    let service = trimmed(manifest.service.as_str());
    let binary_name = match derive_binary_name(service.as_str()) {
        Ok(name) => name,
        Err(err) => {
            return Err(err);
        },
    };
    let channel = match normalize_channel(opt_as_str(&manifest.channel)) {
        Ok(channel) => channel,
        Err(err) => {
            return Err(err);
        },
    };
    let webview = match normalize_webview_port(manifest.webview) {
        Ok(webview) => webview,
        Err(err) => {
            return Err(err);
        },
    };
    let icon = match normalize_icon_path(opt_as_str(&manifest.icon)) {
        Ok(icon) => icon,
        Err(err) => {
            return Err(err);
        },
    };
    let bin_path = match normalize_bin_path(opt_as_str(&manifest.symlink)) {
        Ok(path) => path,
        Err(err) => {
            return Err(err);
        },
    };
    let github_url = normalize_github_url(opt_as_str(&manifest.github_url));
    let (installed_at, updated_at) = file_times(times, now);
    Ok(
        PluginRecord {
            id: binary_name.clone(),
            name: manifest.name.clone(),
            description: manifest.description.clone(),
            version: manifest.version.clone(),
            service,
            developer: manifest.developer.clone(),
            channel,
            github_url,
            webview,
            tls: manifest.tls,
            icon,
            binary_name,
            bin_path,
            sha256: files.sha256.clone(),
            install_dir: plugin_dir.to_owned(),
            package_path: joined_path(plugin_dir, "package.zip"),
            official,
            enabled,
            removable: true,
            target_name: None,
            installed_at,
            updated_at,
        },
    )
}

/// What looking for a plugin in a directory gives: its record, or the first
/// thing that is wrong. `official` is what its signature is worth.
pub open spec fn discovery(
    dir: Seq<char>,
    manifest: ManifestFileView,
    facts: DiscoveryFacts,
    official: Result<bool, Refusal>,
    enabled: bool,
    times: Seq<Option<u64>>,
    now: u64,
) -> Result<RecordView, Refusal> {
    match manifest_file_refusal(manifest) {
        Some(refusal) => Err(refusal),
        None => {
            let m = manifest->Read_0;
            match (files_of(plan_of(dir, m), facts), official) {
                (Err(refusal), _) => Err(refusal),
                (_, Err(refusal)) => Err(refusal),
                (Ok(files), Ok(official)) => Ok(
                    discovered_of(dir, m, files, official, enabled, times, now),
                ),
            }
        },
    }
}

/// The record of the plugin in a directory, from all that was found there.
pub fn discover_plugin_record(
    plugin_dir: &str,
    manifest: &ManifestFile,
    facts: &DiscoveryFacts,
    official: Result<bool, PluginError>,
    enabled: bool,
    times: &Vec<Option<u64>>,
    now: u64,
) -> (out: Result<PluginRecord, PluginError>)
    ensures
        found_outcome(out) == discovery(
            plugin_dir@,
            manifest@,
            *facts,
            crate::plugins::links::flag_outcome(official),
            enabled,
            times@,
            now,
        ),
{
    let plan = match plan_discovery(plugin_dir, manifest) {
        Ok(plan) => plan,
        Err(err) => {
            return Err(err);
        },
    };
    let files = match check_discovery(&plan, facts) {
        Ok(files) => files,
        Err(err) => {
            return Err(err);
        },
    };
    let official = match official {
        Ok(official) => official,
        Err(err) => {
            return Err(err);
        },
    };
    match readable_manifest(manifest) {
        Ok(manifest) => discovered_record(
            plugin_dir,
            manifest,
            &files,
            official,
            enabled,
            times,
            now,
        ),
        Err(err) => Err(err),
    }
}

// ── Entries of the plugin directory ──────────────────────────────────────────

/// Whether an entry of the plugin directory may be a plugin: a directory whose
/// name does not begin with a dot.
pub open spec fn may_be_plugin(is_dir: bool, name: Seq<char>) -> bool {
    is_dir && !(name.len() > 0 && name[0] == '.')
}

/// Whether an entry of the plugin directory may be a plugin.
pub fn is_plugin_entry(is_dir: bool, name: &str) -> (out: bool)
    ensures
        out == may_be_plugin(is_dir, name@),
{
    let cs = to_chars(name);
    is_dir && !(cs.len() > 0 && cs[0] == '.')
}

/// What to do about an update of a plugin that was interrupted.
#[derive(Debug, Clone, Copy, PartialEq, Eq, Structural)]
pub enum RecoveryAction {
    /// The installed state is good: forget the saved one.
    Clean,
    /// Only the saved state is good: bring it back.
    Restore,
    /// Neither is good.
    GiveUp,
}

/// What to do about an interrupted update, going by which state is good.
pub fn recovery_action(current_is_good: bool, saved_is_good: bool) -> (out: RecoveryAction)
    ensures
        out == (if current_is_good {
            RecoveryAction::Clean
        } else if saved_is_good {
            RecoveryAction::Restore
        } else {
            RecoveryAction::GiveUp
        }),
{
    if current_is_good {
        RecoveryAction::Clean
    } else if saved_is_good {
        RecoveryAction::Restore
    } else {
        RecoveryAction::GiveUp
    }
}

/// What bringing back a saved state needs to know.
#[derive(Debug)]
pub struct RecoveryPlan {
    /// Where the unit of the service is installed.
    pub service_path: String,
    /// The link of the interrupted update, if the plugin has one.
    pub bin_path: Option<String>,
    /// What that link points to.
    pub target: String,
}

/// What bringing back the saved state `saved` of the plugin in `plugin_dir`
/// needs to know. `existing` is what the books say of it.
pub fn plan_recovery(
    plugin_dir: &str,
    systemd_dir: &str,
    existing: &Option<PluginRecord>,
    saved: &PluginRecord,
) -> (out: RecoveryPlan)
    ensures
        out.service_path@ == join_path(systemd_dir@, saved@.service),
        opt_view(out.bin_path) == (match *existing {
            Some(record) => record@.bin_path,
            None => None,
        }),
        out.target@ == (match *existing {
            Some(record) => binary_path_of(record@),
            None => binary_target(plugin_dir@, saved@.binary_name),
        }),
{
    let service_path = joined_path(systemd_dir, saved.service.as_str());
    match existing {
        Some(record) => RecoveryPlan {
            service_path,
            bin_path: clone_opt(&record.bin_path),
            target: current_binary_path(record),
        },
        None => RecoveryPlan {
            service_path,
            bin_path: None,
            target: plugin_binary_target(plugin_dir, saved.binary_name.as_str()),
        },
    }
}

/// The link that a plugin should have, if it is one of the removable plugins
/// with a link and its binary is there: the link and its target.
pub open spec fn link_to_reconcile(record: RecordView, has_binary: bool) -> Option<
    (Seq<char>, Seq<char>),
> {
    if record.target_name is None && record.removable && has_binary {
        match record.bin_path {
            Some(path) => Some((path, binary_path_of(record))),
            None => None,
        }
    } else {
        None
    }
}

/// The link that a plugin should have: the link and its target.
pub fn reconcile_plugin_bin_path(record: &PluginRecord, has_binary: bool) -> (out: Option<
    (String, String),
>)
    ensures
        crate::text::opt_pair_view(out) == link_to_reconcile(record@, has_binary),
{
    if record.target_name.is_some() || !record.removable || !has_binary {
        return None;
    }
    match &record.bin_path {
        Some(path) => Some((path.clone(), current_binary_path(record))),
        None => None,
    }
}

// ── Laws ─────────────────────────────────────────────────────────────────────

/// A plugin is found on disk only with a good manifest and a binary of the
/// stored checksum, and is then removable.
pub proof fn found_plugins_are_intact(
    dir: Seq<char>,
    manifest: ManifestFileView,
    facts: DiscoveryFacts,
    official: Result<bool, Refusal>,
    enabled: bool,
    times: Seq<Option<u64>>,
    now: u64,
)
    ensures
        discovery(dir, manifest, facts, official, enabled, times, now) matches Ok(record) ==> {
            &&& manifest matches ManifestFileView::Read(m) && manifest_refusal(m) is None
            &&& facts.binary matches Ok(bytes) && has_digest(bytes@, record.sha256)
            &&& is_sha256_text(record.sha256)
            &&& record.removable && record.target_name is None
            &&& record.install_dir == dir
        },
{
}

/// A plugin is official if and only if it has a signature that the official key
/// made. Without a signature, or without the key, it is not; a signature that was
/// not made by the key refuses the plugin.
pub proof fn only_matching_signatures_are_official(
    has_signature: bool,
    has_certificate: bool,
    check: SignatureCheck,
)
    ensures
        ({
            let out = official_of(has_signature, has_certificate, check);
            let asked = has_signature && has_certificate;
            &&& out == Ok::<bool, Refusal>(true) <==> asked && check is Matched
            &&& out == Ok::<bool, Refusal>(false) <==> !asked
            &&& asked && check is Mismatched ==> out is Err && out->Err_0.status == 400
            &&& asked && check is Failed ==> out is Err && out->Err_0.status == 500
        }),
{
}

/// A plugin is found on disk if and only if nothing about it is wrong: its
/// manifest is good, its TLS files, its binary, its unit and its checksum are
/// there and can be read, the binary has the checksum, and its signature can be
/// read and does not refuse it.
pub proof fn intact_plugins_are_found(
    dir: Seq<char>,
    manifest: ManifestFileView,
    facts: DiscoveryFacts,
    official: Result<bool, Refusal>,
    enabled: bool,
    times: Seq<Option<u64>>,
    now: u64,
)
    ensures
        discovery(dir, manifest, facts, official, enabled, times, now) is Ok <==> {
            &&& manifest matches ManifestFileView::Read(m) && manifest_refusal(m) is None
            &&& facts.tls_files is Ok
            &&& facts.has_binary && facts.has_service && facts.has_checksum
            &&& facts.binary is Ok && facts.checksum is Ok
            &&& is_sha256_text(trim(facts.checksum->Ok_0@))
            &&& lower(trim(facts.checksum->Ok_0@)) == hex_text(sha256(facts.binary->Ok_0@))
            &&& !(facts.signature matches Some(Err(_)))
            &&& official is Ok
        },
{
}

/// What the books say of a plugin that was found: what its manifest says, with
/// the names that its service gives it, the checksum that was found beside it, and
/// the link path that its manifest asks for.
pub proof fn found_plugins_follow_their_manifest(
    dir: Seq<char>,
    manifest: ManifestFileView,
    facts: DiscoveryFacts,
    official: Result<bool, Refusal>,
    enabled: bool,
    times: Seq<Option<u64>>,
    now: u64,
)
    ensures
        discovery(dir, manifest, facts, official, enabled, times, now) matches Ok(r) ==> {
            let m = manifest->Read_0;
            &&& r.service == trim(m.service)
            &&& binary_name_of(r.service) == Ok::<Seq<char>, Refusal>(r.binary_name)
            &&& r.id == r.binary_name
            &&& r.name == m.name && r.description == m.description && r.version == m.version
            &&& r.developer == m.developer && r.tls == m.tls
            &&& channel_of(m.channel) == Ok::<Option<Seq<char>>, Refusal>(r.channel)
            &&& webview_of(m.webview) == Ok::<Option<u16>, Refusal>(r.webview)
            &&& icon_of(m.icon) == Ok::<Option<Seq<char>>, Refusal>(r.icon)
            &&& bin_path_of(m.symlink) == Ok::<Option<Seq<char>>, Refusal>(r.bin_path)
            &&& r.github_url == filled(m.github_url)
            &&& r.sha256 == trim(facts.checksum->Ok_0@)
            &&& r.install_dir == dir && r.package_path == join_path(dir, "package.zip"@)
            &&& Ok::<bool, Refusal>(r.official) == official && r.enabled == enabled
            &&& r.removable && r.target_name is None
        },
{
}

/// The files of a plugin that is looked at lie in its directory, under the names
/// that its service gives them.
pub proof fn found_files_lie_in_their_directory(dir: Seq<char>, m: ManifestView)
    requires
        manifest_refusal(m) is None,
    ensures
        ({
            let plan = plan_of(dir, m);
            let name = plan.binary_name;
            &&& plan.service_name == trim(m.service)
            &&& binary_name_of(plan.service_name) == Ok::<Seq<char>, Refusal>(name)
            &&& plan.current_dir == join_path(dir, "current"@)
            &&& plan.binary_path == join_path(join_path(dir, "current"@), name)
            &&& plan.service_path == join_path(dir, plan.service_name)
            &&& plan.hash_path == join_path(dir, name + ".sha256"@)
            &&& plan.package_path == join_path(dir, "package.zip"@)
            &&& plan.tls == m.tls
        }),
{
}

/// Plugins are looked for in every directory whose name does not begin with a
/// dot, and nowhere else.
pub proof fn hidden_directories_are_passed_over(is_dir: bool, name: Seq<char>)
    requires
        name.len() > 0,
    ensures
        may_be_plugin(is_dir, name) <==> is_dir && name[0] != '.',
{
}

/// A plugin wants its link if and only if it can be removed, belongs to no update
/// target, has a link path and its binary is there; the link then points to the
/// binary in the directory that the plugin runs in.
pub proof fn removable_plugins_want_their_link(r: RecordView, has_binary: bool)
    ensures
        link_to_reconcile(r, has_binary) is Some <==> r.removable && r.target_name is None
            && r.bin_path is Some && has_binary,
        link_to_reconcile(r, has_binary) matches Some((link, target)) ==> r.bin_path == Some(link)
            && target == join_path(join_path(r.install_dir, "current"@), r.binary_name),
{
}

} // verus!
