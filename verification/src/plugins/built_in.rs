//! The plugins that come with the system.
use crate::digest::{hex_text, sha256, sha256_hex};
use crate::paths::{file_name, join_path, joined_path, last_name};
use crate::plugins::error::{bad, failed, PluginError, Refusal};
use crate::plugins::manifest::{
    bin_path_of, binary_name_of, channel_of, derive_binary_name, filled, icon_of,
    manifest_refusal, normalize_bin_path, normalize_channel, normalize_github_url,
    normalize_icon_path, normalize_webview_port, validate_manifest, webview_of, ManifestView,
    PluginManifest,
};
use crate::plugins::records::{
    earliest, first_available_timestamp, latest, latest_available_timestamp, times_lie_between,
    PluginRecord, RecordView,
};
use crate::text::{
    cat2, cat4, opt_as_str, opt_view, same, same_opt, trim, trimmed,
};
use vstd::prelude::*;

verus! {

// ── Targets ──────────────────────────────────────────────────────────────────

/// A program of the system that can be updated.
#[derive(Debug)]
pub struct Target {
    pub name: String,
    pub symlink_path: String,
    pub binary_path: String,
    pub service: String,
    pub meta_dir: String,
}

/// What a target holds.
pub struct TargetView {
    pub name: Seq<char>,
    pub symlink_path: Seq<char>,
    pub binary_path: Seq<char>,
    pub service: Seq<char>,
    pub meta_dir: Seq<char>,
}

impl View for Target {
    type V = TargetView;

    open spec fn view(&self) -> TargetView {
        TargetView {
            name: self.name@,
            symlink_path: self.symlink_path@,
            binary_path: self.binary_path@,
            service: self.service@,
            meta_dir: self.meta_dir@,
        }
    }
}

/// The target `name` of the program `program`.
pub open spec fn target_of(
    name: Seq<char>,
    program: Seq<char>,
    meta_dir: Seq<char>,
    bin_dir: Seq<char>,
    plugins_dir: Seq<char>,
) -> TargetView {
    TargetView {
        name,
        symlink_path: join_path(bin_dir, program),
        binary_path: join_path(plugins_dir, program + "/current/"@ + program),
        service: program + ".service"@,
        meta_dir,
    }
}

/// The target `name` of the program `program`.
fn make_target(
    name: &str,
    program: &str,
    meta_dir: &str,
    bin_dir: &str,
    plugins_dir: &str,
) -> (out: Target)
    ensures
        out@ == target_of(name@, program@, meta_dir@, bin_dir@, plugins_dir@),
{
    let inner = crate::text::cat3(program, "/current/", program);
    Target {
        name: name.to_owned(),
        symlink_path: joined_path(bin_dir, program),
        binary_path: joined_path(plugins_dir, inner.as_str()),
        service: cat2(program, ".service"),
        meta_dir: meta_dir.to_owned(),
    }
}

/// The programs of the system that can be updated.
pub fn make_core_targets(meta_dir: &str, bin_dir: &str, plugins_dir: &str) -> (out: Vec<Target>)
    ensures
        crate::order::viewed(out@) == seq![
            target_of("commd"@, "kaonic-commd"@, meta_dir@, bin_dir@, plugins_dir@),
            target_of("gateway"@, "kaonic-gateway"@, meta_dir@, bin_dir@, plugins_dir@),
            target_of("factory"@, "kaonic-factory"@, meta_dir@, bin_dir@, plugins_dir@),
        ],
{
    let mut out: Vec<Target> = Vec::new();
    out.push(make_target("commd", "kaonic-commd", meta_dir, bin_dir, plugins_dir));
    out.push(make_target("gateway", "kaonic-gateway", meta_dir, bin_dir, plugins_dir));
    out.push(make_target("factory", "kaonic-factory", meta_dir, bin_dir, plugins_dir));
    out
}

/// The name of the binary of a target: the last name of its link.
pub open spec fn target_binary(target: TargetView) -> Seq<char> {
    match file_name(target.symlink_path) {
        Some(name) => name,
        None => target.name,
    }
}

/// The name of the binary of a target.
pub fn binary_of_target(target: &Target) -> (out: String)
    ensures
        out@ == target_binary(target@),
{
    match last_name(target.symlink_path.as_str()) {
        Some(name) => name,
        None => target.name.clone(),
    }
}

// ── Built-in plugins ─────────────────────────────────────────────────────────

/// A plugin that comes with the system.
#[derive(Debug)]
pub struct CorePluginSpec {
    pub target: Target,
    pub plugin_id: String,
    pub plugin_dir: String,
}

/// What a built-in plugin holds.
pub struct CoreView {
    pub target: TargetView,
    pub plugin_id: Seq<char>,
    pub plugin_dir: Seq<char>,
}

impl View for CorePluginSpec {
    type V = CoreView;

    open spec fn view(&self) -> CoreView {
        CoreView {
            target: self.target@,
            plugin_id: self.plugin_id@,
            plugin_dir: self.plugin_dir@,
        }
    }
}

impl CorePluginSpec {
    /// The plugin of a target, named after its binary.
    pub fn new(target: Target, plugins_root: &str) -> (out: CorePluginSpec)
        ensures
            out@ == (CoreView {
                target: target@,
                plugin_id: target_binary(target@),
                plugin_dir: join_path(plugins_root@, target_binary(target@)),
            }),
    {
        let plugin_id = binary_of_target(&target);
        let plugin_dir = joined_path(plugins_root, plugin_id.as_str());
        CorePluginSpec { target, plugin_id, plugin_dir }
    }
}

/// What `{:?}` prints of an optional text.
pub uninterp spec fn debug_text(text: Option<Seq<char>>) -> Seq<char>;

/// `format!("{:?}", text)` on an optional string: the result is named
/// `debug_text`, and is `None` where there is no string. How the characters of
/// a string are escaped is not said.
#[verifier::external_body]
fn print_debug(text: &Option<String>) -> (out: String)
    ensures
        out@ == debug_text(opt_view(*text)),
        opt_view(*text) is None ==> out@ == "None"@,
{
    format!("{:?}", text)
}

/// Why the manifest of a built-in plugin is refused, if it is: it has to name
/// the service, the binary and the link of its target.
pub open spec fn core_refusal(target: TargetView, m: ManifestView) -> Option<Refusal> {
    let service = trim(m.service);
    if manifest_refusal(m) is Some {
        manifest_refusal(m)
    } else if service != target.service {
        Some(
            bad(
                "built-in plugin manifest service "@ + service
                    + " does not match target service "@ + target.service,
            ),
        )
    } else if binary_name_of(service)->Ok_0 != target_binary(target) {
        Some(
            bad(
                "built-in plugin manifest binary "@ + binary_name_of(service)->Ok_0
                    + " does not match target binary "@ + target_binary(target),
            ),
        )
    } else if bin_path_of(m.symlink)->Ok_0 != Some(target.symlink_path) {
        Some(
            bad(
                "built-in plugin manifest bin_path "@ + debug_text(bin_path_of(m.symlink)->Ok_0)
                    + " does not match target path "@ + target.symlink_path,
            ),
        )
    } else {
        None
    }
}

/// Accepts the manifest of a built-in plugin that fits its target.
pub fn check_core_manifest(spec: &CorePluginSpec, manifest: &PluginManifest) -> (out: Result<
    (),
    PluginError,
>)
    ensures
        match core_refusal(spec@.target, manifest@) {
            Some(refusal) => out matches Err(err) && err@ == refusal,
            None => out is Ok,
        },
{
    match validate_manifest(manifest) {
        Ok(()) => {},
        Err(err) => {
            return Err(err);
        },
    }
    let service = trimmed(manifest.service.as_str());
    let wanted = binary_of_target(&spec.target);
    let binary = match derive_binary_name(service.as_str()) {
        Ok(name) => name,
        Err(err) => {
            return Err(err);
        },
    };
    if !same(service.as_str(), spec.target.service.as_str()) {
        return Err(
            PluginError::bad_request(
                cat4(
                    "built-in plugin manifest service ",
                    service.as_str(),
                    " does not match target service ",
                    spec.target.service.as_str(),
                ),
            ),
        );
    }
    if !same(binary.as_str(), wanted.as_str()) {
        return Err(
            PluginError::bad_request(
                cat4(
                    "built-in plugin manifest binary ",
                    binary.as_str(),
                    " does not match target binary ",
                    wanted.as_str(),
                ),
            ),
        );
    }
    let bin_path = match normalize_bin_path(opt_as_str(&manifest.symlink)) {
        Ok(path) => path,
        Err(err) => {
            return Err(err);
        },
    };
    if !same_opt(opt_as_str(&bin_path), Some(spec.target.symlink_path.as_str())) {
        let shown = print_debug(&bin_path);
        return Err(
            PluginError::bad_request(
                cat4(
                    "built-in plugin manifest bin_path ",
                    shown.as_str(),
                    " does not match target path ",
                    spec.target.symlink_path.as_str(),
                ),
            ),
        );
    }
    Ok(())
}

// ── Synchronising ────────────────────────────────────────────────────────────

/// What became of a manifest file.
#[derive(Debug)]
pub enum ManifestFile {
    /// It could not be read, and why.
    Unreadable(String),
    /// Its text is no manifest, and why.
    Malformed(String),
    /// It is a manifest.
    Read(PluginManifest),
}

/// What became of a manifest file.
pub enum ManifestFileView {
    Unreadable(Seq<char>),
    Malformed(Seq<char>),
    Read(ManifestView),
}

impl View for ManifestFile {
    type V = ManifestFileView;

    open spec fn view(&self) -> ManifestFileView {
        match *self {
            ManifestFile::Unreadable(err) => ManifestFileView::Unreadable(err@),
            ManifestFile::Malformed(err) => ManifestFileView::Malformed(err@),
            ManifestFile::Read(manifest) => ManifestFileView::Read(manifest@),
        }
    }
}

/// What is found beside the manifest of a built-in plugin.
#[derive(Debug)]
pub struct CoreFacts {
    /// Whether the TLS files it asks for are there, or why they could not be
    /// made.
    pub tls_files: Result<(), String>,
    /// The text of its version file.
    pub version: Option<String>,
    /// The text of its checksum file.
    pub checksum: Option<String>,
    /// The bytes of its binary.
    pub binary: Option<Vec<u8>>,
    /// The times of its files, as far as they are known.
    pub times: Vec<Option<u64>>,
    /// The time now.
    pub now: u64,
    /// Whether its service is enabled.
    pub enabled: bool,
}

/// A text without white space around it, or another one where there is none.
pub open spec fn trimmed_or(text: Option<String>, default: Seq<char>) -> Seq<char> {
    match text {
        Some(text) => trim(text@),
        None => default,
    }
}

/// A text without white space around it, or another one.
fn read_trimmed(text: &Option<String>, default: String) -> (out: String)
    ensures
        out@ == trimmed_or(*text, default@),
{
    match text {
        Some(text) => trimmed(text.as_str()),
        None => default,
    }
}

/// The checksum of a file that may be missing.
pub open spec fn checksum_or_none(binary: Option<Vec<u8>>) -> Seq<char> {
    match binary {
        Some(bytes) => hex_text(sha256(bytes@)),
        None => Seq::empty(),
    }
}

/// The checksum of a file that may be missing.
fn sha256_file(binary: &Option<Vec<u8>>) -> (out: String)
    ensures
        out@ == checksum_or_none(*binary),
{
    match binary {
        Some(bytes) => sha256_hex(bytes.as_slice()),
        None => {
            let out = String::new();
            assert(out@ =~= Seq::<char>::empty());
            out
        },
    }
}

/// The time of the first sight of files with the times `times`.
pub open spec fn installed_time(times: Seq<Option<u64>>, now: u64) -> u64 {
    match earliest(times) {
        Some(t) => t,
        None => now,
    }
}

/// The time of the last change of files with the times `times`.
pub open spec fn updated_time(times: Seq<Option<u64>>, now: u64) -> u64 {
    match latest(times) {
        Some(t) => t,
        None => installed_time(times, now),
    }
}

/// The time of the first sight and of the last change of files.
pub fn file_times(times: &Vec<Option<u64>>, now: u64) -> (out: (u64, u64))
    ensures
        out == (installed_time(times@, now), updated_time(times@, now)),
{
    let installed: u64 = match first_available_timestamp(times) {
        Some(t) => t,
        None => now,
    };
    let updated: u64 = match latest_available_timestamp(times) {
        Some(t) => t,
        None => installed,
    };
    (installed, updated)
}

/// The record of a built-in plugin.
pub open spec fn core_record(core: CoreView, m: ManifestView, facts: CoreFacts) -> RecordView {
    RecordView {
        id: core.plugin_id,
        name: m.name,
        description: m.description,
        version: trimmed_or(facts.version, m.version),
        service: trim(m.service),
        developer: m.developer,
        channel: channel_of(m.channel)->Ok_0,
        github_url: filled(m.github_url),
        webview: webview_of(m.webview)->Ok_0,
        tls: m.tls,
        icon: icon_of(m.icon)->Ok_0,
        binary_name: target_binary(core.target),
        bin_path: bin_path_of(m.symlink)->Ok_0,
        sha256: trimmed_or(facts.checksum, checksum_or_none(facts.binary)),
        install_dir: core.plugin_dir,
        package_path: join_path(core.plugin_dir, "package.zip"@),
        official: true,
        enabled: facts.enabled,
        removable: false,
        target_name: Some(core.target.name),
        installed_at: installed_time(facts.times@, facts.now),
        updated_at: updated_time(facts.times@, facts.now),
    }
}

/// What synchronising a built-in plugin gives: its record, nothing where it has
/// no manifest, or what is wrong.
pub open spec fn core_sync(
    core: CoreView,
    manifest: Option<ManifestFileView>,
    facts: CoreFacts,
) -> Result<Option<RecordView>, Refusal> {
    match manifest {
        None => Ok(None),
        Some(ManifestFileView::Unreadable(err)) => Err(
            failed("read built-in plugin manifest: "@ + err),
        ),
        Some(ManifestFileView::Malformed(err)) => Err(
            bad("bad built-in plugin manifest: "@ + err),
        ),
        Some(ManifestFileView::Read(m)) => match core_refusal(core.target, m) {
            Some(refusal) => Err(refusal),
            None => match facts.tls_files {
                Err(err) => Err(failed("generate built-in plugin TLS files: "@ + err@)),
                Ok(()) => Ok(Some(core_record(core, m, facts))),
            },
        },
    }
}

/// What an outcome with an optional record stands for.
pub open spec fn record_outcome(out: Result<Option<PluginRecord>, PluginError>) -> Result<
    Option<RecordView>,
    Refusal,
> {
    match out {
        Ok(Some(record)) => Ok(Some(record@)),
        Ok(None) => Ok(None),
        Err(err) => Err(err@),
    }
}

/// The record of a built-in plugin, from its manifest and what is found beside
/// it.
pub fn sync_core_plugin(
    spec: &CorePluginSpec,
    manifest: Option<ManifestFile>,
    facts: &CoreFacts,
) -> (out: Result<Option<PluginRecord>, PluginError>)
    ensures
        record_outcome(out) == core_sync(
            spec@,
            match manifest {
                Some(file) => Some(file@),
                None => None,
            },
            *facts,
        ),
{
    let manifest = match manifest {
        None => {
            return Ok(None);
        },
        Some(ManifestFile::Unreadable(err)) => {
            return Err(
                PluginError::internal(cat2("read built-in plugin manifest: ", err.as_str())),
            );
        },
        Some(ManifestFile::Malformed(err)) => {
            return Err(
                PluginError::bad_request(cat2("bad built-in plugin manifest: ", err.as_str())),
            );
        },
        Some(ManifestFile::Read(manifest)) => manifest,
    };
    match check_core_manifest(spec, &manifest) {
        Ok(()) => {},
        Err(err) => {
            return Err(err);
        },
    }
    match &facts.tls_files {
        Ok(()) => {},
        Err(err) => {
            return Err(
                PluginError::internal(
                    cat2("generate built-in plugin TLS files: ", err.as_str()),
                ),
            );
        },
    }
    let channel = match normalize_channel(opt_as_str(&manifest.channel)) {
        Ok(channel) => channel,
        Err(err) => {
            return Err(err);
        },
    };
    let webview = match normalize_webview_port(manifest.webview) {
        Ok(webview) => webview,
        Err(err) => {
            return Err(err);
        },
    };
    let icon = match normalize_icon_path(opt_as_str(&manifest.icon)) {
        Ok(icon) => icon,
        Err(err) => {
            return Err(err);
        },
    };
    let bin_path = match normalize_bin_path(opt_as_str(&manifest.symlink)) {
        Ok(path) => path,
        Err(err) => {
            return Err(err);
        },
    };
    let github_url = normalize_github_url(opt_as_str(&manifest.github_url));
    let (installed_at, updated_at) = file_times(&facts.times, facts.now);
    let computed = sha256_file(&facts.binary);
    let record = PluginRecord {
        id: spec.plugin_id.clone(),
        version: read_trimmed(&facts.version, manifest.version),
        service: trimmed(manifest.service.as_str()),
        name: manifest.name,
        description: manifest.description,
        developer: manifest.developer,
        channel,
        github_url,
        webview,
        tls: manifest.tls,
        icon,
        binary_name: binary_of_target(&spec.target),
        bin_path,
        sha256: read_trimmed(&facts.checksum, computed),
        install_dir: spec.plugin_dir.clone(),
        package_path: joined_path(spec.plugin_dir.as_str(), "package.zip"),
        official: true,
        enabled: facts.enabled,
        removable: false,
        target_name: Some(spec.target.name.clone()),
        installed_at,
        updated_at,
    };
    Ok(Some(record))
}

/// The record of a built-in plugin names its target, cannot be removed, and is
/// found through the link of the target.
pub proof fn built_in_records_name_their_target(
    core: CoreView,
    manifest: Option<ManifestFileView>,
    facts: CoreFacts,
)
    ensures
        core_sync(core, manifest, facts) matches Ok(Some(record)) ==> {
            &&& record.target_name == Some(core.target.name)
            &&& !record.removable
            &&& record.official
            &&& record.service == core.target.service
            &&& record.bin_path == Some(core.target.symlink_path)
            &&& record.binary_name == target_binary(core.target)
            &&& crate::plugins::records::binary_path_of(record) == core.target.symlink_path
        },
{
}

/// A built-in plugin without a manifest is passed over. One with a manifest is
/// entered if and only if the manifest is good, names the service, the binary and
/// the link of its target, and its TLS files are there.
pub proof fn built_in_plugins_match_their_target(
    core: CoreView,
    manifest: Option<ManifestFileView>,
    facts: CoreFacts,
)
    ensures
        core_sync(core, manifest, facts) == Ok::<Option<RecordView>, Refusal>(None) <==> manifest
            is None,
        core_sync(core, manifest, facts) matches Ok(Some(_)) <==> {
            &&& manifest matches Some(ManifestFileView::Read(m)) && {
                &&& manifest_refusal(m) is None
                &&& trim(m.service) == core.target.service
                &&& binary_name_of(core.target.service) == Ok::<Seq<char>, Refusal>(
                    target_binary(core.target),
                )
                &&& bin_path_of(m.symlink) == Ok::<Option<Seq<char>>, Refusal>(
                    Some(core.target.symlink_path),
                )
            }
            &&& facts.tls_files is Ok
        },
{
}

/// What the books say of a built-in plugin: what its manifest says, with the
/// version and the checksum that are kept beside it; without these, the version of
/// the manifest, and the digest of its binary, if there is one.
pub proof fn built_in_records_tell_of_their_files(
    core: CoreView,
    m: ManifestView,
    facts: CoreFacts,
)
    ensures
        core_sync(core, Some(ManifestFileView::Read(m)), facts) matches Ok(Some(r)) ==> {
            &&& r.id == core.plugin_id && r.install_dir == core.plugin_dir
            &&& r.package_path == join_path(core.plugin_dir, "package.zip"@)
            &&& r.name == m.name && r.description == m.description && r.developer == m.developer
            &&& r.tls == m.tls && r.enabled == facts.enabled
            &&& facts.version matches Some(text) ==> r.version == trim(text@)
            &&& facts.version is None ==> r.version == m.version
            &&& facts.checksum matches Some(text) ==> r.sha256 == trim(text@)
            &&& facts.checksum is None && facts.binary is None ==> r.sha256.len() == 0
            &&& facts.checksum is None ==> (facts.binary matches Some(bytes) ==> r.sha256
                == hex_text(sha256(bytes@)))
            &&& channel_of(m.channel) == Ok::<Option<Seq<char>>, Refusal>(r.channel)
            &&& webview_of(m.webview) == Ok::<Option<u16>, Refusal>(r.webview)
            &&& icon_of(m.icon) == Ok::<Option<Seq<char>>, Refusal>(r.icon)
            &&& r.github_url == filled(m.github_url)
        },
{
}

/// A plugin was installed when the earliest of its files was made, and updated
/// when the latest was; where no time is known, both are now.
pub proof fn file_times_are_taken(times: Seq<Option<u64>>, now: u64)
    ensures
        installed_time(times, now) <= updated_time(times, now),
        forall|t: u64|
            #![trigger times.contains(Some(t))]
            times.contains(Some(t)) ==> installed_time(times, now) <= t <= updated_time(times, now),
        (exists|t: u64| #![trigger times.contains(Some(t))] times.contains(Some(t)))
            ==> times.contains(Some(installed_time(times, now))) && times.contains(
            Some(updated_time(times, now)),
        ),
        !(exists|t: u64| #![trigger times.contains(Some(t))] times.contains(Some(t)))
            ==> installed_time(times, now) == now && updated_time(times, now) == now,
{
    times_lie_between(times);
    if earliest(times) is Some {
        assert(times.contains(Some(earliest(times)->Some_0)));
    }
}

} // verus!
