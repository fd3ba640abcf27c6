//! Installing a plugin from its package, step by step.
use crate::order::viewed;
use crate::paths::{join_path, joined_path};
use crate::plugins::discovery::found_outcome;
use crate::plugins::error::{PluginError, Refusal};
use crate::plugins::manifest::{
    channel_of, filled, icon_of, normalize_channel, normalize_github_url, normalize_icon_path,
    normalize_webview_port, webview_of,
};
use crate::plugins::package::{
    manifest_file_name, manifest_name, FileView, PackageView, PluginPackage, PluginPackageFile,
};
use crate::plugins::records::{
    binary_target, plugin_binary_target, PluginMessage, PluginRecord, RecordView,
};
use crate::plugins::rollback::{base_name, kept_names, SpotView};
use crate::text::{cat2, cat4, clone_opt, opt_as_str};
use vstd::prelude::*;
use vstd::slice::slice_to_vec;
use vstd::utf8::encode_utf8;

verus! {

// ── Plan ─────────────────────────────────────────────────────────────────────

/// Where a plugin is installed, and what becomes of its service.
#[derive(Debug)]
pub struct InstallPlan {
    pub plugin_dir: String,
    pub rollback_dir: String,
    pub systemd_dir: String,
    pub service_path: String,
    /// What the link of the plugin points to.
    pub binary_target: String,
    /// Whether the service is stopped before.
    pub stop_first: bool,
    /// Whether the service is enabled after.
    pub should_enable: bool,
    /// Whether the service is started after.
    pub should_start: bool,
}

/// Where a plugin is installed, and what becomes of its service.
pub struct InstallPlanView {
    pub plugin_dir: Seq<char>,
    pub rollback_dir: Seq<char>,
    pub systemd_dir: Seq<char>,
    pub service_path: Seq<char>,
    pub binary_target: Seq<char>,
    pub stop_first: bool,
    pub should_enable: bool,
    pub should_start: bool,
}

impl View for InstallPlan {
    type V = InstallPlanView;

    open spec fn view(&self) -> InstallPlanView {
        InstallPlanView {
            plugin_dir: self.plugin_dir@,
            rollback_dir: self.rollback_dir@,
            systemd_dir: self.systemd_dir@,
            service_path: self.service_path@,
            binary_target: self.binary_target@,
            stop_first: self.stop_first,
            should_enable: self.should_enable,
            should_start: self.should_start,
        }
    }
}

/// What the books say of a plugin.
pub open spec fn opt_record_view(record: Option<PluginRecord>) -> Option<RecordView> {
    match record {
        Some(record) => Some(record@),
        None => None,
    }
}

/// Where a package is installed. A plugin that is new is enabled and started;
/// one that is updated stays as it was: enabled or not, running or not.
pub open spec fn install_plan_of(
    plugins_root: Seq<char>,
    systemd_dir: Seq<char>,
    id: Seq<char>,
    binary_name: Seq<char>,
    service: Seq<char>,
    existing: Option<RecordView>,
    was_running: bool,
    had_unit: bool,
) -> InstallPlanView {
    let dir = join_path(plugins_root, id);
    InstallPlanView {
        plugin_dir: dir,
        rollback_dir: join_path(dir, ".rollback"@),
        systemd_dir,
        service_path: join_path(systemd_dir, service),
        binary_target: binary_target(dir, binary_name),
        stop_first: existing is Some || had_unit,
        should_enable: match existing {
            Some(record) => record.enabled,
            None => true,
        },
        should_start: existing is None || was_running,
    }
}

/// Where a package is installed, and what becomes of its service.
pub fn plan_install(
    plugins_root: &str,
    systemd_dir: &str,
    package: &PluginPackage,
    existing: &Option<PluginRecord>,
    was_running: bool,
    had_unit: bool,
) -> (out: InstallPlan)
    ensures
        out@ == install_plan_of(
            plugins_root@,
            systemd_dir@,
            package@.id,
            package@.binary_name,
            package@.service_name,
            opt_record_view(*existing),
            was_running,
            had_unit,
        ),
{
    let plugin_dir = joined_path(plugins_root, package.id.as_str());
    let should_enable = match existing {
        Some(record) => record.enabled,
        None => true,
    };
    InstallPlan {
        rollback_dir: joined_path(plugin_dir.as_str(), ".rollback"),
        service_path: joined_path(systemd_dir, package.service_name.as_str()),
        systemd_dir: systemd_dir.to_owned(),
        binary_target: plugin_binary_target(plugin_dir.as_str(), package.binary_name.as_str()),
        plugin_dir,
        stop_first: existing.is_some() || had_unit,
        should_enable,
        should_start: existing.is_none() || was_running,
    }
}

// ── Steps ────────────────────────────────────────────────────────────────────

/// A place that an installation changes.
#[derive(Debug)]
pub enum Place {
    /// The directory that the plugin runs in.
    Current,
    /// A file below that directory.
    InCurrent(String),
    /// A file beside that directory.
    Stored(String),
    /// The directory of systemd units.
    Units,
    /// The unit of the plugin's service.
    Unit,
}

/// A place that an installation changes.
pub enum PlaceView {
    Current,
    InCurrent(Seq<char>),
    Stored(Seq<char>),
    Units,
    Unit,
}

impl View for Place {
    type V = PlaceView;

    open spec fn view(&self) -> PlaceView {
        match *self {
            Place::Current => PlaceView::Current,
            Place::InCurrent(path) => PlaceView::InCurrent(path@),
            Place::Stored(name) => PlaceView::Stored(name@),
            Place::Units => PlaceView::Units,
            Place::Unit => PlaceView::Unit,
        }
    }
}

/// The path of a place.
pub open spec fn path_of_place(plan: InstallPlanView, place: PlaceView) -> Seq<char> {
    match place {
        PlaceView::Current => join_path(plan.plugin_dir, "current"@),
        PlaceView::InCurrent(path) => join_path(join_path(plan.plugin_dir, "current"@), path),
        PlaceView::Stored(name) => join_path(plan.plugin_dir, name),
        PlaceView::Units => plan.systemd_dir,
        PlaceView::Unit => plan.service_path,
    }
}

/// The path of a place.
pub fn place_path(plan: &InstallPlan, place: &Place) -> (out: String)
    ensures
        out@ == path_of_place(plan@, place@),
{
    match place {
        Place::Current => joined_path(plan.plugin_dir.as_str(), "current"),
        Place::InCurrent(path) => {
            let current = joined_path(plan.plugin_dir.as_str(), "current");
            joined_path(current.as_str(), path.as_str())
        },
        Place::Stored(name) => joined_path(plan.plugin_dir.as_str(), name.as_str()),
        Place::Units => plan.systemd_dir.clone(),
        Place::Unit => plan.service_path.clone(),
    }
}

/// A step of an installation. A step that changes files comes with the words
/// that its failure is reported in.
#[derive(Debug)]
pub enum InstallStep {
    /// Remove a directory and all in it.
    RemoveTree(Place, String),
    /// Remove a file.
    RemoveFile(Place, String),
    /// Make a directory.
    MakeDir(Place, String),
    /// Make the directory that a file is to lie in.
    MakeParent(Place, String),
    /// Write a file.
    Write(Place, Vec<u8>, String),
    /// Make a file executable.
    MakeExecutable(Place, String),
    /// Make the TLS files of the plugin.
    MakeTlsFiles(String),
    /// Have systemd read its units again.
    Reload,
    /// Put the link of the plugin in place.
    Link,
    /// Enable or disable the service.
    Enable(bool),
    /// Start the service, and see that it runs.
    Start,
    /// Enter the plugin in the books.
    Record,
}

/// A step of an installation.
pub enum InstallStepView {
    RemoveTree(PlaceView, Seq<char>),
    RemoveFile(PlaceView, Seq<char>),
    MakeDir(PlaceView, Seq<char>),
    MakeParent(PlaceView, Seq<char>),
    Write(PlaceView, Seq<u8>, Seq<char>),
    MakeExecutable(PlaceView, Seq<char>),
    MakeTlsFiles(Seq<char>),
    Reload,
    Link,
    Enable(bool),
    Start,
    Record,
}

impl View for InstallStep {
    type V = InstallStepView;

    open spec fn view(&self) -> InstallStepView {
        match *self {
            InstallStep::RemoveTree(place, what) => InstallStepView::RemoveTree(place@, what@),
            InstallStep::RemoveFile(place, what) => InstallStepView::RemoveFile(place@, what@),
            InstallStep::MakeDir(place, what) => InstallStepView::MakeDir(place@, what@),
            InstallStep::MakeParent(place, what) => InstallStepView::MakeParent(place@, what@),
            InstallStep::Write(place, bytes, what) => InstallStepView::Write(
                place@,
                bytes@,
                what@,
            ),
            InstallStep::MakeExecutable(place, what) => InstallStepView::MakeExecutable(
                place@,
                what@,
            ),
            InstallStep::MakeTlsFiles(what) => InstallStepView::MakeTlsFiles(what@),
            InstallStep::Reload => InstallStepView::Reload,
            InstallStep::Link => InstallStepView::Link,
            InstallStep::Enable(on) => InstallStepView::Enable(on),
            InstallStep::Start => InstallStepView::Start,
            InstallStep::Record => InstallStepView::Record,
        }
    }
}

/// What is there of a plugin once its files were put aside.
#[derive(Debug, Clone, Copy, PartialEq, Eq, Structural)]
pub struct InstallFacts {
    pub has_current: bool,
    pub has_signature: bool,
    pub has_legacy_signature: bool,
}

/// Putting the binary in place.
pub open spec fn binary_steps(p: PackageView, facts: InstallFacts) -> Seq<InstallStepView> {
    (if facts.has_current {
        seq![
            InstallStepView::RemoveTree(PlaceView::Current, "remove previous plugin files"@),
        ]
    } else {
        Seq::empty()
    }) + seq![
        InstallStepView::MakeDir(PlaceView::Current, "create current plugin dir"@),
        InstallStepView::Write(
            PlaceView::InCurrent(p.binary_name),
            p.binary_bytes,
            "write plugin binary"@,
        ),
        InstallStepView::MakeExecutable(
            PlaceView::InCurrent(p.binary_name),
            "chmod plugin binary"@,
        ),
    ]
}

/// Putting the files that a package brings along in place.
pub open spec fn custom_steps(files: Seq<FileView>) -> Seq<InstallStepView>
    decreases files.len(),
{
    if files.len() == 0 {
        Seq::empty()
    } else {
        let file = files.last();
        custom_steps(files.drop_last()) + seq![
            InstallStepView::MakeParent(
                PlaceView::InCurrent(file.relative_path),
                "create custom file parent"@,
            ),
            InstallStepView::Write(
                PlaceView::InCurrent(file.relative_path),
                file.bytes,
                "write custom plugin file"@,
            ),
        ]
    }
}

/// Making the TLS files of a plugin that asks for them.
pub open spec fn tls_steps(p: PackageView) -> Seq<InstallStepView> {
    if p.manifest.tls {
        seq![InstallStepView::MakeTlsFiles("generate plugin TLS files"@)]
    } else {
        Seq::empty()
    }
}

/// Keeping the package, its manifest, its unit and its checksum.
pub open spec fn stored_steps(p: PackageView, zip: Seq<u8>, unit: Seq<u8>) -> Seq<
    InstallStepView,
> {
    seq![
        InstallStepView::Write(
            PlaceView::Stored("package.zip"@),
            zip,
            "persist plugin package"@,
        ),
        InstallStepView::Write(
            PlaceView::Stored(manifest_name()),
            encode_utf8(p.manifest_raw),
            "persist plugin manifest"@,
        ),
        InstallStepView::Write(
            PlaceView::Stored(p.service_name),
            unit,
            "persist plugin service"@,
        ),
        InstallStepView::Write(
            PlaceView::Stored(p.binary_name + ".sha256"@),
            encode_utf8(p.sha256 + "\n"@),
            "persist plugin checksum"@,
        ),
    ]
}

/// Keeping the signature of a package, and no other.
pub open spec fn signature_steps(p: PackageView, facts: InstallFacts) -> Seq<InstallStepView> {
    let stored = PlaceView::Stored(p.binary_name + ".sig"@);
    let legacy = PlaceView::Stored(p.binary_name + ".sign"@);
    match p.signature_bytes {
        Some(bytes) => seq![
            InstallStepView::Write(stored, bytes, "persist plugin signature"@),
        ] + if facts.has_legacy_signature {
            seq![InstallStepView::RemoveFile(legacy, "remove legacy plugin signature"@)]
        } else {
            Seq::empty()
        },
        None => if facts.has_signature {
            seq![InstallStepView::RemoveFile(stored, "remove stale plugin signature"@)]
        } else if facts.has_legacy_signature {
            seq![
                InstallStepView::RemoveFile(legacy, "remove stale legacy plugin signature"@),
            ]
        } else {
            Seq::empty()
        },
    }
}

/// Putting the service in place, and the plugin in the books.
pub open spec fn service_steps(
    unit: Seq<u8>,
    should_enable: bool,
    should_start: bool,
) -> Seq<InstallStepView> {
    seq![
        InstallStepView::MakeDir(PlaceView::Units, "create systemd dir"@),
        InstallStepView::Write(PlaceView::Unit, unit, "install systemd unit"@),
        InstallStepView::Reload,
        InstallStepView::Link,
        InstallStepView::Enable(should_enable),
    ] + (if should_start {
        seq![InstallStepView::Start]
    } else {
        Seq::empty()
    }) + seq![InstallStepView::Record]
}

/// The steps of installing a package. `zip` is the archive it came in, `unit`
/// its unit with the working directory set.
pub open spec fn steps_of(
    p: PackageView,
    zip: Seq<u8>,
    unit: Seq<u8>,
    facts: InstallFacts,
    should_enable: bool,
    should_start: bool,
) -> Seq<InstallStepView> {
    binary_steps(p, facts) + custom_steps(p.custom_files) + tls_steps(p) + stored_steps(
        p,
        zip,
        unit,
    ) + signature_steps(p, facts) + service_steps(unit, should_enable, should_start)
}

/// Adds a step.
fn push_step(out: &mut Vec<InstallStep>, step: InstallStep)
    ensures
        viewed(final(out)@) == viewed(old(out)@).push(step@),
{
    out.push(step);
    assert(viewed(out@) =~= viewed(old(out)@).push(step@));
}

/// Adds the steps that put the binary in place.
fn push_binary_steps(out: &mut Vec<InstallStep>, package: &PluginPackage, facts: InstallFacts)
    ensures
        viewed(final(out)@) == viewed(old(out)@) + binary_steps(package@, facts),
{
    if facts.has_current {
        push_step(
            out,
            InstallStep::RemoveTree(Place::Current, "remove previous plugin files".to_owned()),
        );
    }
    push_step(
        out,
        InstallStep::MakeDir(Place::Current, "create current plugin dir".to_owned()),
    );
    push_step(
        out,
        InstallStep::Write(
            Place::InCurrent(package.binary_name.clone()),
            slice_to_vec(package.binary_bytes.as_slice()),
            "write plugin binary".to_owned(),
        ),
    );
    push_step(
        out,
        InstallStep::MakeExecutable(
            Place::InCurrent(package.binary_name.clone()),
            "chmod plugin binary".to_owned(),
        ),
    );
    assert(viewed(out@) =~= viewed(old(out)@) + binary_steps(package@, facts));
}

/// Adds the steps that put the files of a package in place.
pub fn install_custom_files(out: &mut Vec<InstallStep>, files: &Vec<PluginPackageFile>)
    ensures
        viewed(final(out)@) == viewed(old(out)@) + custom_steps(viewed(files@)),
{
    let ghost all = viewed(files@);
    let ghost start = viewed(out@);
    let mut i: usize = 0;
    assert(all.take(0) =~= Seq::<FileView>::empty());
    assert(viewed(out@) =~= start + custom_steps(all.take(0)));
    while i < files.len()
        invariant
            i <= files@.len(),
            all == viewed(files@),
            viewed(out@) == start + custom_steps(all.take(i as int)),
        decreases files@.len() - i,
    {
        let ghost before = custom_steps(all.take(i as int));
        proof {
            assert(all.take(i + 1).drop_last() =~= all.take(i as int));
            assert(all.take(i + 1).last() == files@[i as int]@);
        }
        push_step(
            out,
            InstallStep::MakeParent(
                Place::InCurrent(files[i].relative_path.clone()),
                "create custom file parent".to_owned(),
            ),
        );
        push_step(
            out,
            InstallStep::Write(
                Place::InCurrent(files[i].relative_path.clone()),
                slice_to_vec(files[i].bytes.as_slice()),
                "write custom plugin file".to_owned(),
            ),
        );
        assert(viewed(out@) =~= start + custom_steps(all.take(i + 1)));
        i += 1;
    }
    assert(all.take(i as int) =~= all);
}

/// Adds the steps that make the TLS files and keep the package.
fn push_stored_steps(
    out: &mut Vec<InstallStep>,
    package: &PluginPackage,
    zip_bytes: &[u8],
    unit: &Vec<u8>,
)
    ensures
        viewed(final(out)@) == viewed(old(out)@) + tls_steps(package@) + stored_steps(
            package@,
            zip_bytes@,
            unit@,
        ),
{
    if package.manifest.tls {
        push_step(out, InstallStep::MakeTlsFiles("generate plugin TLS files".to_owned()));
    }
    push_step(
        out,
        InstallStep::Write(
            Place::Stored("package.zip".to_owned()),
            slice_to_vec(zip_bytes),
            "persist plugin package".to_owned(),
        ),
    );
    push_step(
        out,
        InstallStep::Write(
            Place::Stored(manifest_file_name().to_owned()),
            package.manifest_raw.as_str().as_bytes_vec(),
            "persist plugin manifest".to_owned(),
        ),
    );
    push_step(
        out,
        InstallStep::Write(
            Place::Stored(package.service_name.clone()),
            slice_to_vec(unit.as_slice()),
            "persist plugin service".to_owned(),
        ),
    );
    let line = cat2(package.sha256.as_str(), "\n");
    push_step(
        out,
        InstallStep::Write(
            Place::Stored(cat2(package.binary_name.as_str(), ".sha256")),
            line.as_str().as_bytes_vec(),
            "persist plugin checksum".to_owned(),
        ),
    );
    assert(viewed(out@) =~= viewed(old(out)@) + tls_steps(package@) + stored_steps(
        package@,
        zip_bytes@,
        unit@,
    ));
}

/// Adds the steps that keep the signature.
fn push_signature_steps(out: &mut Vec<InstallStep>, package: &PluginPackage, facts: InstallFacts)
    ensures
        viewed(final(out)@) == viewed(old(out)@) + signature_steps(package@, facts),
{
    let stored = cat2(package.binary_name.as_str(), ".sig");
    let legacy = cat2(package.binary_name.as_str(), ".sign");
    match &package.signature_bytes {
        Some(bytes) => {
            push_step(
                out,
                InstallStep::Write(
                    Place::Stored(stored),
                    slice_to_vec(bytes.as_slice()),
                    "persist plugin signature".to_owned(),
                ),
            );
            if facts.has_legacy_signature {
                push_step(
                    out,
                    InstallStep::RemoveFile(
                        Place::Stored(legacy),
                        "remove legacy plugin signature".to_owned(),
                    ),
                );
            }
        },
        None => {
            if facts.has_signature {
                push_step(
                    out,
                    InstallStep::RemoveFile(
                        Place::Stored(stored),
                        "remove stale plugin signature".to_owned(),
                    ),
                );
            } else if facts.has_legacy_signature {
                push_step(
                    out,
                    InstallStep::RemoveFile(
                        Place::Stored(legacy),
                        "remove stale legacy plugin signature".to_owned(),
                    ),
                );
            }
        },
    }
    assert(viewed(out@) =~= viewed(old(out)@) + signature_steps(package@, facts));
}

/// Adds the steps that put the service in place.
fn push_service_steps(
    out: &mut Vec<InstallStep>,
    unit: &Vec<u8>,
    should_enable: bool,
    should_start: bool,
)
    ensures
        viewed(final(out)@) == viewed(old(out)@) + service_steps(
            unit@,
            should_enable,
            should_start,
        ),
{
    push_step(out, InstallStep::MakeDir(Place::Units, "create systemd dir".to_owned()));
    push_step(
        out,
        InstallStep::Write(
            Place::Unit,
            slice_to_vec(unit.as_slice()),
            "install systemd unit".to_owned(),
        ),
    );
    push_step(out, InstallStep::Reload);
    push_step(out, InstallStep::Link);
    push_step(out, InstallStep::Enable(should_enable));
    if should_start {
        push_step(out, InstallStep::Start);
    }
    push_step(out, InstallStep::Record);
    assert(viewed(out@) =~= viewed(old(out)@) + service_steps(
        unit@,
        should_enable,
        should_start,
    ));
}

/// The steps of installing a package, in order. The first that fails ends the
/// installation, and what was put aside is brought back.
pub fn install_plugin(
    package: &PluginPackage,
    zip_bytes: &[u8],
    unit: &Vec<u8>,
    facts: InstallFacts,
    plan: &InstallPlan,
) -> (out: Vec<InstallStep>)
    ensures
        viewed(out@) == steps_of(
            package@,
            zip_bytes@,
            unit@,
            facts,
            plan@.should_enable,
            plan@.should_start,
        ),
{
    let mut out: Vec<InstallStep> = Vec::new();
    assert(viewed(out@) =~= Seq::<InstallStepView>::empty());
    push_binary_steps(&mut out, package, facts);
    assert(viewed(out@) =~= binary_steps(package@, facts));
    install_custom_files(&mut out, &package.custom_files);
    push_stored_steps(&mut out, package, zip_bytes, unit);
    push_signature_steps(&mut out, package, facts);
    push_service_steps(&mut out, unit, plan.should_enable, plan.should_start);
    out
}

/// The refusal of a step that failed: what was tried, and why it failed.
pub fn step_failure(what: &str, err: &str) -> (out: PluginError)
    ensures
        out@ == crate::plugins::error::failed(what@ + ": "@ + err@),
{
    PluginError::internal(crate::text::cat3(what, ": ", err))
}

/// How often it is asked whether a service runs, once every second.
pub const HEALTH_TRIES: u32 = 10;

/// What comes next where a service was started.
#[derive(Debug, Clone, Copy, PartialEq, Eq, Structural)]
pub enum HealthMove {
    /// Wait and ask again.
    Ask,
    /// The service runs.
    Running,
    /// The service does not run.
    GiveUp,
}

/// What comes next where a service was started and it was asked so many times
/// whether it runs. `running` is the last answer.
pub fn poll_running(tries: u32, running: bool) -> (out: HealthMove)
    ensures
        out == (if running {
            HealthMove::Running
        } else if tries >= HEALTH_TRIES {
            HealthMove::GiveUp
        } else {
            HealthMove::Ask
        }),
{
    if running {
        HealthMove::Running
    } else if tries >= HEALTH_TRIES {
        HealthMove::GiveUp
    } else {
        HealthMove::Ask
    }
}

/// The refusal of a plugin that does not run after it was started.
pub fn health_failure() -> (out: PluginError)
    ensures
        out@ == crate::plugins::error::failed(
            "plugin failed health check after install; rolled back"@,
        ),
{
    PluginError::internal("plugin failed health check after install; rolled back".to_owned())
}

// ── Books ────────────────────────────────────────────────────────────────────

/// What the books say of a plugin that was installed at the time `now`.
pub open spec fn installed_of(
    p: PackageView,
    plan: InstallPlanView,
    official: bool,
    existing: Option<RecordView>,
    now: u64,
) -> RecordView {
    RecordView {
        id: p.id,
        name: p.manifest.name,
        description: p.manifest.description,
        version: p.manifest.version,
        service: p.service_name,
        developer: p.manifest.developer,
        channel: channel_of(p.manifest.channel)->Ok_0,
        github_url: filled(p.manifest.github_url),
        webview: webview_of(p.manifest.webview)->Ok_0,
        tls: p.manifest.tls,
        icon: icon_of(p.manifest.icon)->Ok_0,
        binary_name: p.binary_name,
        bin_path: p.bin_path,
        sha256: p.sha256,
        install_dir: plan.plugin_dir,
        package_path: join_path(plan.plugin_dir, "package.zip"@),
        official,
        enabled: plan.should_enable,
        removable: true,
        target_name: None,
        installed_at: match existing {
            Some(record) => record.installed_at,
            None => now,
        },
        updated_at: now,
    }
}

/// What the books say of a plugin that was installed, or why its manifest is
/// wrong.
pub open spec fn installation(
    p: PackageView,
    plan: InstallPlanView,
    official: bool,
    existing: Option<RecordView>,
    now: u64,
) -> Result<RecordView, Refusal> {
    match (channel_of(p.manifest.channel), webview_of(p.manifest.webview), icon_of(p.manifest.icon)) {
        (Err(refusal), _, _) => Err(refusal),
        (_, Err(refusal), _) => Err(refusal),
        (_, _, Err(refusal)) => Err(refusal),
        _ => Ok(installed_of(p, plan, official, existing, now)),
    }
}

/// What the books say of a plugin that was installed.
pub fn installed_record(
    package: &PluginPackage,
    plan: &InstallPlan,
    official: bool,
    existing: &Option<PluginRecord>,
    now: u64,
) -> (out: Result<PluginRecord, PluginError>)
    ensures
        found_outcome(out) == installation(
            package@,
            plan@,
            official,
            opt_record_view(*existing),
            now,
        ),
{
    let channel = match normalize_channel(opt_as_str(&package.manifest.channel)) {
        Ok(channel) => channel,
        Err(err) => {
            return Err(err);
        },
    };
    let github_url = normalize_github_url(opt_as_str(&package.manifest.github_url));
    let webview = match normalize_webview_port(package.manifest.webview) {
        Ok(webview) => webview,
        Err(err) => {
            return Err(err);
        },
    };
    let icon = match normalize_icon_path(opt_as_str(&package.manifest.icon)) {
        Ok(icon) => icon,
        Err(err) => {
            return Err(err);
        },
    };
    let installed_at: u64 = match existing {
        Some(record) => record.installed_at,
        None => now,
    };
    Ok(
        PluginRecord {
            id: package.id.clone(),
            name: package.manifest.name.clone(),
            description: package.manifest.description.clone(),
            version: package.manifest.version.clone(),
            service: package.service_name.clone(),
            developer: package.manifest.developer.clone(),
            channel,
            github_url,
            webview,
            tls: package.manifest.tls,
            icon,
            binary_name: package.binary_name.clone(),
            bin_path: clone_opt(&package.bin_path),
            sha256: package.sha256.clone(),
            install_dir: plan.plugin_dir.clone(),
            package_path: joined_path(plan.plugin_dir.as_str(), "package.zip"),
            official,
            enabled: plan.should_enable,
            removable: true,
            target_name: None,
            installed_at,
            updated_at: now,
        },
    )
}

/// The outcome of an installation, in words.
pub fn install_message(name: &str, version: &str, updated: bool) -> (out: PluginMessage)
    ensures
        out.detail@ == (if updated {
            "Updated plugin "@ + name@ + " to "@ + version@
        } else {
            "Installed plugin "@ + name@ + " "@ + version@
        }),
{
    if updated {
        PluginMessage { detail: cat4("Updated plugin ", name, " to ", version) }
    } else {
        PluginMessage { detail: cat4("Installed plugin ", name, " ", version) }
    }
}

// ── Laws ─────────────────────────────────────────────────────────────────────

/// What a place is among the places that are put aside before an update.
pub open spec fn spot_of(place: PlaceView) -> Option<SpotView> {
    match place {
        PlaceView::Current | PlaceView::InCurrent(_) => Some(SpotView::Stored("current"@)),
        PlaceView::Stored(name) => Some(SpotView::Stored(name)),
        PlaceView::Units => None,
        PlaceView::Unit => Some(SpotView::Unit),
    }
}

/// The place that a step changes.
pub open spec fn changed_place(step: InstallStepView) -> Option<PlaceView> {
    match step {
        InstallStepView::RemoveTree(place, _) => Some(place),
        InstallStepView::RemoveFile(place, _) => Some(place),
        InstallStepView::MakeDir(place, _) => Some(place),
        InstallStepView::MakeParent(place, _) => Some(place),
        InstallStepView::Write(place, _, _) => Some(place),
        InstallStepView::MakeExecutable(place, _) => Some(place),
        InstallStepView::MakeTlsFiles(_) => Some(PlaceView::Current),
        _ => None,
    }
}

/// Whether a step changes only what is put aside before, or the unit.
pub open spec fn stays_within(step: InstallStepView, service: Seq<char>) -> bool {
    match changed_place(step) {
        Some(place) => match spot_of(place) {
            Some(SpotView::Stored(name)) => kept_names(service).contains(name),
            Some(SpotView::Saved(_)) => false,
            Some(SpotView::Unit) => true,
            None => true,
        },
        None => true,
    }
}

/// Whether steps change only what is put aside before, or the unit.
pub open spec fn all_within(steps: Seq<InstallStepView>, service: Seq<char>) -> bool {
    forall|i: int| 0 <= i < steps.len() ==> stays_within(#[trigger] steps[i], service)
}

/// The steps of an installation change only files that were put aside before,
/// and the unit: none touches what was put aside.
pub proof fn installs_stay_within(
    p: PackageView,
    zip: Seq<u8>,
    unit: Seq<u8>,
    facts: InstallFacts,
    should_enable: bool,
    should_start: bool,
)
    requires
        base_name(p.service_name) == p.binary_name,
    ensures
        all_within(
            steps_of(p, zip, unit, facts, should_enable, should_start),
            p.service_name,
        ),
{
    let service = p.service_name;
    let a = binary_steps(p, facts);
    let b = custom_steps(p.custom_files);
    let c = tls_steps(p);
    let d = stored_steps(p, zip, unit);
    let e = signature_steps(p, facts);
    let f = service_steps(unit, should_enable, should_start);
    assert(all_within(a, service)) by {
        assert(kept_names(service)[0] == "current"@);
    }
    lemma_custom_steps(p.custom_files, service);
    assert(all_within(c, service)) by {
        assert(kept_names(service)[0] == "current"@);
    }
    assert(all_within(d, service)) by {
        let kept = kept_names(service);
        assert(kept[1] == "package.zip"@);
        assert(kept[2] == manifest_name());
        assert(kept[3] == p.service_name);
        assert(kept[4] == p.binary_name + ".sha256"@);
    }
    assert(all_within(e, service)) by {
        let kept = kept_names(service);
        assert(kept[5] == p.binary_name + ".sig"@);
        assert(kept[6] == p.binary_name + ".sign"@);
    }
    assert(all_within(f, service));
    lemma_both_within(a, b, service);
    lemma_both_within(a + b, c, service);
    lemma_both_within(a + b + c, d, service);
    lemma_both_within(a + b + c + d, e, service);
    lemma_both_within(a + b + c + d + e, f, service);
}

/// Steps that stay within do so one after the other, too.
proof fn lemma_both_within(a: Seq<InstallStepView>, b: Seq<InstallStepView>, service: Seq<char>)
    requires
        all_within(a, service),
        all_within(b, service),
    ensures
        all_within(a + b, service),
{
    assert forall|i: int| 0 <= i < (a + b).len() implies stays_within(
        #[trigger] (a + b)[i],
        service,
    ) by {
        if i < a.len() {
            assert((a + b)[i] == a[i]);
        } else {
            assert((a + b)[i] == b[i - a.len()]);
        }
    }
}

/// The steps for the files of a package change only the current directory.
proof fn lemma_custom_steps(files: Seq<FileView>, service: Seq<char>)
    ensures
        all_within(custom_steps(files), service),
    decreases files.len(),
{
    assert(kept_names(service)[0] == "current"@);
    if files.len() > 0 {
        lemma_custom_steps(files.drop_last(), service);
        let before = custom_steps(files.drop_last());
        assert forall|i: int| 0 <= i < custom_steps(files).len() implies stays_within(
            #[trigger] custom_steps(files)[i],
            service,
        ) by {
            if i < before.len() {
                assert(custom_steps(files)[i] == before[i]);
            }
        }
    }
}

/// A plugin that is installed again keeps the time of its first installation,
/// and stays enabled or not as it was.
pub proof fn updates_keep_the_first_installation(
    p: PackageView,
    plugins_root: Seq<char>,
    systemd_dir: Seq<char>,
    official: bool,
    existing: RecordView,
    was_running: bool,
    had_unit: bool,
    now: u64,
)
    ensures
        ({
            let plan = install_plan_of(
                plugins_root,
                systemd_dir,
                p.id,
                p.binary_name,
                p.service_name,
                Some(existing),
                was_running,
                had_unit,
            );
            let record = installed_of(p, plan, official, Some(existing), now);
            &&& record.installed_at == existing.installed_at
            &&& record.updated_at == now
            &&& record.enabled == existing.enabled
            &&& plan.should_start == was_running
        }),
{
}

/// Whether a step only changes files of the plugin itself: it neither writes the
/// unit nor changes the service, the link or the books.
pub open spec fn is_file_step(step: InstallStepView) -> bool {
    match step {
        InstallStepView::Write(place, _, _) => place != PlaceView::Unit,
        InstallStepView::Reload | InstallStepView::Link | InstallStepView::Enable(_)
        | InstallStepView::Start | InstallStepView::Record => false,
        _ => true,
    }
}

/// Whether some step writes `bytes` to a place.
pub open spec fn writes(steps: Seq<InstallStepView>, place: PlaceView, bytes: Seq<u8>) -> bool {
    exists|i: int| 0 <= i < steps.len() && is_write(#[trigger] steps[i], place, bytes)
}

/// Whether a step writes `bytes` to a place.
pub open spec fn is_write(step: InstallStepView, place: PlaceView, bytes: Seq<u8>) -> bool {
    step matches InstallStepView::Write(to, what, _) && to == place && what == bytes
}

/// Whether some step removes the file at a place.
pub open spec fn removes(steps: Seq<InstallStepView>, place: PlaceView) -> bool {
    exists|i: int|
        0 <= i < steps.len() && (#[trigger] steps[i] matches InstallStepView::RemoveFile(from, _)
            && from == place)
}

/// Every installation ends in the same way: the unit is written, systemd reads
/// it, the link is put in place, the service is enabled or disabled as it should
/// be, it is started if and only if it should be, and only then is the plugin
/// entered in the books. Each of these is done once, and nothing else is done to
/// the service.
pub proof fn services_run_before_they_are_recorded(
    p: PackageView,
    zip: Seq<u8>,
    unit: Seq<u8>,
    facts: InstallFacts,
    should_enable: bool,
    should_start: bool,
)
    ensures
        ({
            let s = steps_of(p, zip, unit, facts, should_enable, should_start);
            let n = s.len() as int;
            let enable = if should_start {
                n - 3
            } else {
                n - 2
            };
            &&& enable >= 4
            &&& s[enable - 4] matches InstallStepView::MakeDir(place, _) && place
                == PlaceView::Units
            &&& is_write(s[enable - 3], PlaceView::Unit, unit)
            &&& s[enable - 2] is Reload
            &&& s[enable - 1] is Link
            &&& s[enable] == InstallStepView::Enable(should_enable)
            &&& s[n - 1] is Record
            &&& should_start ==> s[n - 2] is Start
            &&& (exists|i: int| 0 <= i < n && (#[trigger] s[i]) is Start) <==> should_start
            &&& forall|i: int| 0 <= i < n && (#[trigger] s[i]) is Start ==> i == n - 2
            &&& forall|i: int| 0 <= i < enable - 3 ==> is_file_step(#[trigger] s[i])
        }),
{
    let s = steps_of(p, zip, unit, facts, should_enable, should_start);
    let n = s.len() as int;
    let a = binary_steps(p, facts);
    let b = custom_steps(p.custom_files);
    let c = tls_steps(p);
    let d = stored_steps(p, zip, unit);
    let e = signature_steps(p, facts);
    let f = service_steps(unit, should_enable, should_start);
    let front = a + b + c + d + e;
    let m = front.len() as int;
    assert(s == front + f);
    lemma_custom_steps_are_file_steps(p.custom_files);
    assert forall|i: int| 0 <= i < m implies is_file_step(#[trigger] s[i]) by {
        assert(s[i] == front[i]);
        let ab = (a + b).len() as int;
        let abc = (a + b + c).len() as int;
        let abcd = (a + b + c + d).len() as int;
        if i < a.len() {
            assert(s[i] == a[i]);
        } else if i < ab {
            assert(s[i] == b[i - a.len()]);
        } else if i < abc {
            assert(s[i] == c[i - ab]);
        } else if i < abcd {
            assert(s[i] == d[i - abc]);
        } else {
            assert(s[i] == e[i - abcd]);
        }
    }
    assert forall|i: int| m <= i < n implies #[trigger] s[i] == f[i - m] by {}
    assert(s[m] == f[0] && s[m + 1] == f[1] && s[m + 2] == f[2] && s[m + 3] == f[3] && s[m + 4]
        == f[4]);
    assert(s[n - 1] == f[f.len() - 1]);
    if should_start {
        assert(s[n - 2] == f[5]);
        assert(s[n - 2] is Start);
    }
    assert forall|i: int| 0 <= i < n && (#[trigger] s[i]) is Start implies should_start && i == n
        - 2 by {
        if i >= m {
            assert(s[i] == f[i - m]);
        }
    }
}

proof fn lemma_custom_steps_are_file_steps(files: Seq<FileView>)
    ensures
        forall|i: int|
            0 <= i < custom_steps(files).len() ==> is_file_step(#[trigger] custom_steps(files)[i]),
    decreases files.len(),
{
    if files.len() > 0 {
        lemma_custom_steps_are_file_steps(files.drop_last());
        let before = custom_steps(files.drop_last());
        assert forall|i: int| 0 <= i < custom_steps(files).len() implies is_file_step(
            #[trigger] custom_steps(files)[i],
        ) by {
            if i < before.len() {
                assert(custom_steps(files)[i] == before[i]);
            }
        }
    }
}

/// What an installation puts in place: the binary, which is then made executable,
/// every file that the package brings along, the package itself, its manifest,
/// its unit and its checksum, and its signature where it has one. Files of an
/// earlier installation are removed first, and TLS files are made if and only if
/// the manifest asks for them.
pub proof fn installs_put_all_of_a_package_in_place(
    p: PackageView,
    zip: Seq<u8>,
    unit: Seq<u8>,
    facts: InstallFacts,
    should_enable: bool,
    should_start: bool,
)
    ensures
        ({
            let s = steps_of(p, zip, unit, facts, should_enable, should_start);
            let first = if facts.has_current {
                1int
            } else {
                0
            };
            let sig = PlaceView::Stored(p.binary_name + ".sig"@);
            let sign = PlaceView::Stored(p.binary_name + ".sign"@);
            &&& facts.has_current <==> s[0] is RemoveTree
            &&& s[0] matches InstallStepView::RemoveTree(place, _) ==> place == PlaceView::Current
            &&& s[first] matches InstallStepView::MakeDir(place, _) && place == PlaceView::Current
            &&& is_write(s[first + 1], PlaceView::InCurrent(p.binary_name), p.binary_bytes)
            &&& s[first + 2] matches InstallStepView::MakeExecutable(place, _) && place
                == PlaceView::InCurrent(p.binary_name)
            &&& forall|k: int|
                0 <= k < p.custom_files.len() ==> writes(
                    s,
                    PlaceView::InCurrent((#[trigger] p.custom_files[k]).relative_path),
                    p.custom_files[k].bytes,
                )
            &&& writes(s, PlaceView::Stored("package.zip"@), zip)
            &&& writes(s, PlaceView::Stored("kaonic-plugin.toml"@), encode_utf8(p.manifest_raw))
            &&& writes(s, PlaceView::Stored(p.service_name), unit)
            &&& writes(
                s,
                PlaceView::Stored(p.binary_name + ".sha256"@),
                encode_utf8(p.sha256 + "\n"@),
            )
            &&& p.signature_bytes matches Some(bytes) ==> writes(s, sig, bytes)
            &&& p.signature_bytes is Some && facts.has_legacy_signature ==> removes(s, sign)
            &&& p.signature_bytes is None && facts.has_signature ==> removes(s, sig)
            &&& p.signature_bytes is None && !facts.has_signature && facts.has_legacy_signature
                ==> removes(s, sign)
            &&& (exists|i: int| 0 <= i < s.len() && (#[trigger] s[i]) is MakeTlsFiles)
                <==> p.manifest.tls
        }),
{
    let s = steps_of(p, zip, unit, facts, should_enable, should_start);
    let a = binary_steps(p, facts);
    let b = custom_steps(p.custom_files);
    let c = tls_steps(p);
    let d = stored_steps(p, zip, unit);
    let e = signature_steps(p, facts);
    let f = service_steps(unit, should_enable, should_start);
    let ab = (a + b).len() as int;
    let abc = (a + b + c).len() as int;
    let abcd = (a + b + c + d).len() as int;
    let abcde = (a + b + c + d + e).len() as int;
    assert forall|i: int| 0 <= i < a.len() implies s[i] == #[trigger] a[i] by {}
    assert forall|i: int| 0 <= i < b.len() implies s[a.len() + i] == #[trigger] b[i] by {}
    assert forall|i: int| 0 <= i < c.len() implies s[ab + i] == #[trigger] c[i] by {}
    assert forall|i: int| 0 <= i < d.len() implies s[abc + i] == #[trigger] d[i] by {}
    assert forall|i: int| 0 <= i < e.len() implies s[abcd + i] == #[trigger] e[i] by {}
    assert forall|i: int| 0 <= i < f.len() implies s[abcde + i] == #[trigger] f[i] by {}
    assert(s[0] == a[0]);
    assert(a.len() >= 3);
    if facts.has_current {
        assert(s[1] == a[1] && s[2] == a[2] && s[3] == a[3]);
    } else {
        assert(s[1] == a[1] && s[2] == a[2]);
    }
    assert forall|k: int| 0 <= k < p.custom_files.len() implies writes(
        s,
        PlaceView::InCurrent((#[trigger] p.custom_files[k]).relative_path),
        p.custom_files[k].bytes,
    ) by {
        lemma_custom_file_is_written(p.custom_files, k);
        let i = 2 * k + 1;
        assert(s[a.len() + i] == b[i]);
    }
    assert(s[abc] == d[0] && s[abc + 1] == d[1] && s[abc + 2] == d[2] && s[abc + 3] == d[3]);
    if e.len() > 0 {
        assert(s[abcd] == e[0]);
    }
    if e.len() > 1 {
        assert(s[abcd + 1] == e[1]);
    }
    if p.manifest.tls {
        assert(s[ab] == c[0]);
    }
    assert forall|i: int| 0 <= i < s.len() && (#[trigger] s[i]) is MakeTlsFiles implies
        p.manifest.tls by {
        lemma_custom_steps_kind(p.custom_files);
        if i < a.len() {
            assert(s[i] == a[i]);
        } else if i < ab {
            assert(s[i] == b[i - a.len()]);
        } else if i < abc {
            assert(s[i] == c[i - ab]);
        } else if i < abcd {
            assert(s[i] == d[i - abc]);
        } else if i < abcde {
            assert(s[i] == e[i - abcd]);
        } else {
            assert(s[i] == f[i - abcde]);
        }
    }
}

/// The steps for a file of a package, where they are in the list.
proof fn lemma_custom_file_is_written(files: Seq<FileView>, k: int)
    requires
        0 <= k < files.len(),
    ensures
        custom_steps(files).len() == 2 * files.len(),
        is_write(
            custom_steps(files)[2 * k + 1],
            PlaceView::InCurrent(files[k].relative_path),
            files[k].bytes,
        ),
    decreases files.len(),
{
    let shorter = files.drop_last();
    lemma_custom_steps_kind(shorter);
    if k < files.len() - 1 {
        lemma_custom_file_is_written(shorter, k);
        assert(shorter[k] == files[k]);
        assert(custom_steps(files)[2 * k + 1] == custom_steps(shorter)[2 * k + 1]);
    }
}

/// The steps for the files of a package make directories and write files, two for
/// each file.
proof fn lemma_custom_steps_kind(files: Seq<FileView>)
    ensures
        custom_steps(files).len() == 2 * files.len(),
        forall|i: int|
            0 <= i < custom_steps(files).len() ==> (#[trigger] custom_steps(files)[i] is MakeParent
                || custom_steps(files)[i] is Write),
    decreases files.len(),
{
    if files.len() > 0 {
        lemma_custom_steps_kind(files.drop_last());
        let before = custom_steps(files.drop_last());
        assert forall|i: int| 0 <= i < custom_steps(files).len() implies (
        #[trigger] custom_steps(files)[i] is MakeParent || custom_steps(files)[i] is Write) by {
            if i < before.len() {
                assert(custom_steps(files)[i] == before[i]);
            }
        }
    }
}

/// A plugin that is new is started and enabled; one that is updated is started
/// if and only if it was running, and enabled if and only if it was enabled. A
/// service that may be there is stopped before.
pub proof fn updates_leave_services_as_they_were(
    plugins_root: Seq<char>,
    systemd_dir: Seq<char>,
    id: Seq<char>,
    binary_name: Seq<char>,
    service: Seq<char>,
    existing: Option<RecordView>,
    was_running: bool,
    had_unit: bool,
)
    ensures
        ({
            let plan = install_plan_of(
                plugins_root,
                systemd_dir,
                id,
                binary_name,
                service,
                existing,
                was_running,
                had_unit,
            );
            &&& existing is None ==> plan.should_start && plan.should_enable
            &&& existing matches Some(record) ==> plan.should_start == was_running
                && plan.should_enable == record.enabled
            &&& plan.stop_first <==> existing is Some || had_unit
            &&& path_of_place(plan, PlaceView::Unit) == join_path(systemd_dir, service)
            &&& path_of_place(plan, PlaceView::Units) == systemd_dir
            &&& path_of_place(plan, PlaceView::InCurrent(binary_name)) == plan.binary_target
            &&& plan.plugin_dir == join_path(plugins_root, id)
            &&& plan.rollback_dir == join_path(plan.plugin_dir, ".rollback"@)
            &&& plan.binary_target == join_path(
                join_path(join_path(plugins_root, id), "current"@),
                binary_name,
            )
        }),
{
}

/// The books say of an installed plugin what its package and the plan say: it has
/// the names and the checksum of the package, lies where it was put, can be
/// removed, and belongs to no update target.
pub proof fn installed_records_tell_of_their_package(
    p: PackageView,
    plan: InstallPlanView,
    official: bool,
    existing: Option<RecordView>,
    now: u64,
)
    ensures
        installation(p, plan, official, existing, now) matches Ok(r) ==> {
            &&& r.id == p.id && r.binary_name == p.binary_name && r.service == p.service_name
            &&& r.name == p.manifest.name && r.description == p.manifest.description
            &&& r.version == p.manifest.version && r.developer == p.manifest.developer
            &&& r.tls == p.manifest.tls
            &&& r.bin_path == p.bin_path && r.sha256 == p.sha256
            &&& r.install_dir == plan.plugin_dir
            &&& r.package_path == join_path(plan.plugin_dir, "package.zip"@)
            &&& r.official == official && r.enabled == plan.should_enable
            &&& r.removable && r.target_name is None
            &&& r.updated_at == now
            &&& existing is None ==> r.installed_at == now
            &&& existing matches Some(old_record) ==> r.installed_at == old_record.installed_at
            &&& channel_of(p.manifest.channel) == Ok::<Option<Seq<char>>, Refusal>(r.channel)
            &&& webview_of(p.manifest.webview) == Ok::<Option<u16>, Refusal>(r.webview)
            &&& icon_of(p.manifest.icon) == Ok::<Option<Seq<char>>, Refusal>(r.icon)
            &&& r.github_url == filled(p.manifest.github_url)
        },
        installation(p, plan, official, existing, now) is Err <==> channel_of(
            p.manifest.channel,
        ) is Err || webview_of(p.manifest.webview) is Err || icon_of(p.manifest.icon) is Err,
{
}

} // verus!
