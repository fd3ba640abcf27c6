//! The plugins that the installer keeps books on.
use crate::order::viewed;
use crate::paths::{join_path, joined_path};
use crate::plugins::error::{bad, unit_outcome, PluginError, Refusal};
use crate::plugins::systemd::{
    status_summary, summarize_service_status, unknown_status, unknown_systemd_status,
    PluginSystemdStatus, SystemdView,
};
use crate::text::{cat2, cat4, clone_opt, opt_str_view, opt_view, same, views};
use vstd::prelude::*;

verus! {

// ── Records ──────────────────────────────────────────────────────────────────

/// An installed plugin.
#[derive(Debug)]
pub struct PluginRecord {
    pub id: String,
    pub name: String,
    pub description: String,
    pub version: String,
    pub service: String,
    pub developer: String,
    pub channel: Option<String>,
    pub github_url: Option<String>,
    pub webview: Option<u16>,
    pub tls: bool,
    pub icon: Option<String>,
    pub binary_name: String,
    pub bin_path: Option<String>,
    pub sha256: String,
    pub install_dir: String,
    pub package_path: String,
    pub official: bool,
    pub enabled: bool,
    pub removable: bool,
    pub target_name: Option<String>,
    pub installed_at: u64,
    pub updated_at: u64,
}

/// What the record of a plugin holds.
pub struct RecordView {
    pub id: Seq<char>,
    pub name: Seq<char>,
    pub description: Seq<char>,
    pub version: Seq<char>,
    pub service: Seq<char>,
    pub developer: Seq<char>,
    pub channel: Option<Seq<char>>,
    pub github_url: Option<Seq<char>>,
    pub webview: Option<u16>,
    pub tls: bool,
    pub icon: Option<Seq<char>>,
    pub binary_name: Seq<char>,
    pub bin_path: Option<Seq<char>>,
    pub sha256: Seq<char>,
    pub install_dir: Seq<char>,
    pub package_path: Seq<char>,
    pub official: bool,
    pub enabled: bool,
    pub removable: bool,
    pub target_name: Option<Seq<char>>,
    pub installed_at: u64,
    pub updated_at: u64,
}

impl View for PluginRecord {
    type V = RecordView;

    open spec fn view(&self) -> RecordView {
        RecordView {
            id: self.id@,
            name: self.name@,
            description: self.description@,
            version: self.version@,
            service: self.service@,
            developer: self.developer@,
            channel: opt_view(self.channel),
            github_url: opt_view(self.github_url),
            webview: self.webview,
            tls: self.tls,
            icon: opt_view(self.icon),
            binary_name: self.binary_name@,
            bin_path: opt_view(self.bin_path),
            sha256: self.sha256@,
            install_dir: self.install_dir@,
            package_path: self.package_path@,
            official: self.official,
            enabled: self.enabled,
            removable: self.removable,
            target_name: opt_view(self.target_name),
            installed_at: self.installed_at,
            updated_at: self.updated_at,
        }
    }
}

impl PluginRecord {
    /// A copy of the record.
    pub fn copy(&self) -> (out: PluginRecord)
        ensures
            out@ == self@,
    {
        PluginRecord {
            id: self.id.clone(),
            name: self.name.clone(),
            description: self.description.clone(),
            version: self.version.clone(),
            service: self.service.clone(),
            developer: self.developer.clone(),
            channel: clone_opt(&self.channel),
            github_url: clone_opt(&self.github_url),
            webview: self.webview,
            tls: self.tls,
            icon: clone_opt(&self.icon),
            binary_name: self.binary_name.clone(),
            bin_path: clone_opt(&self.bin_path),
            sha256: self.sha256.clone(),
            install_dir: self.install_dir.clone(),
            package_path: self.package_path.clone(),
            official: self.official,
            enabled: self.enabled,
            removable: self.removable,
            target_name: clone_opt(&self.target_name),
            installed_at: self.installed_at,
            updated_at: self.updated_at,
        }
    }
}

/// An installed plugin and the state of its service.
#[derive(Debug)]
pub struct PluginSummary {
    pub id: String,
    pub name: String,
    pub description: String,
    pub version: String,
    pub service: String,
    pub developer: String,
    pub channel: Option<String>,
    pub github_url: Option<String>,
    pub webview: Option<u16>,
    pub tls: bool,
    pub icon: Option<String>,
    pub binary_name: String,
    pub bin_path: Option<String>,
    pub sha256: String,
    pub install_dir: String,
    pub package_path: String,
    pub official: bool,
    pub enabled: bool,
    pub removable: bool,
    pub target_name: Option<String>,
    pub status: String,
    pub systemd_status: PluginSystemdStatus,
    pub installed_at: u64,
    pub updated_at: u64,
}

/// What the summary of a plugin holds.
pub struct SummaryView {
    pub record: RecordView,
    pub status: Seq<char>,
    pub systemd_status: SystemdView,
}

impl View for PluginSummary {
    type V = SummaryView;

    open spec fn view(&self) -> SummaryView {
        SummaryView {
            record: RecordView {
                id: self.id@,
                name: self.name@,
                description: self.description@,
                version: self.version@,
                service: self.service@,
                developer: self.developer@,
                channel: opt_view(self.channel),
                github_url: opt_view(self.github_url),
                webview: self.webview,
                tls: self.tls,
                icon: opt_view(self.icon),
                binary_name: self.binary_name@,
                bin_path: opt_view(self.bin_path),
                sha256: self.sha256@,
                install_dir: self.install_dir@,
                package_path: self.package_path@,
                official: self.official,
                enabled: self.enabled,
                removable: self.removable,
                target_name: opt_view(self.target_name),
                installed_at: self.installed_at,
                updated_at: self.updated_at,
            },
            status: self.status@,
            systemd_status: self.systemd_status@,
        }
    }
}

/// The outcome of a request, in words.
#[derive(Debug)]
pub struct PluginMessage {
    pub detail: String,
}

// ── States of services ───────────────────────────────────────────────────────

/// The state of one service.
#[derive(Debug)]
pub struct ServiceState {
    pub service: String,
    pub status: PluginSystemdStatus,
}

/// What the states of services tell: of a service that comes twice, the later
/// state counts.
pub open spec fn states_of(entries: Seq<ServiceState>) -> Map<Seq<char>, SystemdView>
    decreases entries.len(),
{
    if entries.len() == 0 {
        Map::empty()
    } else {
        states_of(entries.drop_last()).insert(entries.last().service@, entries.last().status@)
    }
}

/// The last known states of services.
#[derive(Debug)]
pub struct StatusCache {
    pub entries: Vec<ServiceState>,
}

impl View for StatusCache {
    type V = Map<Seq<char>, SystemdView>;

    open spec fn view(&self) -> Map<Seq<char>, SystemdView> {
        states_of(self.entries@)
    }
}

impl StatusCache {
    /// No states.
    pub fn new() -> (out: StatusCache)
        ensures
            out@ == Map::<Seq<char>, SystemdView>::empty(),
    {
        StatusCache { entries: Vec::new() }
    }

    /// Notes the state of a service.
    pub fn insert(&mut self, service: String, status: PluginSystemdStatus)
        ensures
            final(self)@ == old(self)@.insert(service@, status@),
    {
        let entry = ServiceState { service, status };
        self.entries.push(entry);
        assert(self.entries@.drop_last() =~= old(self).entries@);
    }

    /// The state of a service, or an unknown one.
    pub fn get(&self, service: &str) -> (out: PluginSystemdStatus)
        ensures
            out@ == (if self@.contains_key(service@) {
                self@[service@]
            } else {
                unknown_status()
            }),
    {
        let mut n: usize = self.entries.len();
        let ghost all = self.entries@;
        assert(all.take(n as int) =~= all);
        while n > 0
            invariant
                n <= all.len(),
                all == self.entries@,
                states_of(all).contains_key(service@) == states_of(
                    all.take(n as int),
                ).contains_key(service@),
                states_of(all).contains_key(service@) ==> states_of(all)[service@] == states_of(
                    all.take(n as int),
                )[service@],
            decreases n,
        {
            assert(all.take(n as int).drop_last() =~= all.take(n - 1));
            if same(self.entries[n - 1].service.as_str(), service) {
                return self.entries[n - 1].status.copy();
            }
            n -= 1;
        }
        assert(all.take(0) =~= Seq::<ServiceState>::empty());
        unknown_systemd_status()
    }
}

/// The state of a service, or an unknown one.
pub open spec fn state_of(cache: Map<Seq<char>, SystemdView>, service: Seq<char>) -> SystemdView {
    if cache.contains_key(service) {
        cache[service]
    } else {
        unknown_status()
    }
}

/// The services to keep the state of: those of the plugins, then the others.
pub open spec fn services_of(records: Seq<RecordView>, others: Seq<Seq<char>>) -> Seq<Seq<char>> {
    records.map_values(|r: RecordView| r.service) + others
}

/// The services to keep the state of: those of the plugins, then those that are
/// built in.
pub fn tracked_services(records: &Vec<PluginRecord>, core_services: &Vec<String>) -> (out: Vec<
    String,
>)
    ensures
        views(out@) == services_of(viewed(records@), views(core_services@)),
{
    let ghost plugins = viewed(records@).map_values(|r: RecordView| r.service);
    let mut out: Vec<String> = Vec::new();
    let mut i: usize = 0;
    assert(views(out@) =~= plugins.take(0));
    while i < records.len()
        invariant
            i <= records@.len(),
            plugins == viewed(records@).map_values(|r: RecordView| r.service),
            views(out@) == plugins.take(i as int),
        decreases records@.len() - i,
    {
        let ghost before = views(out@);
        out.push(records[i].service.clone());
        proof {
            assert(views(out@) =~= before.push(records@[i as int].service@));
            assert(plugins.take(i + 1) =~= before.push(plugins[i as int]));
        }
        i += 1;
    }
    let mut j: usize = 0;
    assert(plugins.take(i as int) =~= plugins);
    assert(views(out@) =~= plugins + views(core_services@).take(0));
    while j < core_services.len()
        invariant
            j <= core_services@.len(),
            views(out@) == plugins + views(core_services@).take(j as int),
        decreases core_services@.len() - j,
    {
        let ghost before = views(out@);
        out.push(core_services[j].clone());
        proof {
            assert(views(out@) =~= before.push(core_services@[j as int]@));
            assert(plugins + views(core_services@).take(j + 1) =~= before.push(
                views(core_services@)[j as int],
            ));
        }
        j += 1;
    }
    assert(views(core_services@).take(j as int) =~= views(core_services@));
    out
}

// ── Summaries ────────────────────────────────────────────────────────────────

/// The summary of a plugin whose service is in a state of `cache`.
pub open spec fn summary_of(record: RecordView, cache: Map<Seq<char>, SystemdView>) -> SummaryView {
    let state = state_of(cache, record.service);
    SummaryView { record, status: status_summary(state), systemd_status: state }
}

/// The summary of a plugin.
pub fn plugin_summary(record: PluginRecord, cache: &StatusCache) -> (out: PluginSummary)
    ensures
        out@ == summary_of(record@, cache@),
{
    let systemd_status = cache.get(record.service.as_str());
    PluginSummary {
        status: summarize_service_status(&systemd_status),
        id: record.id,
        name: record.name,
        description: record.description,
        version: record.version,
        service: record.service,
        developer: record.developer,
        channel: record.channel,
        github_url: record.github_url,
        webview: record.webview,
        tls: record.tls,
        icon: record.icon,
        binary_name: record.binary_name,
        bin_path: record.bin_path,
        sha256: record.sha256,
        install_dir: record.install_dir,
        package_path: record.package_path,
        official: record.official,
        enabled: record.enabled,
        removable: record.removable,
        target_name: record.target_name,
        installed_at: record.installed_at,
        updated_at: record.updated_at,
        systemd_status,
    }
}

/// The summaries of plugins, in their order.
pub fn build_plugin_summaries(records: &Vec<PluginRecord>, cache: &StatusCache) -> (out: Vec<
    PluginSummary,
>)
    ensures
        viewed(out@) == viewed(records@).map_values(|r: RecordView| summary_of(r, cache@)),
{
    let ghost wanted = viewed(records@).map_values(|r: RecordView| summary_of(r, cache@));
    let mut out: Vec<PluginSummary> = Vec::new();
    let mut i: usize = 0;
    assert(viewed(out@) =~= wanted.take(0));
    while i < records.len()
        invariant
            i <= records@.len(),
            wanted == viewed(records@).map_values(|r: RecordView| summary_of(r, cache@)),
            viewed(out@) == wanted.take(i as int),
        decreases records@.len() - i,
    {
        let ghost before = viewed(out@);
        let summary = plugin_summary(records[i].copy(), cache);
        out.push(summary);
        proof {
            assert(viewed(out@) =~= before.push(summary@));
            assert(wanted.take(i + 1) =~= before.push(wanted[i as int]));
        }
        i += 1;
    }
    assert(wanted.take(i as int) =~= wanted);
    out
}

// ── Places ───────────────────────────────────────────────────────────────────

/// Where the binary of a plugin lies.
pub open spec fn binary_target(install_dir: Seq<char>, binary_name: Seq<char>) -> Seq<char> {
    join_path(join_path(install_dir, "current"@), binary_name)
}

/// Where the binary of a plugin lies.
pub fn plugin_binary_target(install_dir: &str, binary_name: &str) -> (out: String)
    ensures
        out@ == binary_target(install_dir@, binary_name@),
{
    let current = joined_path(install_dir, "current");
    joined_path(current.as_str(), binary_name)
}

/// Where the binary of an installed plugin is to be found: a built-in one is
/// reached through its link.
pub open spec fn binary_path_of(record: RecordView) -> Seq<char> {
    if record.target_name is Some && !record.removable {
        match record.bin_path {
            Some(path) => path,
            None => join_path(record.install_dir, record.binary_name),
        }
    } else {
        binary_target(record.install_dir, record.binary_name)
    }
}

/// Where the binary of an installed plugin is to be found.
pub fn current_binary_path(record: &PluginRecord) -> (out: String)
    ensures
        out@ == binary_path_of(record@),
{
    if record.target_name.is_some() && !record.removable {
        match &record.bin_path {
            Some(path) => path.clone(),
            None => joined_path(record.install_dir.as_str(), record.binary_name.as_str()),
        }
    } else {
        plugin_binary_target(record.install_dir.as_str(), record.binary_name.as_str())
    }
}

/// Where the link of a plugin is written down during an update.
pub fn rollback_symlink_info_path(rollback_dir: &str) -> (out: String)
    ensures
        out@ == join_path(rollback_dir@, "bin_path.rollback"@),
{
    joined_path(rollback_dir, "bin_path.rollback")
}

/// The file with the signature of an installed plugin: the `.sig` file, or else
/// the older `.sign` one.
pub fn resolve_signature_file_path(
    plugin_dir: &str,
    binary_name: &str,
    has_signature: bool,
    has_legacy_signature: bool,
) -> (out: Option<String>)
    ensures
        opt_view(out) == (if has_signature {
            Some(join_path(plugin_dir@, binary_name@ + ".sig"@))
        } else if has_legacy_signature {
            Some(join_path(plugin_dir@, binary_name@ + ".sign"@))
        } else {
            None
        }),
{
    if has_signature {
        let name = cat2(binary_name, ".sig");
        Some(joined_path(plugin_dir, name.as_str()))
    } else if has_legacy_signature {
        let name = cat2(binary_name, ".sign");
        Some(joined_path(plugin_dir, name.as_str()))
    } else {
        None
    }
}

// ── Owners ───────────────────────────────────────────────────────────────────

/// Accepts a service that no other plugin has. `owner` is the plugin that has
/// it now.
pub fn ensure_service_available(
    owner: Option<&str>,
    service_name: &str,
    current_plugin_id: Option<&str>,
) -> (out: Result<(), PluginError>)
    ensures
        unit_outcome(out) == (match opt_str_view(owner) {
            Some(owner) => if opt_str_view(current_plugin_id) == Some(owner) {
                Ok::<(), Refusal>(())
            } else {
                Err(bad("service "@ + service_name@ + " is already owned by plugin "@ + owner))
            },
            None => Ok(()),
        }),
{
    match owner {
        Some(owner) => {
            if owned_by(owner, current_plugin_id) {
                return Ok(());
            }
            Err(
                PluginError::bad_request(
                    cat4("service ", service_name, " is already owned by plugin ", owner),
                ),
            )
        },
        None => Ok(()),
    }
}

/// Whether an owner is the plugin that asks.
fn owned_by(owner: &str, current_plugin_id: Option<&str>) -> (out: bool)
    ensures
        out == (opt_str_view(current_plugin_id) == Some(owner@)),
{
    match current_plugin_id {
        Some(id) => same(id, owner),
        None => false,
    }
}

/// Accepts a link path that no other plugin has. `owner` is the plugin that has
/// it now.
pub fn ensure_bin_path_available(
    owner: Option<&str>,
    bin_path: Option<&str>,
    current_plugin_id: Option<&str>,
) -> (out: Result<(), PluginError>)
    ensures
        unit_outcome(out) == (match (opt_str_view(bin_path), opt_str_view(owner)) {
            (Some(path), Some(owner)) => if opt_str_view(current_plugin_id) == Some(owner) {
                Ok::<(), Refusal>(())
            } else {
                Err(bad("bin_path "@ + path + " is already owned by plugin "@ + owner))
            },
            _ => Ok(()),
        }),
{
    let path = match bin_path {
        Some(path) => path,
        None => {
            return Ok(());
        },
    };
    match owner {
        Some(owner) => {
            if owned_by(owner, current_plugin_id) {
                return Ok(());
            }
            Err(
                PluginError::bad_request(
                    cat4("bin_path ", path, " is already owned by plugin ", owner),
                ),
            )
        },
        None => Ok(()),
    }
}

// ── Times ────────────────────────────────────────────────────────────────────

/// The earliest of the times that are known.
pub open spec fn earliest(times: Seq<Option<u64>>) -> Option<u64>
    decreases times.len(),
{
    if times.len() == 0 {
        None
    } else {
        match (earliest(times.drop_last()), times.last()) {
            (Some(a), Some(b)) => Some(if b < a {
                b
            } else {
                a
            }),
            (Some(a), None) => Some(a),
            (None, last) => last,
        }
    }
}

/// The latest of the times that are known.
pub open spec fn latest(times: Seq<Option<u64>>) -> Option<u64>
    decreases times.len(),
{
    if times.len() == 0 {
        None
    } else {
        match (latest(times.drop_last()), times.last()) {
            (Some(a), Some(b)) => Some(if a < b {
                b
            } else {
                a
            }),
            (Some(a), None) => Some(a),
            (None, last) => last,
        }
    }
}

/// The earliest of the times that are known.
pub fn first_available_timestamp(times: &Vec<Option<u64>>) -> (out: Option<u64>)
    ensures
        out == earliest(times@),
{
    let mut best: Option<u64> = None;
    let mut i: usize = 0;
    assert(times@.take(0) =~= Seq::<Option<u64>>::empty());
    while i < times.len()
        invariant
            i <= times@.len(),
            best == earliest(times@.take(i as int)),
        decreases times@.len() - i,
    {
        assert(times@.take(i + 1).drop_last() =~= times@.take(i as int));
        best = match (best, times[i]) {
            (Some(a), Some(b)) => if b < a {
                Some(b)
            } else {
                Some(a)
            },
            (Some(a), None) => Some(a),
            (None, last) => last,
        };
        i += 1;
    }
    assert(times@.take(i as int) =~= times@);
    best
}

/// The latest of the times that are known.
pub fn latest_available_timestamp(times: &Vec<Option<u64>>) -> (out: Option<u64>)
    ensures
        out == latest(times@),
{
    let mut best: Option<u64> = None;
    let mut i: usize = 0;
    assert(times@.take(0) =~= Seq::<Option<u64>>::empty());
    while i < times.len()
        invariant
            i <= times@.len(),
            best == latest(times@.take(i as int)),
        decreases times@.len() - i,
    {
        assert(times@.take(i + 1).drop_last() =~= times@.take(i as int));
        best = match (best, times[i]) {
            (Some(a), Some(b)) => if a < b {
                Some(b)
            } else {
                Some(a)
            },
            (Some(a), None) => Some(a),
            (None, last) => last,
        };
        i += 1;
    }
    assert(times@.take(i as int) =~= times@);
    best
}

/// The earliest and the latest time lie around every time that is known, and
/// are known themselves.
pub proof fn times_lie_between(times: Seq<Option<u64>>)
    ensures
        earliest(times) is Some <==> latest(times) is Some,
        earliest(times) is Some ==> times.contains(earliest(times)) && times.contains(
            latest(times),
        ),
        forall|t: u64|
            #![trigger times.contains(Some(t))]
            times.contains(Some(t)) ==> earliest(times) is Some && earliest(times)->Some_0 <= t
                && t <= latest(times)->Some_0,
    decreases times.len(),
{
    if times.len() > 0 {
        let rest = times.drop_last();
        times_lie_between(rest);
        assert(times == rest.push(times.last()));
        assert forall|t: Option<u64>| #[trigger] rest.contains(t) implies times.contains(t) by {
            let k = choose|k: int| 0 <= k < rest.len() && rest[k] == t;
            assert(times[k] == t);
        }
        assert(times[times.len() - 1] == times.last());
        assert forall|t: u64| #[trigger] times.contains(Some(t)) implies earliest(times) is Some
            && earliest(times)->Some_0 <= t && t <= latest(times)->Some_0 by {
            let k = choose|k: int| 0 <= k < times.len() && times[k] == Some(t);
            if k < rest.len() {
                assert(rest[k] == Some(t));
                assert(rest.contains(Some(t)));
            }
        }
    }
}

// ── Laws ─────────────────────────────────────────────────────────────────────

/// The binary of a plugin lies in the directory `current` of the place where it
/// is installed; that of a built-in plugin is where its link path says, or right
/// in that place.
pub proof fn binaries_lie_where_they_are_installed(record: RecordView)
    requires
        record.install_dir.len() > 0,
        record.install_dir.last() != '/',
        record.binary_name.len() > 0,
        record.binary_name[0] != '/',
    ensures
        record.removable || record.target_name is None ==> binary_path_of(record)
            == record.install_dir + "/current/"@ + record.binary_name,
        !record.removable && record.target_name is Some && record.bin_path is None
            ==> binary_path_of(record) == record.install_dir + "/"@ + record.binary_name,
        !record.removable && record.target_name is Some && record.bin_path is Some
            ==> binary_path_of(record) == record.bin_path->Some_0,
{
    reveal_strlit("current");
    reveal_strlit("/");
    reveal_strlit("/current/");
    let place = join_path(record.install_dir, "current"@);
    assert(place == record.install_dir + "/"@ + "current"@);
    assert(place.last() == 't');
    assert(join_path(place, record.binary_name) =~= record.install_dir + "/current/"@
        + record.binary_name);
}

/// A plugin is listed with all of its record and with the last report of its own
/// service; a service without a report is unknown.
pub proof fn plugins_are_listed_with_their_service(
    record: RecordView,
    cache: Map<Seq<char>, SystemdView>,
    service: Seq<char>,
    status: SystemdView,
)
    ensures
        ({
            let before = summary_of(record, cache);
            let after = summary_of(record, cache.insert(service, status));
            &&& before.record == record
            &&& service == record.service ==> after.systemd_status == status
            &&& service != record.service ==> after == before
            &&& !cache.contains_key(record.service) ==> before.systemd_status.active_state
                == "unknown"@ && before.systemd_status.sub_state == "unknown"@
                && before.systemd_status.main_pid is None && before.status == "unknown"@
        }),
{
}

/// The services to watch are those of the plugins, then those of the system.
pub proof fn services_of_all_plugins_are_watched(
    records: Seq<RecordView>,
    others: Seq<Seq<char>>,
    i: int,
)
    ensures
        0 <= i < records.len() ==> services_of(records, others)[i] == records[i].service,
        0 <= i < others.len() ==> services_of(records, others)[records.len() + i] == others[i],
        services_of(records, others).len() == records.len() + others.len(),
{
}

} // verus!
