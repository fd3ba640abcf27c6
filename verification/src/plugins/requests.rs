//! What is asked of installed plugins: to run, to go, to change, to show an
//! icon.
use crate::order::viewed;
use crate::paths::{components, extension, join_path, joined_path};
use crate::plugins::built_in::{CorePluginSpec, CoreView};
use crate::plugins::error::{bad, failed, missing, unit_outcome, PluginError, Refusal};
use crate::plugins::install::opt_record_view;
use crate::plugins::manifest::{
    icon_content_type, icon_of, icons_are_pictures, lower_extension, normalize_icon_path,
};
use crate::plugins::records::{
    binary_target, plugin_binary_target, PluginMessage, PluginRecord, RecordView,
};
use crate::plugins::systemd::PluginAction;
use crate::text::{cat2, cat3, cat4, lower, opt_as_str, opt_pair_view, opt_view, same, trim};
use vstd::prelude::*;

verus! {

/// The record of a plugin that is known, or the refusal of one that is not.
pub open spec fn known_plugin(id: Seq<char>, record: Option<RecordView>) -> Result<
    RecordView,
    Refusal,
> {
    match record {
        Some(record) => Ok(record),
        None => Err(missing("unknown plugin: "@ + id)),
    }
}

/// The record of a plugin that is known.
fn require_plugin<'a>(plugin_id: &str, record: &'a Option<PluginRecord>) -> (out: Result<
    &'a PluginRecord,
    PluginError,
>)
    ensures
        match out {
            Ok(found) => *record == Some(*found),
            Err(err) => *record is None && err@ == missing("unknown plugin: "@ + plugin_id@),
        },
{
    match record {
        Some(found) => Ok(found),
        None => Err(PluginError::not_found(cat2("unknown plugin: ", plugin_id))),
    }
}

// ── Running ──────────────────────────────────────────────────────────────────

/// What is done to run or stop a plugin.
#[derive(Debug)]
pub struct ControlPlan {
    /// What systemctl is told to do with the service.
    pub action: PluginAction,
    pub service: String,
    /// Whether the plugin is enabled from then on.
    pub enabled: bool,
    /// The answer once it is done.
    pub message: PluginMessage,
}

/// What is done to run or stop a plugin: it is enabled when it is started, and
/// disabled when it is stopped.
pub fn control_plugin(plugin_id: &str, record: &Option<PluginRecord>, action: PluginAction) -> (out:
    Result<ControlPlan, PluginError>)
    ensures
        match (out, known_plugin(plugin_id@, opt_record_view(*record))) {
            (Ok(plan), Ok(plugin)) => {
                &&& plan.action == action
                &&& plan.service@ == plugin.service
                &&& plan.enabled == (action != PluginAction::Stop)
                &&& plan.message.detail@ == plugin.name + " "@ + action.word()
            },
            (Err(err), Err(refusal)) => err@ == refusal,
            _ => false,
        },
{
    let plugin = match require_plugin(plugin_id, record) {
        Ok(plugin) => plugin,
        Err(err) => {
            return Err(err);
        },
    };
    let enabled = match action {
        PluginAction::Start => true,
        PluginAction::Restart => true,
        PluginAction::Stop => false,
    };
    Ok(
        ControlPlan {
            action,
            service: plugin.service.clone(),
            enabled,
            message: PluginMessage { detail: cat3(plugin.name.as_str(), " ", action.as_str()) },
        },
    )
}

/// The refusal of an action that systemctl could not take.
pub fn control_failure(action: PluginAction, err: &str) -> (out: PluginError)
    ensures
        out@ == failed(action.word() + " service: "@ + err@),
{
    PluginError::internal(cat3(action.as_str(), " service: ", err))
}

/// The word for a service that is to be enabled or disabled.
pub fn enable_word(enabled: bool) -> (out: &'static str)
    ensures
        out@ == (if enabled {
            "enable"@
        } else {
            "disable"@
        }),
{
    if enabled {
        "enable"
    } else {
        "disable"
    }
}

// ── Removing ─────────────────────────────────────────────────────────────────

/// What is removed with a plugin.
#[derive(Debug)]
pub struct DeletePlan {
    pub plugin_dir: String,
    pub service: String,
    pub service_path: String,
    /// Its link and what that points to, if it has one.
    pub link: Option<(String, String)>,
    /// The answer once it is done.
    pub message: PluginMessage,
}

/// Whether a plugin comes with the system.
pub open spec fn is_built_in(record: RecordView) -> bool {
    record.target_name is Some || !record.removable
}

/// What is removed with a plugin; one that comes with the system stays.
pub fn delete_plugin(
    plugins_root: &str,
    systemd_dir: &str,
    plugin_id: &str,
    record: &Option<PluginRecord>,
) -> (out: Result<DeletePlan, PluginError>)
    ensures
        match (out, known_plugin(plugin_id@, opt_record_view(*record))) {
            (Ok(plan), Ok(plugin)) => {
                &&& !is_built_in(plugin)
                &&& plan.plugin_dir@ == join_path(plugins_root@, plugin_id@)
                &&& plan.service@ == plugin.service
                &&& plan.service_path@ == join_path(systemd_dir@, plugin.service)
                &&& opt_pair_view(plan.link) == (match plugin.bin_path {
                    Some(path) => Some(
                        (path, binary_target(plugin.install_dir, plugin.binary_name)),
                    ),
                    None => None,
                })
                &&& plan.message.detail@ == "Deleted plugin "@ + plugin.name
            },
            (Err(err), Ok(plugin)) => is_built_in(plugin) && err@ == bad(
                "plugin "@ + plugin.name + " is built-in and cannot be removed"@,
            ),
            (Err(err), Err(refusal)) => err@ == refusal,
            (Ok(_), Err(_)) => false,
        },
{
    let plugin = match require_plugin(plugin_id, record) {
        Ok(plugin) => plugin,
        Err(err) => {
            return Err(err);
        },
    };
    if plugin.target_name.is_some() || !plugin.removable {
        return Err(
            PluginError::bad_request(
                cat3("plugin ", plugin.name.as_str(), " is built-in and cannot be removed"),
            ),
        );
    }
    let link = match &plugin.bin_path {
        Some(path) => Some(
            (
                path.clone(),
                plugin_binary_target(plugin.install_dir.as_str(), plugin.binary_name.as_str()),
            ),
        ),
        None => None,
    };
    Ok(
        DeletePlan {
            plugin_dir: joined_path(plugins_root, plugin_id),
            service: plugin.service.clone(),
            service_path: joined_path(systemd_dir, plugin.service.as_str()),
            link,
            message: PluginMessage { detail: cat2("Deleted plugin ", plugin.name.as_str()) },
        },
    )
}

// ── Updating ─────────────────────────────────────────────────────────────────

/// How an update of a plugin is taken up.
#[derive(Debug, Clone, Copy, PartialEq, Eq, Structural)]
pub enum UpdateRoute {
    /// As an update of the built-in plugin with this index.
    BuiltIn(usize),
    /// As a package.
    Package,
}

/// Whether the built-in plugin with an index is the first one with the target
/// `name`.
pub open spec fn is_first_target(cores: Seq<CoreView>, name: Seq<char>, index: int) -> bool {
    &&& 0 <= index < cores.len()
    &&& cores[index].target.name == name
    &&& forall|k: int| 0 <= k < index ==> (#[trigger] cores[k]).target.name != name
}

/// Whether no built-in plugin has the target `name`.
pub open spec fn lacks_target(cores: Seq<CoreView>, name: Seq<char>) -> bool {
    forall|k: int| 0 <= k < cores.len() ==> (#[trigger] cores[k]).target.name != name
}

/// How an update of a plugin is taken up: one that comes with the system is
/// updated through its target.
pub fn upload_plugin_update(
    plugin_id: &str,
    record: &Option<PluginRecord>,
    core_plugins: &Vec<CorePluginSpec>,
) -> (out: Result<UpdateRoute, PluginError>)
    ensures
        match known_plugin(plugin_id@, opt_record_view(*record)) {
            Err(refusal) => out matches Err(err) && err@ == refusal,
            Ok(plugin) => match plugin.target_name {
                None => out == Ok::<UpdateRoute, PluginError>(UpdateRoute::Package),
                Some(name) => match out {
                    Ok(UpdateRoute::BuiltIn(index)) => is_first_target(
                        viewed(core_plugins@),
                        name,
                        index as int,
                    ),
                    Ok(UpdateRoute::Package) => false,
                    Err(err) => lacks_target(viewed(core_plugins@), name) && err@ == failed(
                        "missing built-in target mapping for plugin "@ + plugin_id@,
                    ),
                },
            },
        },
{
    let plugin = match require_plugin(plugin_id, record) {
        Ok(plugin) => plugin,
        Err(err) => {
            return Err(err);
        },
    };
    let name = match &plugin.target_name {
        Some(name) => name,
        None => {
            return Ok(UpdateRoute::Package);
        },
    };
    let ghost cores = viewed(core_plugins@);
    let mut i: usize = 0;
    while i < core_plugins.len()
        invariant
            i <= core_plugins@.len(),
            cores == viewed(core_plugins@),
            *record is Some,
            opt_view(record->Some_0.target_name) == Some(name@),
            forall|k: int| 0 <= k < i ==> (#[trigger] cores[k]).target.name != name@,
        decreases core_plugins@.len() - i,
    {
        assert(cores[i as int] == core_plugins@[i as int]@);
        if same(core_plugins[i].target.name.as_str(), name.as_str()) {
            return Ok(UpdateRoute::BuiltIn(i));
        }
        i += 1;
    }
    Err(
        PluginError::internal(
            cat2("missing built-in target mapping for plugin ", plugin_id),
        ),
    )
}

/// Accepts a package for the plugin that it is an update of.
pub fn check_update_target(package_id: &str, plugin_id: &str) -> (out: Result<(), PluginError>)
    ensures
        unit_outcome(out) == (if package_id@ == plugin_id@ {
            Ok::<(), Refusal>(())
        } else {
            Err(bad("plugin package targets "@ + package_id@ + ", expected "@ + plugin_id@))
        }),
{
    if same(package_id, plugin_id) {
        Ok(())
    } else {
        Err(
            PluginError::bad_request(
                cat4("plugin package targets ", package_id, ", expected ", plugin_id),
            ),
        )
    }
}

// ── Icons ────────────────────────────────────────────────────────────────────

/// The icon of an installed plugin.
#[derive(Debug)]
pub struct PluginIcon {
    pub bytes: Vec<u8>,
    pub content_type: &'static str,
}

/// Where the icon of a plugin is, relative to where the plugin runs.
pub open spec fn icon_location(id: Seq<char>, record: Option<RecordView>) -> Result<
    Seq<char>,
    Refusal,
> {
    match record {
        None => Err(missing("unknown plugin "@ + id)),
        Some(plugin) => match icon_of(plugin.icon) {
            Err(refusal) => Err(refusal),
            Ok(None) => Err(missing("plugin "@ + id + " declares no icon"@)),
            Ok(Some(relative)) => Ok(relative),
        },
    }
}

/// The content type of an icon.
pub open spec fn icon_type(relative: Seq<char>) -> Seq<char> {
    if lower_extension(relative) == Some("svg"@) {
        "image/svg+xml"@
    } else {
        "image/png"@
    }
}

/// An icon that is to be read: where, and what it is.
#[derive(Debug)]
pub struct IconFile {
    pub path: String,
    pub content_type: &'static str,
}

/// Where to read the icon of a plugin.
pub fn locate_plugin_icon(plugin_id: &str, record: &Option<PluginRecord>) -> (out: Result<
    IconFile,
    PluginError,
>)
    ensures
        match (out, icon_location(plugin_id@, opt_record_view(*record))) {
            (Ok(file), Ok(relative)) => {
                &&& file.path@ == join_path(
                    join_path(record->Some_0@.install_dir, "current"@),
                    relative,
                )
                &&& file.content_type@ == icon_type(relative)
            },
            (Err(err), Err(refusal)) => err@ == refusal,
            _ => false,
        },
{
    let plugin = match record {
        Some(plugin) => plugin,
        None => {
            return Err(PluginError::not_found(cat2("unknown plugin ", plugin_id)));
        },
    };
    match normalize_icon_path(opt_as_str(&plugin.icon)) {
        Ok(Some(relative)) => {
            let current = joined_path(plugin.install_dir.as_str(), "current");
            Ok(
                IconFile {
                    path: joined_path(current.as_str(), relative.as_str()),
                    content_type: icon_content_type(relative.as_str()),
                },
            )
        },
        Ok(None) => Err(
            PluginError::not_found(cat3("plugin ", plugin_id, " declares no icon")),
        ),
        Err(err) => Err(err),
    }
}

/// The icon of a plugin, from what reading its file gave.
pub fn read_plugin_icon(file: &IconFile, bytes: Result<Vec<u8>, String>) -> (out: Result<
    PluginIcon,
    PluginError,
>)
    ensures
        match (out, bytes) {
            (Ok(icon), Ok(bytes)) => icon.bytes@ == bytes@ && icon.content_type@
                == file.content_type@,
            (Err(err), Err(reason)) => err@ == missing(
                "read plugin icon "@ + file.path@ + ": "@ + reason@,
            ),
            _ => false,
        },
{
    match bytes {
        Ok(bytes) => Ok(PluginIcon { bytes, content_type: file.content_type }),
        Err(err) => Err(
            PluginError::not_found(
                cat4("read plugin icon ", file.path.as_str(), ": ", err.as_str()),
            ),
        ),
    }
}

// ── Laws ─────────────────────────────────────────────────────────────────────

/// The pictures of plugins are sent as what their names say: one that ends in
/// `.svg`, in letters of either case, as a drawing, any other as a PNG.
pub proof fn icons_are_sent_as_what_they_are(relative: Seq<char>)
    ensures
        (extension(relative) matches Some(e) && lower(e) == "svg"@) ==> icon_type(relative)
            == "image/svg+xml"@,
        (extension(relative) matches Some(e) && lower(e) == "png"@) ==> icon_type(relative)
            == "image/png"@,
{
    reveal_strlit("svg");
    reveal_strlit("png");
    assert("svg"@[0] == 's');
    assert("png"@[0] == 'p');
}

/// The icon of a plugin is found if and only if the plugin is known and names a
/// picture; it is the picture that it names.
pub proof fn named_icons_are_found(id: Seq<char>, record: Option<RecordView>)
    ensures
        icon_location(id, record) matches Ok(path) ==> {
            &&& record is Some
            &&& record->Some_0.icon is Some
            &&& components(path) == components(trim(record->Some_0.icon->Some_0))
        },
        icon_location(id, record) matches Err(refusal) ==> (record is None
            || record->Some_0.icon is None) ==> refusal.status == 404,
        record is None || record->Some_0.icon is None ==> icon_location(id, record) is Err,
        record is Some && record->Some_0.icon is Some && (icon_of(
            record->Some_0.icon,
        ) matches Ok(Some(_))) ==> icon_location(id, record) is Ok,
{
    if let Some(plugin) = record {
        icons_are_pictures(plugin.icon);
    }
}

/// Plugins that came as a package can be deleted, plugins that came with the
/// system cannot.
pub proof fn only_packages_are_deleted(record: RecordView)
    ensures
        record.removable && record.target_name is None ==> !is_built_in(record),
        !record.removable ==> is_built_in(record),
        record.target_name is Some ==> is_built_in(record),
{
}

/// A plugin that is not known is refused as one that is not there; one that is
/// known is the one that the books have.
pub proof fn unknown_plugins_are_not_there(id: Seq<char>, record: Option<RecordView>)
    ensures
        record matches Some(plugin) ==> known_plugin(id, record) == Ok::<RecordView, Refusal>(
            plugin,
        ),
        record is None ==> (known_plugin(id, record) matches Err(refusal) && refusal.status == 404
            && refusal.detail == "unknown plugin: "@ + id),
{
}

/// A built-in plugin has at most one first place, and it has one unless it is
/// lacking.
pub proof fn targets_are_found_once(cores: Seq<CoreView>, name: Seq<char>, a: int, b: int)
    requires
        is_first_target(cores, name, a),
        is_first_target(cores, name, b),
    ensures
        a == b,
        !lacks_target(cores, name),
{
    if a < b {
        assert(cores[a].target.name != name);
    } else if b < a {
        assert(cores[b].target.name != name);
    }
    if lacks_target(cores, name) {
        assert(cores[a].target.name != name);
    }
}

/// A built-in plugin that has a place is not lacking, and its first place is its own.
pub proof fn lacking_targets_have_no_place(cores: Seq<CoreView>, name: Seq<char>, i: int)
    requires
        0 <= i < cores.len(),
        cores[i].target.name == name,
    ensures
        !lacks_target(cores, name),
        (forall|k: int| 0 <= k < i ==> (#[trigger] cores[k]).target.name != name)
            ==> is_first_target(cores, name, i),
{
    assert(cores[i].target.name == name);
}

} // verus!
