//! The manifest of a plugin, and what it may say.
use crate::paths::{
    body_components, component_views, components, extension, file_name, file_stem,
    head_components, is_absolute, is_plain_name, last_index, lemma_component_names,
    lemma_components_of_names, lemma_last_index_is, lemma_single_part, path_components,
    path_extension, path_stem, segment_component, starts_with_slash, Component, ComponentView,
};
use crate::plugins::error::{bad, opt_outcome, text_outcome, PluginError, Refusal};
use crate::text::{
    alphanumeric, cat3, ends_with, first_index, has_char, is_alphanumeric, is_space, join, joined,
    lemma_first_index, lemma_split_pieces, lemma_trimmed, lower, lower_char, lowercase, opt_as_str,
    opt_str_view, opt_view, same, split, to_chars, trim, trim_is_idempotent, trimmed, views,
};
use vstd::prelude::*;

verus! {

/// The manifest of a plugin, as it was written.
#[derive(Debug)]
pub struct PluginManifest {
    pub name: String,
    pub description: String,
    pub version: String,
    pub service: String,
    pub developer: String,
    pub channel: Option<String>,
    pub github_url: Option<String>,
    pub webview: Option<u16>,
    pub tls: bool,
    pub icon: Option<String>,
    pub symlink: Option<String>,
}

/// What a manifest holds.
pub struct ManifestView {
    pub name: Seq<char>,
    pub description: Seq<char>,
    pub version: Seq<char>,
    pub service: Seq<char>,
    pub developer: Seq<char>,
    pub channel: Option<Seq<char>>,
    pub github_url: Option<Seq<char>>,
    pub webview: Option<u16>,
    pub tls: bool,
    pub icon: Option<Seq<char>>,
    pub symlink: Option<Seq<char>>,
}

impl View for PluginManifest {
    type V = ManifestView;

    open spec fn view(&self) -> ManifestView {
        ManifestView {
            name: self.name@,
            description: self.description@,
            version: self.version@,
            service: self.service@,
            developer: self.developer@,
            channel: opt_view(self.channel),
            github_url: opt_view(self.github_url),
            webview: self.webview,
            tls: self.tls,
            icon: opt_view(self.icon),
            symlink: opt_view(self.symlink),
        }
    }
}

// ── Optional values ──────────────────────────────────────────────────────────

/// A value without white space around it; a blank one counts as absent.
pub open spec fn filled(value: Option<Seq<char>>) -> Option<Seq<char>> {
    match value {
        Some(text) => if trim(text).len() > 0 {
            Some(trim(text))
        } else {
            None
        },
        None => None,
    }
}

/// A value without white space around it; a blank one counts as absent.
fn filled_value(value: Option<&str>) -> (out: Option<String>)
    ensures
        opt_view(out) == filled(opt_str_view(value)),
{
    match value {
        Some(text) => {
            let text = trimmed(text);
            if text.as_str().is_empty() {
                None
            } else {
                Some(text)
            }
        },
        None => None,
    }
}

/// The address of the sources: any text that is not blank.
pub fn normalize_github_url(github_url: Option<&str>) -> (out: Option<String>)
    ensures
        opt_view(out) == filled(opt_str_view(github_url)),
{
    filled_value(github_url)
}

/// Whether a text names a release channel.
pub open spec fn is_channel(text: Seq<char>) -> bool {
    text == "dev"@ || text == "experimental"@ || text == "unstable"@ || text == "stable"@
}

/// The release channel that a manifest names, in small letters.
pub open spec fn channel_of(channel: Option<Seq<char>>) -> Result<Option<Seq<char>>, Refusal> {
    match filled(channel) {
        None => Ok(None),
        Some(text) => if is_channel(lower(text)) {
            Ok(Some(lower(text)))
        } else {
            Err(bad("plugin channel must be one of: dev, experimental, unstable, stable"@))
        },
    }
}

/// The release channel that a manifest names, in small letters.
pub fn normalize_channel(channel: Option<&str>) -> (out: Result<Option<String>, PluginError>)
    ensures
        opt_outcome(out) == channel_of(opt_str_view(channel)),
{
    let text = match filled_value(channel) {
        Some(text) => text,
        None => {
            return Ok(None);
        },
    };
    let normalized = lowercase(text.as_str());
    if same(normalized.as_str(), "dev") || same(normalized.as_str(), "experimental") || same(
        normalized.as_str(),
        "unstable",
    ) || same(normalized.as_str(), "stable") {
        Ok(Some(normalized))
    } else {
        Err(
            PluginError::bad_request(
                "plugin channel must be one of: dev, experimental, unstable, stable".to_owned(),
            ),
        )
    }
}

/// The port of the web view, which is not zero.
pub open spec fn webview_of(webview: Option<u16>) -> Result<Option<u16>, Refusal> {
    if webview == Some(0u16) {
        Err(bad("plugin webview port must be between 1 and 65535"@))
    } else {
        Ok(webview)
    }
}

/// What an outcome with a port stands for.
pub open spec fn port_outcome(out: Result<Option<u16>, PluginError>) -> Result<
    Option<u16>,
    Refusal,
> {
    match out {
        Ok(port) => Ok(port),
        Err(err) => Err(err@),
    }
}

/// The port of the web view, which is not zero.
pub fn normalize_webview_port(webview: Option<u16>) -> (out: Result<Option<u16>, PluginError>)
    ensures
        port_outcome(out) == webview_of(webview),
{
    match webview {
        Some(port) => {
            if port == 0 {
                Err(
                    PluginError::bad_request(
                        "plugin webview port must be between 1 and 65535".to_owned(),
                    ),
                )
            } else {
                Ok(Some(port))
            }
        },
        None => Ok(None),
    }
}

// ── Paths ────────────────────────────────────────────────────────────────────

/// Whether every part of a path is a name.
pub open spec fn all_names(parts: Seq<ComponentView>) -> bool {
    forall|i: int| 0 <= i < parts.len() ==> (#[trigger] parts[i]) is Normal
}

/// The names of the parts of a path.
pub open spec fn names(parts: Seq<ComponentView>) -> Seq<Seq<char>> {
    parts.map_values(|c: ComponentView| c->Normal_0)
}

/// The path of a file inside a plugin, in its plainest form: names with single
/// slashes between them.
pub open spec fn file_path_of(path: Seq<char>) -> Result<Seq<char>, Refusal> {
    if !all_names(components(path)) {
        Err(bad("plugin custom file path "@ + path + " is invalid"@))
    } else if components(path).len() == 0 {
        Err(bad("plugin custom file path must not be empty"@))
    } else {
        Ok(join(names(components(path)), "/"@))
    }
}

/// The names of the parts of a path, where all are names.
pub fn name_parts(path: &str) -> (out: Option<Vec<String>>)
    ensures
        out is Some <==> all_names(components(path@)),
        out matches Some(list) ==> views(list@) == names(components(path@)),
{
    let parts = path_components(path);
    let mut out: Vec<String> = Vec::new();
    let mut i: usize = 0;
    assert(views(out@) =~= names(component_views(parts@).take(0)));
    while i < parts.len()
        invariant
            i <= parts@.len(),
            component_views(parts@) == components(path@),
            forall|k: int| 0 <= k < i ==> (#[trigger] component_views(parts@)[k]) is Normal,
            views(out@) == names(component_views(parts@).take(i as int)),
        decreases parts@.len() - i,
    {
        assert(component_views(parts@)[i as int] == parts@[i as int]@);
        let ghost before = views(out@);
        match &parts[i] {
            Component::Normal(name) => {
                let name = name.clone();
                out.push(name);
                proof {
                    assert(views(out@) =~= before.push(name@));
                    assert(names(component_views(parts@).take(i + 1)) =~= before.push(name@));
                }
            },
            _ => {
                return None;
            },
        }
        i += 1;
    }
    assert(component_views(parts@).take(i as int) =~= components(path@));
    Some(out)
}

/// The path of a file inside a plugin, in its plainest form. It never leaves
/// the plugin: it has neither a root nor a `..`.
pub fn normalize_custom_file_path(path: &str) -> (out: Result<String, PluginError>)
    ensures
        text_outcome(out) == file_path_of(path@),
{
    match name_parts(path) {
        Some(list) => {
            if list.len() == 0 {
                assert(components(path@).len() == views(list@).len());
                return Err(
                    PluginError::bad_request(
                        "plugin custom file path must not be empty".to_owned(),
                    ),
                );
            }
            assert(components(path@).len() == views(list@).len());
            Ok(joined(&list, "/"))
        },
        None => Err(
            PluginError::bad_request(cat3("plugin custom file path ", path, " is invalid")),
        ),
    }
}

/// The extension of a path in small letters.
pub open spec fn lower_extension(path: Seq<char>) -> Option<Seq<char>> {
    match extension(path) {
        Some(text) => Some(lower(text)),
        None => None,
    }
}

/// The extension of a path in small letters.
fn lowercase_extension(path: &str) -> (out: Option<String>)
    ensures
        opt_view(out) == lower_extension(path@),
{
    match path_extension(path) {
        Some(text) => Some(lowercase(text.as_str())),
        None => None,
    }
}

/// The icon that a manifest names: a PNG or SVG file inside the plugin.
pub open spec fn icon_of(icon: Option<Seq<char>>) -> Result<Option<Seq<char>>, Refusal> {
    match filled(icon) {
        None => Ok(None),
        Some(text) => match file_path_of(text) {
            Err(_) => Err(bad("plugin icon path "@ + text + " is invalid"@)),
            Ok(path) => if lower_extension(path) == Some("png"@) || lower_extension(path)
                == Some("svg"@) {
                Ok(Some(path))
            } else {
                Err(bad("plugin icon "@ + text + " must be a .png or .svg file"@))
            },
        },
    }
}

/// The icon that a manifest names, relative to the directory that the plugin
/// runs in. Icons are expected to be 128x128 PNG or SVG.
pub fn normalize_icon_path(icon: Option<&str>) -> (out: Result<Option<String>, PluginError>)
    ensures
        opt_outcome(out) == icon_of(opt_str_view(icon)),
{
    let text = match filled_value(icon) {
        Some(text) => text,
        None => {
            return Ok(None);
        },
    };
    let path = match normalize_custom_file_path(text.as_str()) {
        Ok(path) => path,
        Err(_) => {
            return Err(
                PluginError::bad_request(cat3("plugin icon path ", text.as_str(), " is invalid")),
            );
        },
    };
    let known = match lowercase_extension(path.as_str()) {
        Some(ext) => same(ext.as_str(), "png") || same(ext.as_str(), "svg"),
        None => false,
    };
    if known {
        Ok(Some(path))
    } else {
        Err(
            PluginError::bad_request(
                cat3("plugin icon ", text.as_str(), " must be a .png or .svg file"),
            ),
        )
    }
}

/// The content type of an icon.
pub fn icon_content_type(relative_path: &str) -> (out: &'static str)
    ensures
        out@ == (if lower_extension(relative_path@) == Some("svg"@) {
            "image/svg+xml"@
        } else {
            "image/png"@
        }),
{
    match lowercase_extension(relative_path) {
        Some(ext) => {
            if same(ext.as_str(), "svg") {
                "image/svg+xml"
            } else {
                "image/png"
            }
        },
        None => "image/png",
    }
}

/// Whether a path has a `..`.
pub open spec fn has_parent(path: Seq<char>) -> bool {
    components(path).contains(ComponentView::ParentDir)
}

/// Whether a path has a `..`.
fn climbs(path: &str) -> (out: bool)
    ensures
        out == has_parent(path@),
{
    let parts = path_components(path);
    let mut i: usize = 0;
    while i < parts.len()
        invariant
            i <= parts@.len(),
            component_views(parts@) == components(path@),
            forall|k: int| 0 <= k < i ==> (#[trigger] components(path@)[k]) !is ParentDir,
        decreases parts@.len() - i,
    {
        assert(component_views(parts@)[i as int] == parts@[i as int]@);
        match &parts[i] {
            Component::ParentDir => {
                assert(components(path@)[i as int] == ComponentView::ParentDir);
                return true;
            },
            _ => {},
        }
        i += 1;
    }
    false
}

/// Where a plugin wants its binary linked: an absolute path without `..`.
pub open spec fn bin_path_of(bin_path: Option<Seq<char>>) -> Result<Option<Seq<char>>, Refusal> {
    match filled(bin_path) {
        None => Ok(None),
        Some(path) => if !is_absolute(path) {
            Err(bad("plugin bin_path must be an absolute path"@))
        } else if has_parent(path) {
            Err(bad("plugin bin_path must not contain parent-directory segments"@))
        } else {
            Ok(Some(path))
        },
    }
}

/// Where a plugin wants its binary linked.
pub fn normalize_bin_path(bin_path: Option<&str>) -> (out: Result<Option<String>, PluginError>)
    ensures
        opt_outcome(out) == bin_path_of(opt_str_view(bin_path)),
{
    let path = match filled_value(bin_path) {
        Some(path) => path,
        None => {
            return Ok(None);
        },
    };
    if !starts_with_slash(path.as_str()) {
        return Err(
            PluginError::bad_request("plugin bin_path must be an absolute path".to_owned()),
        );
    }
    if climbs(path.as_str()) {
        return Err(
            PluginError::bad_request(
                "plugin bin_path must not contain parent-directory segments".to_owned(),
            ),
        );
    }
    Ok(Some(path))
}

// ── Names ────────────────────────────────────────────────────────────────────

/// Whether a character may stand in the name of a plugin file.
pub open spec fn is_name_char(c: char) -> bool {
    is_alphanumeric(c) || c == '-' || c == '_' || c == '.'
}

/// Why a name is no name for a plugin file, if it is not.
pub open spec fn file_name_refusal(value: Seq<char>) -> Option<Refusal> {
    if value.len() == 0 {
        Some(bad("plugin filename must not be empty"@))
    } else if value.contains('/') || value.contains('\\') {
        Some(bad("plugin filename must not contain path separators"@))
    } else if value[0] == '.' {
        Some(bad("plugin filename must not start with a dot"@))
    } else if exists|i: int| 0 <= i < value.len() && !is_name_char(#[trigger] value[i]) {
        Some(bad("plugin filename must use only ASCII letters, numbers, ., _ or -"@))
    } else {
        None
    }
}

/// Accepts the names that a plugin file may have.
pub fn validate_file_name(value: &str) -> (out: Result<(), PluginError>)
    ensures
        match file_name_refusal(value@) {
            Some(refusal) => out matches Err(err) && err@ == refusal,
            None => out is Ok,
        },
{
    if value.is_empty() {
        return Err(PluginError::bad_request("plugin filename must not be empty".to_owned()));
    }
    if has_char(value, '/') || has_char(value, '\\') {
        return Err(
            PluginError::bad_request("plugin filename must not contain path separators".to_owned()),
        );
    }
    let cs = to_chars(value);
    if cs[0] == '.' {
        return Err(
            PluginError::bad_request("plugin filename must not start with a dot".to_owned()),
        );
    }
    let mut i: usize = 0;
    while i < cs.len()
        invariant
            i <= cs@.len(),
            cs@ == value@,
            value@.len() > 0,
            !value@.contains('/') && !value@.contains('\\'),
            value@[0] != '.',
            forall|k: int| 0 <= k < i ==> is_name_char(#[trigger] value@[k]),
        decreases cs@.len() - i,
    {
        let c = cs[i];
        if !(alphanumeric(c) || c == '-' || c == '_' || c == '.') {
            assert(!is_name_char(value@[i as int]));
            return Err(
                PluginError::bad_request(
                    "plugin filename must use only ASCII letters, numbers, ., _ or -".to_owned(),
                ),
            );
        }
        i += 1;
    }
    Ok(())
}

/// The name of the binary of a service: the name of its unit without the
/// `.service`.
pub open spec fn binary_name_of(service: Seq<char>) -> Result<Seq<char>, Refusal> {
    if !".service"@.is_suffix_of(service) {
        Err(bad("plugin service must end with .service"@))
    } else if components(service).len() != 1 {
        Err(bad("plugin service file must be a plain filename"@))
    } else {
        match file_stem(service) {
            None => Err(bad("plugin service name is invalid"@)),
            Some(stem) => match file_name_refusal(stem) {
                Some(refusal) => Err(refusal),
                None => Ok(stem),
            },
        }
    }
}

/// The name of the binary of a service.
pub fn derive_binary_name(service_name: &str) -> (out: Result<String, PluginError>)
    ensures
        text_outcome(out) == binary_name_of(service_name@),
{
    if !ends_with(service_name, ".service") {
        return Err(PluginError::bad_request("plugin service must end with .service".to_owned()));
    }
    let parts = path_components(service_name);
    assert(component_views(parts@).len() == parts@.len());
    if parts.len() != 1 {
        return Err(
            PluginError::bad_request("plugin service file must be a plain filename".to_owned()),
        );
    }
    let stem = match path_stem(service_name) {
        Some(stem) => stem,
        None => {
            return Err(PluginError::bad_request("plugin service name is invalid".to_owned()));
        },
    };
    match validate_file_name(stem.as_str()) {
        Ok(()) => Ok(stem),
        Err(err) => Err(err),
    }
}

// ── Manifest ─────────────────────────────────────────────────────────────────

/// Why a manifest is refused, if it is: the first thing that is wrong with it.
pub open spec fn manifest_refusal(m: ManifestView) -> Option<Refusal> {
    if trim(m.name).len() == 0 {
        Some(bad("plugin name must not be empty"@))
    } else if trim(m.description).len() == 0 {
        Some(bad("plugin description must not be empty"@))
    } else if trim(m.version).len() == 0 {
        Some(bad("plugin version must not be empty"@))
    } else if trim(m.developer).len() == 0 {
        Some(bad("plugin developer must not be empty"@))
    } else if channel_of(m.channel) is Err {
        Some(channel_of(m.channel)->Err_0)
    } else if webview_of(m.webview) is Err {
        Some(webview_of(m.webview)->Err_0)
    } else if icon_of(m.icon) is Err {
        Some(icon_of(m.icon)->Err_0)
    } else if bin_path_of(m.symlink) is Err {
        Some(bin_path_of(m.symlink)->Err_0)
    } else if binary_name_of(trim(m.service)) is Err {
        Some(binary_name_of(trim(m.service))->Err_0)
    } else {
        None
    }
}

/// Whether a text is blank.
fn blank(text: &String) -> (out: bool)
    ensures
        out == (trim(text@).len() == 0),
{
    trimmed(text.as_str()).as_str().is_empty()
}

/// Accepts the manifests of plugins.
pub fn validate_manifest(manifest: &PluginManifest) -> (out: Result<(), PluginError>)
    ensures
        match manifest_refusal(manifest@) {
            Some(refusal) => out matches Err(err) && err@ == refusal,
            None => out is Ok,
        },
{
    if blank(&manifest.name) {
        return Err(PluginError::bad_request("plugin name must not be empty".to_owned()));
    }
    if blank(&manifest.description) {
        return Err(PluginError::bad_request("plugin description must not be empty".to_owned()));
    }
    if blank(&manifest.version) {
        return Err(PluginError::bad_request("plugin version must not be empty".to_owned()));
    }
    if blank(&manifest.developer) {
        return Err(PluginError::bad_request("plugin developer must not be empty".to_owned()));
    }
    match normalize_channel(opt_as_str(&manifest.channel)) {
        Ok(_) => {},
        Err(err) => {
            return Err(err);
        },
    }
    match normalize_webview_port(manifest.webview) {
        Ok(_) => {},
        Err(err) => {
            return Err(err);
        },
    }
    match normalize_icon_path(opt_as_str(&manifest.icon)) {
        Ok(_) => {},
        Err(err) => {
            return Err(err);
        },
    }
    match normalize_bin_path(opt_as_str(&manifest.symlink)) {
        Ok(_) => {},
        Err(err) => {
            return Err(err);
        },
    }
    let service = trimmed(manifest.service.as_str());
    match derive_binary_name(service.as_str()) {
        Ok(_) => Ok(()),
        Err(err) => Err(err),
    }
}

// ── Laws ─────────────────────────────────────────────────────────────────────

/// A file path that was accepted stays inside the plugin: every part of it is a
/// plain name, and taking it up again changes nothing.
pub proof fn file_paths_stay_inside(path: Seq<char>)
    requires
        file_path_of(path) is Ok,
    ensures
        components(file_path_of(path)->Ok_0) == components(path),
        components(path).len() > 0,
        all_names(components(path)),
        !is_absolute(file_path_of(path)->Ok_0),
        !has_parent(file_path_of(path)->Ok_0),
        file_path_of(file_path_of(path)->Ok_0) == file_path_of(path),
{
    let parts = components(path);
    let list = names(parts);
    let plain = file_path_of(path)->Ok_0;
    lemma_component_names(path);
    assert forall|i: int| 0 <= i < list.len() implies is_plain_name(#[trigger] list[i]) by {
        assert(parts[i] is Normal);
    }
    lemma_components_of_names(list);
    assert(components(plain) =~= parts) by {
        assert forall|i: int| 0 <= i < parts.len() implies #[trigger] components(plain)[i]
            == parts[i] by {
            assert(parts[i] is Normal);
        }
    }
    if is_absolute(plain) {
        assert(components(plain)[0] == ComponentView::Root);
    }
    if has_parent(plain) {
        let k = choose|k: int| 0 <= k < parts.len() && parts[k] == ComponentView::ParentDir;
        assert(parts[k] is Normal);
    }
}

/// The icon of an accepted manifest lies inside the plugin, and taking it up
/// again changes nothing.
pub proof fn icons_stay_inside(icon: Option<Seq<char>>)
    requires
        icon_of(icon) matches Ok(Some(_)),
    ensures
        ({
            let path = icon_of(icon)->Ok_0->Some_0;
            &&& all_names(components(path))
            &&& components(path).len() > 0
            &&& !is_absolute(path)
            &&& !has_parent(path)
            &&& icon_of(Some(path)) == icon_of(icon)
        }),
{
    let text = filled(icon)->Some_0;
    let path = file_path_of(text)->Ok_0;
    file_paths_stay_inside(text);
    reveal_strlit("png");
    reveal_strlit("svg");
    trim_is_idempotent(icon->Some_0);
    lemma_icon_ends(text, path);
    lemma_trimmed(path);
}

/// An icon path begins and ends without white space.
proof fn lemma_icon_ends(text: Seq<char>, path: Seq<char>)
    requires
        text.len() > 0,
        !is_space(text[0]),
        file_path_of(text) == Ok::<Seq<char>, Refusal>(path),
        lower_extension(path) == Some("png"@) || lower_extension(path) == Some("svg"@),
    ensures
        path.len() > 0,
        !is_space(path[0]),
        !is_space(path.last()),
{
    reveal_strlit("png");
    reveal_strlit("svg");
    file_paths_stay_inside(text);
    let parts = components(text);
    let list = names(parts);
    lemma_component_names(text);
    assert(parts[0] is Normal);
    assert(parts[parts.len() - 1] is Normal);
    // The first name begins where the text begins.
    lemma_split_pieces(text, '/');
    lemma_first_index(text, '/');
    lemma_first_name(text);
    assert(list[0][0] == text[0]);
    lemma_join_ends(list, "/"@);
    assert(path[0] == list[0][0]);
    // The last name ends in the last letter of the extension.
    let name = list.last();
    assert(components(path) == parts);
    assert(file_name(path) == Some(name));
    let ext = extension(path)->Some_0;
    assert(lower(ext).len() == 3);
    let at = last_index(name, '.');
    lemma_last_index(name, '.');
    assert(ext == name.skip(at + 1));
    assert(ext[2] == name.last());
    assert(lower(ext)[2] == lower_char(ext[2]));
    assert(path.last() == name.last());
}

/// The first name of a path that is made of names begins where the path
/// begins.
proof fn lemma_first_name(path: Seq<char>)
    requires
        path.len() > 0,
        components(path).len() > 0,
        all_names(components(path)),
    ensures
        components(path)[0]->Normal_0.len() > 0,
        components(path)[0]->Normal_0[0] == path[0],
{
    let segments = split(path, '/');
    lemma_split_pieces(path, '/');
    lemma_first_index(path, '/');
    assert(components(path)[0] is Normal);
    assert(head_components(path) =~= Seq::<ComponentView>::empty()) by {
        if head_components(path).len() > 0 {
            assert(components(path)[0] == head_components(path)[0]);
        }
    }
    assert(path[0] != '/');
    let n = first_index(path, '/');
    assert(n > 0);
    let first = segments[0];
    assert(first == path.take(n));
    assert(first[0] == path[0]);
    lemma_filter_map_first(segments);
    assert(body_components(segments)[0] == segment_component(first)->Some_0);
    assert(components(path)[0] == body_components(segments)[0]);
}

proof fn lemma_filter_map_first(segments: Seq<Seq<char>>)
    requires
        segments.len() > 0,
        segment_component(segments[0]) is Some,
    ensures
        body_components(segments).len() > 0,
        body_components(segments)[0] == segment_component(
            segments[0],
        )->Some_0,
    decreases segments.len(),
{
    let rest = segments.drop_last();
    if segments.len() > 1 {
        assert(rest[0] == segments[0]);
        lemma_filter_map_first(rest);
    } else {
        assert(body_components(rest) =~= Seq::<ComponentView>::empty());
    }
}

proof fn lemma_join_ends(parts: Seq<Seq<char>>, sep: Seq<char>)
    requires
        parts.len() > 0,
        forall|i: int| 0 <= i < parts.len() ==> (#[trigger] parts[i]).len() > 0,
    ensures
        join(parts, sep).len() > 0,
        join(parts, sep)[0] == parts[0][0],
        join(parts, sep).last() == parts.last().last(),
    decreases parts.len(),
{
    assert(parts[0].len() > 0);
    assert(parts[parts.len() - 1].len() > 0);
    if parts.len() > 1 {
        let rest = parts.drop_last();
        assert forall|i: int| 0 <= i < rest.len() implies (#[trigger] rest[i]).len() > 0 by {
            assert(rest[i] == parts[i]);
        }
        lemma_join_ends(rest, sep);
    }
}

proof fn lemma_last_index(s: Seq<char>, c: char)
    ensures
        -1 <= last_index(s, c) < s.len(),
    decreases s.len(),
{
    if s.len() > 0 {
        lemma_last_index(s.drop_last(), c);
    }
}

/// A channel, a link path and an address of sources that were taken up once are
/// taken up unchanged again.
pub proof fn taking_up_twice_changes_nothing(
    channel: Option<Seq<char>>,
    bin_path: Option<Seq<char>>,
    url: Option<Seq<char>>,
)
    ensures
        channel_of(channel) matches Ok(c) ==> channel_of(c) == channel_of(channel),
        bin_path_of(bin_path) matches Ok(p) ==> bin_path_of(p) == bin_path_of(bin_path),
        filled(filled(url)) == filled(url),
{
    if let Ok(Some(c)) = channel_of(channel) {
        reveal_strlit("dev");
        reveal_strlit("experimental");
        reveal_strlit("unstable");
        reveal_strlit("stable");
        lemma_trimmed(c);
        assert(lower(c) =~= c);
    }
    if bin_path is Some {
        trim_is_idempotent(bin_path->Some_0);
    }
    if url is Some {
        trim_is_idempotent(url->Some_0);
    }
}

/// The binary of an accepted service has a plain name, so that files named
/// after it lie in the directory of the plugin.
pub proof fn binary_names_are_plain(service: Seq<char>)
    requires
        binary_name_of(service) is Ok,
    ensures
        ({
            let name = binary_name_of(service)->Ok_0;
            &&& name.len() > 0
            &&& name[0] != '.'
            &&& forall|i: int| 0 <= i < name.len() ==> is_name_char(#[trigger] name[i])
        }),
{
}

/// A path has a `..` if and only if one of the segments between its slashes is
/// `..`.
proof fn lemma_has_parent(path: Seq<char>)
    ensures
        has_parent(path) <==> split(path, '/').contains(".."@),
{
    reveal_strlit("..");
    reveal_strlit(".");
    let segments = split(path, '/');
    lemma_body_has_parent(segments);
    let head = head_components(path);
    let body = body_components(segments);
    let all = components(path);
    if has_parent(path) {
        let i = choose|i: int| 0 <= i < all.len() && all[i] == ComponentView::ParentDir;
        assert(i >= head.len());
        assert(body[i - head.len()] == all[i]);
        assert(body.contains(ComponentView::ParentDir));
    }
    if body.contains(ComponentView::ParentDir) {
        let i = choose|i: int| 0 <= i < body.len() && body[i] == ComponentView::ParentDir;
        assert(all[head.len() + i] == body[i]);
    }
}

proof fn lemma_body_has_parent(segments: Seq<Seq<char>>)
    ensures
        body_components(segments).contains(ComponentView::ParentDir) <==> segments.contains(".."@),
    decreases segments.len(),
{
    reveal_strlit("..");
    reveal_strlit(".");
    if segments.len() > 0 {
        let rest = segments.drop_last();
        let last = segments.last();
        lemma_body_has_parent(rest);
        let before = body_components(rest);
        let body = body_components(segments);
        if before.contains(ComponentView::ParentDir) {
            let i = choose|i: int| 0 <= i < before.len() && before[i] == ComponentView::ParentDir;
            assert(body[i] == before[i]);
        }
        if rest.contains(".."@) {
            let i = choose|i: int| 0 <= i < rest.len() && rest[i] == ".."@;
            assert(segments[i] == rest[i]);
        }
        if last == ".."@ {
            assert(segments[segments.len() - 1] == ".."@);
            assert(body.last() == ComponentView::ParentDir);
            assert(body[body.len() - 1] == ComponentView::ParentDir);
        }
        if segments.contains(".."@) && last != ".."@ {
            let i = choose|i: int| 0 <= i < segments.len() && segments[i] == ".."@;
            assert(rest[i] == segments[i]);
        }
        if body.contains(ComponentView::ParentDir) && last != ".."@ {
            let i = choose|i: int| 0 <= i < body.len() && body[i] == ComponentView::ParentDir;
            assert(i < before.len());
            assert(before[i] == body[i]);
        }
    } else {
        assert(body_components(segments) =~= Seq::<ComponentView>::empty());
    }
}

/// The link path that a manifest asks for is taken as it is, but for white space
/// around it: it is refused if it does not begin with a slash or has a segment
/// `..`. No link path, or a blank one, asks for no link.
pub proof fn link_paths_are_taken_as_they_are(path: Option<Seq<char>>)
    ensures
        path is None ==> bin_path_of(path) == Ok::<Option<Seq<char>>, Refusal>(None),
        path matches Some(text) ==> {
            let plain = trim(text);
            &&& plain.len() == 0 ==> bin_path_of(path) == Ok::<Option<Seq<char>>, Refusal>(None)
            &&& plain.len() > 0 ==> (bin_path_of(path) is Ok <==> plain[0] == '/' && !split(
                plain,
                '/',
            ).contains(".."@))
            &&& plain.len() > 0 && bin_path_of(path) is Ok ==> bin_path_of(path) == Ok::<
                Option<Seq<char>>,
                Refusal,
            >(Some(plain))
            &&& text.len() > 0 && text[0] == '/' && !is_space(text.last()) && !split(
                text,
                '/',
            ).contains(".."@) ==> bin_path_of(path) == Ok::<Option<Seq<char>>, Refusal>(Some(text))
        },
{
    if let Some(text) = path {
        lemma_has_parent(trim(text));
        if text.len() > 0 && text[0] == '/' && !is_space(text.last()) {
            lemma_trimmed(text);
        }
    }
}

/// A channel is one of four words, in letters of either case, and is taken up in
/// small letters; a web view has any port but zero.
pub proof fn channels_and_ports_are_taken_as_they_are(
    channel: Option<Seq<char>>,
    webview: Option<u16>,
)
    ensures
        channel is None ==> channel_of(channel) == Ok::<Option<Seq<char>>, Refusal>(None),
        channel matches Some(text) ==> {
            let small = lower(trim(text));
            &&& trim(text).len() == 0 ==> channel_of(channel) == Ok::<Option<Seq<char>>, Refusal>(
                None,
            )
            &&& trim(text).len() > 0 ==> (channel_of(channel) is Ok <==> small == "stable"@ || small
                == "unstable"@ || small == "experimental"@ || small == "dev"@)
            &&& trim(text).len() > 0 && channel_of(channel) is Ok ==> channel_of(channel) == Ok::<
                Option<Seq<char>>,
                Refusal,
            >(Some(small))
        },
        webview_of(webview) is Err <==> webview == Some(0u16),
        webview_of(webview) matches Ok(port) ==> port == webview,
{
}

/// The unit of a plugin is named after its binary: the unit `name.service` belongs
/// to the binary `name`, for every name that a plugin file may have.
pub proof fn units_are_named_after_their_binary(name: Seq<char>)
    requires
        name.len() > 0,
        name[0] != '.',
        forall|i: int| 0 <= i < name.len() ==> is_name_char(#[trigger] name[i]),
    ensures
        binary_name_of(name + ".service"@) == Ok::<Seq<char>, Refusal>(name),
{
    reveal_strlit(".service");
    reveal_strlit(".");
    reveal_strlit("..");
    let service = name + ".service"@;
    assert(!name.contains('/')) by {
        if name.contains('/') {
            let i = choose|i: int| 0 <= i < name.len() && name[i] == '/';
            assert(is_name_char(name[i]));
        }
    }
    assert(!name.contains('\\')) by {
        if name.contains('\\') {
            let i = choose|i: int| 0 <= i < name.len() && name[i] == '\\';
            assert(is_name_char(name[i]));
        }
    }
    assert(!service.contains('/')) by {
        if service.contains('/') {
            let i = choose|i: int| 0 <= i < service.len() && service[i] == '/';
            if i < name.len() {
                assert(name[i] == '/');
            } else {
                assert(".service"@[i - name.len()] == '/');
            }
        }
    }
    lemma_single_part(service);
    assert(".service"@.is_suffix_of(service)) by {
        assert(service.subrange(service.len() - 8, service.len() as int) =~= ".service"@);
    }
    let n = name.len() as int;
    assert forall|k: int| n < k < service.len() implies service[k] != '.' by {
        assert(service[k] == ".service"@[k - n]);
    }
    assert(service[n] == ".service"@[0]);
    lemma_last_index_is(service, '.', n);
    assert(service.take(n) =~= name);
    assert(file_stem(service) == Some(name));
}

/// A service whose unit does not end in `.service` has no binary, and the binary
/// of any other begins its unit.
pub proof fn binaries_begin_their_unit(service: Seq<char>)
    ensures
        binary_name_of(service) is Ok ==> ".service"@.is_suffix_of(service),
        binary_name_of(service) matches Ok(name) ==> file_name(service) matches Some(unit)
            && name.len() < unit.len() && unit.take(name.len() as int) == name && unit[
            name.len() as int] == '.',
{
    if let Ok(name) = binary_name_of(service) {
        reveal_strlit(".service");
        let unit = file_name(service)->Some_0;
        lemma_last_index(unit, '.');
        lemma_unit_has_a_dot(service);
        lemma_last_index_at(unit, '.');
    }
}

/// The last name of a service that has one ends in `.service`, and so has a dot
/// behind its first character.
proof fn lemma_unit_has_a_dot(service: Seq<char>)
    requires
        binary_name_of(service) is Ok,
    ensures
        file_name(service) is Some,
        last_index(file_name(service)->Some_0, '.') > 0,
{
    let unit = file_name(service)->Some_0;
    let name = binary_name_of(service)->Ok_0;
    if last_index(unit, '.') <= 0 {
        assert(name == unit);
        reveal_strlit(".service");
        reveal_strlit(".");
        reveal_strlit("..");
        // The unit has no dot at all: its first character is none.
        lemma_last_index_at(unit, '.');
        lemma_no_dot(unit);
        let segments = split(service, '/');
        lemma_split_pieces(service, '/');
        lemma_last_segment(service);
        let last = segments.last();
        lemma_last_part(segments);
        assert(components(service).last() == body_components(segments).last());
        assert(unit == last);
        let m = last.len() as int;
        assert(last[m - 8] == '.');
        assert(unit.contains('.'));
    }
}

proof fn lemma_no_dot(unit: Seq<char>)
    requires
        last_index(unit, '.') <= 0,
        unit.len() > 0,
        unit[0] != '.',
    ensures
        !unit.contains('.'),
    decreases unit.len(),
{
    if unit.contains('.') {
        let i = choose|i: int| 0 <= i < unit.len() && unit[i] == '.';
        lemma_last_index_from(unit, '.', i);
    }
}

proof fn lemma_last_index_from(s: Seq<char>, c: char, i: int)
    requires
        0 <= i < s.len(),
        s[i] == c,
    ensures
        last_index(s, c) >= i,
    decreases s.len(),
{
    if s.last() != c {
        lemma_last_index_from(s.drop_last(), c, i);
    }
}

proof fn lemma_last_index_at(s: Seq<char>, c: char)
    ensures
        -1 <= last_index(s, c) < s.len(),
        last_index(s, c) >= 0 ==> s[last_index(s, c)] == c,
    decreases s.len(),
{
    if s.len() > 0 && s.last() != c {
        lemma_last_index_at(s.drop_last(), c);
    }
}

/// The last segment of a text that ends in `.service` ends in `.service`.
proof fn lemma_last_segment(s: Seq<char>)
    requires
        ".service"@.is_suffix_of(s),
    ensures
        split(s, '/').len() > 0,
        split(s, '/').last().len() >= 8,
        ".service"@.is_suffix_of(split(s, '/').last()),
        split(s, '/').last()[split(s, '/').last().len() - 8] == '.',
    decreases s.len(),
{
    reveal_strlit(".service");
    lemma_first_index(s, '/');
    let n = first_index(s, '/');
    let e = ".service"@;
    assert(s.len() >= 8);
    assert(e =~= s.subrange(s.len() - 8, s.len() as int));
    if n < s.len() {
        if n >= s.len() - 8 {
            assert(s[n] == e[n - (s.len() - 8)]);
        }
        let rest = s.skip(n + 1);
        assert(e =~= rest.subrange(rest.len() - 8, rest.len() as int));
        lemma_last_segment(rest);
        assert(split(s, '/').last() == split(rest, '/').last());
    } else {
        assert(s[s.len() - 8] == e[0]);
    }
}

/// The last part of segments whose last is longer than two characters is that
/// segment.
proof fn lemma_last_part(segments: Seq<Seq<char>>)
    requires
        segments.len() > 0,
        segments.last().len() > 2,
    ensures
        body_components(segments).len() > 0,
        body_components(segments).last() == ComponentView::Normal(segments.last()),
{
    reveal_strlit(".");
    reveal_strlit("..");
    assert(segment_component(segments.last()) == Some(ComponentView::Normal(segments.last())));
}

/// A manifest is accepted if and only if it names the plugin, describes it, has a
/// version and a developer, and its channel, port, icon, link path and service
/// are good.
pub proof fn manifests_are_accepted_when_complete(m: ManifestView)
    ensures
        manifest_refusal(m) is None <==> {
            &&& trim(m.name).len() > 0
            &&& trim(m.description).len() > 0
            &&& trim(m.version).len() > 0
            &&& trim(m.developer).len() > 0
            &&& channel_of(m.channel) is Ok
            &&& m.webview != Some(0u16)
            &&& icon_of(m.icon) is Ok
            &&& bin_path_of(m.symlink) is Ok
            &&& binary_name_of(trim(m.service)) is Ok
        },
        manifest_refusal(m) matches Some(refusal) ==> refusal.status == 400,
{
}

/// An icon is a file inside the plugin whose name ends in `.png` or `.svg`, in
/// letters of either case; no icon, or a blank one, is none.
pub proof fn icons_are_pictures(icon: Option<Seq<char>>)
    ensures
        icon is None ==> icon_of(icon) == Ok::<Option<Seq<char>>, Refusal>(None),
        icon matches Some(text) ==> {
            &&& trim(text).len() == 0 ==> icon_of(icon) == Ok::<Option<Seq<char>>, Refusal>(None)
            &&& trim(text).len() > 0 ==> !(icon_of(icon) matches Ok(None))
            &&& trim(text).len() > 0 && file_path_of(trim(text)) is Err ==> icon_of(icon) is Err
        },
        icon_of(icon) matches Ok(Some(path)) ==> {
            &&& icon is Some
            &&& components(path) == components(trim(icon->Some_0))
            &&& extension(path) matches Some(e) && (lower(e) == "png"@ || lower(e) == "svg"@)
        },
{
    if let Ok(Some(_)) = icon_of(icon) {
        file_paths_stay_inside(trim(icon->Some_0));
    }
}

} // verus!
