//! Plugin packages: what a ZIP archive has to hold to be one.
use crate::digest::{hex_text, sha256, sha256_hex};
use crate::order::viewed;
use crate::paths::{
    components, is_plain_name, lemma_component_names, lemma_components_of_names, lemma_single_part,
};
use crate::plugins::archive::{
    read_zip_entries, zip_entries, ContentView, EntryContent, EntryView, ZipEntry,
};
use crate::plugins::error::{bad, text_outcome, PluginError, Refusal};
use crate::plugins::manifest::{
    all_names, bin_path_of, binary_name_of, derive_binary_name, icon_of,
    link_paths_are_taken_as_they_are, manifest_refusal, name_parts, names, normalize_bin_path,
    normalize_icon_path, validate_manifest, ManifestView, PluginManifest,
};
use crate::plugins::unit_file::bytes_outcome;
use crate::text::{
    cat2, cat3, cat4, cat5, digit, hex_byte, hex_digit, is_hex_digit, is_space, join, joined,
    lemma_trimmed, lower, lowercase, opt_as_str, opt_view, same, split, starts_with, to_chars, trim,
    trimmed, views,
};
use crate::utf8::{read_utf8, utf8_text};
use vstd::prelude::*;
use vstd::slice::slice_to_vec;

verus! {

// ── Types ────────────────────────────────────────────────────────────────────

/// A file that a package brings along, with its path inside the plugin.
#[derive(Debug)]
pub struct PluginPackageFile {
    pub relative_path: String,
    pub bytes: Vec<u8>,
}

/// What a file of a package stands for.
pub struct FileView {
    pub relative_path: Seq<char>,
    pub bytes: Seq<u8>,
}

impl View for PluginPackageFile {
    type V = FileView;

    open spec fn view(&self) -> FileView {
        FileView { relative_path: self.relative_path@, bytes: self.bytes@ }
    }
}

/// A package that can be installed.
#[derive(Debug)]
pub struct PluginPackage {
    pub manifest: PluginManifest,
    pub manifest_raw: String,
    pub id: String,
    pub binary_name: String,
    pub service_name: String,
    pub bin_path: Option<String>,
    pub sha256: String,
    pub binary_bytes: Vec<u8>,
    pub service_bytes: Vec<u8>,
    pub custom_files: Vec<PluginPackageFile>,
    pub signature_bytes: Option<Vec<u8>>,
}

/// What a package holds.
pub struct PackageView {
    pub manifest: ManifestView,
    pub manifest_raw: Seq<char>,
    pub id: Seq<char>,
    pub binary_name: Seq<char>,
    pub service_name: Seq<char>,
    pub bin_path: Option<Seq<char>>,
    pub sha256: Seq<char>,
    pub binary_bytes: Seq<u8>,
    pub service_bytes: Seq<u8>,
    pub custom_files: Seq<FileView>,
    pub signature_bytes: Option<Seq<u8>>,
}

/// Optional bytes.
pub open spec fn opt_bytes_view(bytes: Option<Vec<u8>>) -> Option<Seq<u8>> {
    match bytes {
        Some(bytes) => Some(bytes@),
        None => None,
    }
}

impl View for PluginPackage {
    type V = PackageView;

    open spec fn view(&self) -> PackageView {
        PackageView {
            manifest: self.manifest@,
            manifest_raw: self.manifest_raw@,
            id: self.id@,
            binary_name: self.binary_name@,
            service_name: self.service_name@,
            bin_path: opt_view(self.bin_path),
            sha256: self.sha256@,
            binary_bytes: self.binary_bytes@,
            service_bytes: self.service_bytes@,
            custom_files: viewed(self.custom_files@),
            signature_bytes: opt_bytes_view(self.signature_bytes),
        }
    }
}

// ── Checksums ────────────────────────────────────────────────────────────────

/// Whether a text is a SHA-256 digest in hexadecimal.
pub open spec fn is_sha256_text(value: Seq<char>) -> bool {
    value.len() == 64 && forall|i: int| 0 <= i < value.len() ==> is_hex_digit(#[trigger] value[i])
}

/// Accepts the texts of SHA-256 digests.
pub fn validate_sha256_text(value: &str) -> (out: Result<(), PluginError>)
    ensures
        out is Ok <==> is_sha256_text(value@),
        out matches Err(err) ==> err@ == bad(
            "plugin sha256 file must contain a 64-character hex digest"@,
        ),
{
    let cs = to_chars(value);
    let mut ok: bool = cs.len() == 64;
    let mut i: usize = 0;
    while i < cs.len()
        invariant
            i <= cs@.len(),
            cs@ == value@,
            ok <==> cs@.len() == 64 && forall|k: int|
                0 <= k < i ==> is_hex_digit(#[trigger] value@[k]),
        decreases cs@.len() - i,
    {
        if !hex_digit(cs[i]) {
            ok = false;
            assert(!is_hex_digit(value@[i as int]));
        }
        i += 1;
    }
    if ok {
        Ok(())
    } else {
        Err(
            PluginError::bad_request(
                "plugin sha256 file must contain a 64-character hex digest".to_owned(),
            ),
        )
    }
}

/// The refusal of bytes whose digest is not the expected one.
pub open spec fn mismatch(
    context: Seq<char>,
    expected: Seq<char>,
    actual: Seq<char>,
) -> Refusal {
    bad(context + " SHA-256 mismatch: expected "@ + expected + ", got "@ + actual)
}

/// Whether bytes have the digest `expected`, in letters of either case.
pub open spec fn has_digest(bytes: Seq<u8>, expected: Seq<char>) -> bool {
    hex_text(sha256(bytes)) == lower(expected)
}

/// Accepts bytes with the expected digest.
pub fn verify_sha256(bytes: &[u8], expected: &str, context: &str) -> (out: Result<(), PluginError>)
    ensures
        out is Ok <==> has_digest(bytes@, expected@),
        out matches Err(err) ==> err@ == mismatch(
            context@,
            expected@,
            hex_text(sha256(bytes@)),
        ),
{
    let actual = sha256_hex(bytes);
    check_digest(actual, expected, context)
}

/// Accepts the digest `actual` where it is the expected one.
pub fn check_digest(actual: String, expected: &str, context: &str) -> (out: Result<(), PluginError>)
    ensures
        out is Ok <==> actual@ == lower(expected@),
        out matches Err(err) ==> err@ == mismatch(context@, expected@, actual@),
{
    let normalized = lowercase(expected);
    if !same(actual.as_str(), normalized.as_str()) {
        let message = cat5(
            context,
            " SHA-256 mismatch: expected ",
            expected,
            ", got ",
            actual.as_str(),
        );
        return Err(PluginError::bad_request(message));
    }
    Ok(())
}

// ── Entries ──────────────────────────────────────────────────────────────────

/// The content of the entry with a name, if there is one.
pub open spec fn find_entry(entries: Seq<EntryView>, name: Seq<char>) -> Option<ContentView>
    decreases entries.len(),
{
    if entries.len() == 0 {
        None
    } else if entries[0].name == name {
        Some(entries[0].content)
    } else {
        find_entry(entries.skip(1), name)
    }
}

/// The index of the entry with a name.
fn entry_index(entries: &Vec<ZipEntry>, name: &str) -> (out: Option<usize>)
    ensures
        match out {
            Some(i) => i < entries@.len() && find_entry(viewed(entries@), name@) == Some(
                entries@[i as int].content@,
            ),
            None => find_entry(viewed(entries@), name@) is None,
        },
{
    let ghost all = viewed(entries@);
    let mut i: usize = 0;
    assert(all.skip(0) =~= all);
    while i < entries.len()
        invariant
            i <= entries@.len(),
            all == viewed(entries@),
            find_entry(all, name@) == find_entry(all.skip(i as int), name@),
        decreases entries@.len() - i,
    {
        assert(all.skip(i as int)[0] == entries@[i as int]@);
        if same(entries[i].name.as_str(), name) {
            return Some(i);
        }
        assert(all.skip(i as int).skip(1) =~= all.skip(i + 1));
        i += 1;
    }
    assert(all.skip(i as int) =~= Seq::<EntryView>::empty());
    None
}

/// Accepts the names of entries that are paths made of names: without a root,
/// without `..` and without a leading dot.
pub fn validate_zip_name(name: &str) -> (out: Result<(), PluginError>)
    ensures
        out is Ok <==> all_names(components(name@)),
        out matches Err(err) ==> err@ == invalid_path(name@),
{
    match name_parts(name) {
        Some(_) => Ok(()),
        None => Err(
            PluginError::bad_request(cat2("plugin package contains invalid path ", name)),
        ),
    }
}

/// The refusal of an entry with a name that is no plain path.
pub open spec fn invalid_path(name: Seq<char>) -> Refusal {
    bad("plugin package contains invalid path "@ + name)
}

/// The bytes of an entry that has to be there.
pub open spec fn required_bytes(entries: Seq<EntryView>, name: Seq<char>) -> Result<
    Seq<u8>,
    Refusal,
> {
    match find_entry(entries, name) {
        None | Some(ContentView::Closed(_)) => Err(bad("missing required plugin file "@ + name)),
        Some(content) => if !all_names(components(name)) {
            Err(invalid_path(name))
        } else {
            match content {
                ContentView::Bytes(bytes) => Ok(bytes),
                ContentView::Unreadable(err) => Err(
                    bad("read plugin file "@ + name + ": "@ + err),
                ),
                ContentView::Closed(err) => Err(bad(err)),
            }
        },
    }
}

/// The bytes of an entry that has to be there.
pub fn read_zip_entry_bytes(entries: &Vec<ZipEntry>, name: &str) -> (out: Result<
    Vec<u8>,
    PluginError,
>)
    ensures
        bytes_outcome(out) == required_bytes(viewed(entries@), name@),
{
    let index = match entry_index(entries, name) {
        Some(index) => index,
        None => {
            return Err(PluginError::bad_request(cat2("missing required plugin file ", name)));
        },
    };
    match &entries[index].content {
        EntryContent::Closed(_) => {
            return Err(PluginError::bad_request(cat2("missing required plugin file ", name)));
        },
        _ => {},
    }
    match validate_zip_name(name) {
        Ok(()) => {},
        Err(err) => {
            return Err(err);
        },
    }
    match &entries[index].content {
        EntryContent::Bytes(bytes) => Ok(slice_to_vec(bytes.as_slice())),
        EntryContent::Unreadable(err) => Err(
            PluginError::bad_request(cat4("read plugin file ", name, ": ", err.as_str())),
        ),
        EntryContent::Closed(err) => Err(PluginError::bad_request(err.clone())),
    }
}

/// The text of an entry that has to be there.
pub open spec fn required_text(entries: Seq<EntryView>, name: Seq<char>) -> Result<
    Seq<char>,
    Refusal,
> {
    match required_bytes(entries, name) {
        Err(refusal) => Err(refusal),
        Ok(bytes) => match utf8_text(bytes) {
            Ok(text) => Ok(text),
            Err(err) => Err(bad("plugin file "@ + name + " is not utf-8: "@ + err)),
        },
    }
}

/// The text of an entry that has to be there.
pub fn read_zip_entry_text(entries: &Vec<ZipEntry>, name: &str) -> (out: Result<
    String,
    PluginError,
>)
    ensures
        text_outcome(out) == required_text(viewed(entries@), name@),
{
    let bytes = match read_zip_entry_bytes(entries, name) {
        Ok(bytes) => bytes,
        Err(err) => {
            return Err(err);
        },
    };
    match read_utf8(bytes.as_slice()) {
        Ok(text) => Ok(text),
        Err(err) => Err(
            PluginError::bad_request(cat4("plugin file ", name, " is not utf-8: ", err.as_str())),
        ),
    }
}

/// The refusal of an optional entry that cannot be read.
pub open spec fn optional_refusal(name: Seq<char>, err: Seq<char>) -> Refusal {
    bad("read optional plugin file "@ + name + ": "@ + err)
}

/// The bytes of an entry that may be missing.
pub open spec fn optional_bytes(entries: Seq<EntryView>, name: Seq<char>) -> Result<
    Option<Seq<u8>>,
    Refusal,
> {
    match find_entry(entries, name) {
        None => Ok(None),
        Some(ContentView::Closed(err)) => Err(optional_refusal(name, err)),
        Some(content) => if !all_names(components(name)) {
            Err(invalid_path(name))
        } else {
            match content {
                ContentView::Bytes(bytes) => Ok(Some(bytes)),
                ContentView::Unreadable(err) => Err(optional_refusal(name, err)),
                ContentView::Closed(err) => Err(optional_refusal(name, err)),
            }
        },
    }
}

/// What an outcome with optional bytes stands for.
pub open spec fn opt_bytes_outcome(out: Result<Option<Vec<u8>>, PluginError>) -> Result<
    Option<Seq<u8>>,
    Refusal,
> {
    match out {
        Ok(bytes) => Ok(opt_bytes_view(bytes)),
        Err(err) => Err(err@),
    }
}

/// The bytes of an entry that may be missing.
pub fn read_optional_zip_entry_bytes(entries: &Vec<ZipEntry>, name: &str) -> (out: Result<
    Option<Vec<u8>>,
    PluginError,
>)
    ensures
        opt_bytes_outcome(out) == optional_bytes(viewed(entries@), name@),
{
    let index = match entry_index(entries, name) {
        Some(index) => index,
        None => {
            return Ok(None);
        },
    };
    match &entries[index].content {
        EntryContent::Closed(err) => {
            return Err(
                PluginError::bad_request(
                    cat4("read optional plugin file ", name, ": ", err.as_str()),
                ),
            );
        },
        _ => {},
    }
    match validate_zip_name(name) {
        Ok(()) => {},
        Err(err) => {
            return Err(err);
        },
    }
    match &entries[index].content {
        EntryContent::Bytes(bytes) => Ok(Some(slice_to_vec(bytes.as_slice()))),
        EntryContent::Unreadable(err) => Err(
            PluginError::bad_request(cat4("read optional plugin file ", name, ": ", err.as_str())),
        ),
        EntryContent::Closed(err) => Err(
            PluginError::bad_request(cat4("read optional plugin file ", name, ": ", err.as_str())),
        ),
    }
}

/// The signature of a package: the `.sig` entry, or the older `.sign` one.
pub open spec fn signature_of(entries: Seq<EntryView>, binary_name: Seq<char>) -> Result<
    Option<Seq<u8>>,
    Refusal,
> {
    match optional_bytes(entries, binary_name + ".sig"@) {
        Err(refusal) => Err(refusal),
        Ok(Some(bytes)) => Ok(Some(bytes)),
        Ok(None) => optional_bytes(entries, binary_name + ".sign"@),
    }
}

/// The signature of a package.
pub fn read_optional_signature_bytes(entries: &Vec<ZipEntry>, binary_name: &str) -> (out: Result<
    Option<Vec<u8>>,
    PluginError,
>)
    ensures
        opt_bytes_outcome(out) == signature_of(viewed(entries@), binary_name@),
{
    let name = cat2(binary_name, ".sig");
    match read_optional_zip_entry_bytes(entries, name.as_str()) {
        Ok(Some(bytes)) => Ok(Some(bytes)),
        Ok(None) => {
            let legacy = cat2(binary_name, ".sign");
            read_optional_zip_entry_bytes(entries, legacy.as_str())
        },
        Err(err) => Err(err),
    }
}

// ── Custom files ─────────────────────────────────────────────────────────────

/// Whether the name of an entry is that of a directory.
pub open spec fn is_directory(name: Seq<char>) -> bool {
    name.len() > 0 && (name.last() == '/' || name.last() == '\\')
}

/// Whether the name of an entry is that of a directory.
fn names_directory(name: &str) -> (out: bool)
    ensures
        out == is_directory(name@),
{
    let cs = to_chars(name);
    cs.len() > 0 && (cs[cs.len() - 1] == '/' || cs[cs.len() - 1] == '\\')
}

/// Whether the files of a list have the path `path` among them.
pub open spec fn has_path(files: Seq<FileView>, path: Seq<char>) -> bool {
    exists|i: int| 0 <= i < files.len() && (#[trigger] files[i]).relative_path == path
}

/// Whether the files of a list have the path `path` among them.
fn lists_path(files: &Vec<PluginPackageFile>, path: &str) -> (out: bool)
    ensures
        out == has_path(viewed(files@), path@),
{
    let ghost all = viewed(files@);
    let mut i: usize = 0;
    while i < files.len()
        invariant
            i <= files@.len(),
            all == viewed(files@),
            forall|k: int| 0 <= k < i ==> (#[trigger] all[k]).relative_path != path@,
        decreases files@.len() - i,
    {
        assert(all[i as int] == files@[i as int]@);
        if same(files[i].relative_path.as_str(), path) {
            return true;
        }
        i += 1;
    }
    false
}

/// The custom files of a package, one entry on: an entry below `files/` is one,
/// unless it is a directory. It may neither take the place of the binary nor
/// come twice.
pub open spec fn custom_step(
    files: Seq<FileView>,
    entry: EntryView,
    binary_name: Seq<char>,
) -> Result<Seq<FileView>, Refusal> {
    let parts = components(entry.name);
    let path = join(names(parts.skip(1)), "/"@);
    if let ContentView::Closed(err) = entry.content {
        Err(bad("read plugin archive entry: "@ + err))
    } else if !all_names(parts) {
        Err(invalid_path(entry.name))
    } else if !"files/"@.is_prefix_of(entry.name) || is_directory(entry.name) {
        Ok(files)
    } else if parts.len() <= 1 {
        Err(bad("plugin custom file path must not be empty"@))
    } else if path == binary_name {
        Err(bad("custom plugin file "@ + path + " conflicts with the plugin binary"@))
    } else if has_path(files, path) {
        Err(bad("plugin package contains duplicate custom file "@ + path))
    } else {
        match entry.content {
            ContentView::Bytes(bytes) => Ok(
                files.push(FileView { relative_path: path, bytes }),
            ),
            ContentView::Unreadable(err) => Err(
                bad("read custom plugin file "@ + path + ": "@ + err),
            ),
            ContentView::Closed(err) => Err(bad(err)),
        }
    }
}

/// The custom files of a package, in its order.
pub open spec fn custom_files_of(entries: Seq<EntryView>, binary_name: Seq<char>) -> Result<
    Seq<FileView>,
    Refusal,
>
    decreases entries.len(),
{
    if entries.len() == 0 {
        Ok(Seq::empty())
    } else {
        match custom_files_of(entries.drop_last(), binary_name) {
            Err(refusal) => Err(refusal),
            Ok(files) => custom_step(files, entries.last(), binary_name),
        }
    }
}

/// What an outcome with files stands for.
pub open spec fn files_outcome(out: Result<Vec<PluginPackageFile>, PluginError>) -> Result<
    Seq<FileView>,
    Refusal,
> {
    match out {
        Ok(files) => Ok(viewed(files@)),
        Err(err) => Err(err@),
    }
}

/// The list without its first text.
fn tail(list: &Vec<String>) -> (out: Vec<String>)
    requires
        list@.len() > 0,
    ensures
        views(out@) == views(list@).skip(1),
{
    let mut out: Vec<String> = Vec::new();
    let mut i: usize = 1;
    while i < list.len()
        invariant
            1 <= i <= list@.len(),
            views(out@) == views(list@).subrange(1, i as int),
        decreases list@.len() - i,
    {
        let ghost before = views(out@);
        out.push(list[i].clone());
        proof {
            assert(views(out@) =~= before.push(list@[i as int]@));
            assert(views(list@).subrange(1, i + 1) =~= before.push(views(list@)[i as int]));
        }
        i += 1;
    }
    assert(views(list@).subrange(1, i as int) =~= views(list@).skip(1));
    out
}

/// One entry taken up into the custom files of a package.
fn take_custom_entry(
    files: &mut Vec<PluginPackageFile>,
    entry: &ZipEntry,
    binary_name: &str,
) -> (out: Result<(), PluginError>)
    ensures
        match out {
            Ok(()) => custom_step(viewed(old(files)@), entry@, binary_name@) == Ok::<
                Seq<FileView>,
                Refusal,
            >(viewed(final(files)@)),
            Err(err) => custom_step(viewed(old(files)@), entry@, binary_name@) == Err::<
                Seq<FileView>,
                Refusal,
            >(err@),
        },
{
    match &entry.content {
        EntryContent::Closed(err) => {
            return Err(
                PluginError::bad_request(cat2("read plugin archive entry: ", err.as_str())),
            );
        },
        _ => {},
    }
    let list = match name_parts(entry.name.as_str()) {
        Some(list) => list,
        None => {
            return Err(
                PluginError::bad_request(
                    cat2("plugin package contains invalid path ", entry.name.as_str()),
                ),
            );
        },
    };
    if !starts_with(entry.name.as_str(), "files/") || names_directory(entry.name.as_str()) {
        return Ok(());
    }
    assert(views(list@).len() == components(entry.name@).len());
    if list.len() <= 1 {
        return Err(
            PluginError::bad_request("plugin custom file path must not be empty".to_owned()),
        );
    }
    let rest = tail(&list);
    assert(names(components(entry.name@)).skip(1) =~= names(components(entry.name@).skip(1)));
    let path = joined(&rest, "/");
    if same(path.as_str(), binary_name) {
        return Err(
            PluginError::bad_request(
                cat3("custom plugin file ", path.as_str(), " conflicts with the plugin binary"),
            ),
        );
    }
    if lists_path(files, path.as_str()) {
        return Err(
            PluginError::bad_request(
                cat2("plugin package contains duplicate custom file ", path.as_str()),
            ),
        );
    }
    match &entry.content {
        EntryContent::Bytes(bytes) => {
            let ghost before = viewed(files@);
            let file = PluginPackageFile {
                relative_path: path,
                bytes: slice_to_vec(bytes.as_slice()),
            };
            files.push(file);
            assert(viewed(files@) =~= before.push(file@));
            Ok(())
        },
        EntryContent::Unreadable(err) => Err(
            PluginError::bad_request(
                cat4("read custom plugin file ", path.as_str(), ": ", err.as_str()),
            ),
        ),
        EntryContent::Closed(err) => Err(PluginError::bad_request(err.clone())),
    }
}

/// The custom files of a package, in its order.
pub fn read_custom_files(entries: &Vec<ZipEntry>, binary_name: &str) -> (out: Result<
    Vec<PluginPackageFile>,
    PluginError,
>)
    ensures
        files_outcome(out) == custom_files_of(viewed(entries@), binary_name@),
{
    let ghost all = viewed(entries@);
    let mut files: Vec<PluginPackageFile> = Vec::new();
    let mut i: usize = 0;
    proof {
        assert(all.take(0) =~= Seq::<EntryView>::empty());
        assert(viewed(files@) =~= Seq::<FileView>::empty());
    }
    while i < entries.len()
        invariant
            i <= entries@.len(),
            all == viewed(entries@),
            custom_files_of(all.take(i as int), binary_name@) == Ok::<Seq<FileView>, Refusal>(
                viewed(files@),
            ),
        decreases entries@.len() - i,
    {
        proof {
            let t = all.take(i + 1);
            assert(t.drop_last() =~= all.take(i as int));
            assert(t.last() == entries@[i as int]@);
        }
        match take_custom_entry(&mut files, &entries[i], binary_name) {
            Ok(()) => {},
            Err(err) => {
                proof {
                    lemma_refusals_last(all, i + 1, binary_name@);
                }
                return Err(err);
            },
        }
        i += 1;
    }
    assert(all.take(i as int) =~= all);
    Ok(files)
}

/// A refusal on a part of the entries stands for all of them.
proof fn lemma_refusals_last(entries: Seq<EntryView>, n: int, binary_name: Seq<char>)
    requires
        0 <= n <= entries.len(),
        custom_files_of(entries.take(n), binary_name) is Err,
    ensures
        custom_files_of(entries, binary_name) == custom_files_of(entries.take(n), binary_name),
    decreases entries.len() - n,
{
    if n < entries.len() {
        assert(entries.take(n + 1).drop_last() =~= entries.take(n));
        lemma_refusals_last(entries, n + 1, binary_name);
    } else {
        assert(entries.take(n) =~= entries);
    }
}

// ── Packages ─────────────────────────────────────────────────────────────────

/// The name of the entry with the manifest.
pub open spec fn manifest_name() -> Seq<char> {
    "kaonic-plugin.toml"@
}

/// The name of the file with the manifest, in a package and on disk.
pub fn manifest_file_name() -> (out: &'static str)
    ensures
        out@ == manifest_name(),
{
    "kaonic-plugin.toml"
}

/// The checksum that a package states for its binary.
pub open spec fn stated_sha256(entries: Seq<EntryView>, binary_name: Seq<char>) -> Result<
    Seq<char>,
    Refusal,
> {
    match required_text(entries, binary_name + ".sha256"@) {
        Err(refusal) => Err(refusal),
        Ok(text) => if is_sha256_text(trim(text)) {
            Ok(trim(text))
        } else {
            Err(bad("plugin sha256 file must contain a 64-character hex digest"@))
        },
    }
}

/// The refusal of a package without the icon that its manifest names.
pub open spec fn icon_refusal(icon: Option<Seq<char>>, files: Seq<FileView>) -> Option<Refusal> {
    match icon {
        Some(path) => if has_path(files, path) {
            None
        } else {
            Some(
                bad(
                    "plugin manifest declares icon "@ + path
                        + " but the package has no files/"@ + path + " entry"@,
                ),
            )
        },
        None => None,
    }
}

/// What the entries of an archive make up as a package, or the first thing that
/// is wrong with them. `manifest` is what the text of the manifest entry reads
/// as, or why it does not.
pub open spec fn package_of(
    entries: Seq<EntryView>,
    manifest: Result<ManifestView, Seq<char>>,
) -> Result<PackageView, Refusal> {
    match (required_text(entries, manifest_name()), manifest) {
        (Err(refusal), _) => Err(refusal),
        (Ok(_), Err(err)) => Err(bad("bad plugin manifest: "@ + err)),
        (Ok(raw), Ok(m)) => match manifest_refusal(m) {
            Some(refusal) => Err(refusal),
            None => package_of_manifest(entries, raw, m),
        },
    }
}

/// What the entries of an archive make up as a package whose manifest is
/// accepted.
pub open spec fn package_of_manifest(
    entries: Seq<EntryView>,
    raw: Seq<char>,
    m: ManifestView,
) -> Result<PackageView, Refusal> {
    let service = trim(m.service);
    let binary = binary_name_of(service)->Ok_0;
    let icon = icon_of(m.icon)->Ok_0;
    match (
        required_bytes(entries, service),
        required_bytes(entries, binary),
        stated_sha256(entries, binary),
        custom_files_of(entries, binary),
        signature_of(entries, binary),
    ) {
        (Err(refusal), _, _, _, _) => Err(refusal),
        (_, Err(refusal), _, _, _) => Err(refusal),
        (_, _, Err(refusal), _, _) => Err(refusal),
        (Ok(service_bytes), Ok(bytes), Ok(sum), files, signature) => if !has_digest(bytes, sum) {
            Err(mismatch("plugin package binary"@, sum, hex_text(sha256(bytes))))
        } else {
            match (files, signature) {
                (Err(refusal), _) => Err(refusal),
                (Ok(files), signature) => match (icon_refusal(icon, files), signature) {
                    (Some(refusal), _) => Err(refusal),
                    (None, Err(refusal)) => Err(refusal),
                    (None, Ok(signature)) => Ok(
                        PackageView {
                            manifest: m,
                            manifest_raw: raw,
                            id: binary,
                            binary_name: binary,
                            service_name: service,
                            bin_path: bin_path_of(m.symlink)->Ok_0,
                            sha256: sum,
                            binary_bytes: bytes,
                            service_bytes,
                            custom_files: files,
                            signature_bytes: signature,
                        },
                    ),
                },
            }
        },
    }
}

/// What an outcome with a package stands for.
pub open spec fn package_outcome(out: Result<PluginPackage, PluginError>) -> Result<
    PackageView,
    Refusal,
> {
    match out {
        Ok(package) => Ok(package@),
        Err(err) => Err(err@),
    }
}

/// What a reading of a manifest stands for.
pub open spec fn manifest_outcome(out: Result<PluginManifest, String>) -> Result<
    ManifestView,
    Seq<char>,
> {
    match out {
        Ok(manifest) => Ok(manifest@),
        Err(err) => Err(err@),
    }
}

/// The checksum that a package states for its binary.
pub fn read_stated_sha256(entries: &Vec<ZipEntry>, binary_name: &str) -> (out: Result<
    String,
    PluginError,
>)
    ensures
        text_outcome(out) == stated_sha256(viewed(entries@), binary_name@),
{
    let name = cat2(binary_name, ".sha256");
    let text = match read_zip_entry_text(entries, name.as_str()) {
        Ok(text) => text,
        Err(err) => {
            return Err(err);
        },
    };
    checksum_of_text(text.as_str())
}

/// The checksum in the text of a checksum file.
pub fn checksum_of_text(text: &str) -> (out: Result<String, PluginError>)
    ensures
        text_outcome(out) == (if is_sha256_text(trim(text@)) {
            Ok::<Seq<char>, Refusal>(trim(text@))
        } else {
            Err(bad("plugin sha256 file must contain a 64-character hex digest"@))
        }),
{
    let sum = trimmed(text);
    match validate_sha256_text(sum.as_str()) {
        Ok(()) => Ok(sum),
        Err(err) => Err(err),
    }
}

/// Accepts the files of a package that has the icon its manifest names.
pub fn ensure_icon_present(icon: &Option<String>, files: &Vec<PluginPackageFile>) -> (out: Result<
    (),
    PluginError,
>)
    ensures
        match icon_refusal(opt_view(*icon), viewed(files@)) {
            Some(refusal) => out matches Err(err) && err@ == refusal,
            None => out is Ok,
        },
{
    match icon {
        Some(path) => {
            if lists_path(files, path.as_str()) {
                return Ok(());
            }
            let head = cat3(
                "plugin manifest declares icon ",
                path.as_str(),
                " but the package has no files/",
            );
            Err(PluginError::bad_request(cat3(head.as_str(), path.as_str(), " entry")))
        },
        None => Ok(()),
    }
}

/// What the entries of an archive make up as a package.
pub fn parse_package_entries(
    entries: &Vec<ZipEntry>,
    manifest: Result<PluginManifest, String>,
) -> (out: Result<PluginPackage, PluginError>)
    ensures
        package_outcome(out) == package_of(viewed(entries@), manifest_outcome(manifest)),
{
    let manifest_raw = match read_zip_entry_text(entries, manifest_file_name()) {
        Ok(text) => text,
        Err(err) => {
            return Err(err);
        },
    };
    let manifest = match manifest {
        Ok(manifest) => manifest,
        Err(err) => {
            return Err(PluginError::bad_request(cat2("bad plugin manifest: ", err.as_str())));
        },
    };
    match validate_manifest(&manifest) {
        Ok(()) => {},
        Err(err) => {
            return Err(err);
        },
    }
    let service_name = trimmed(manifest.service.as_str());
    let binary_name = match derive_binary_name(service_name.as_str()) {
        Ok(name) => name,
        Err(err) => {
            return Err(err);
        },
    };
    let bin_path = match normalize_bin_path(opt_as_str(&manifest.symlink)) {
        Ok(path) => path,
        Err(err) => {
            return Err(err);
        },
    };
    let service_bytes = match read_zip_entry_bytes(entries, service_name.as_str()) {
        Ok(bytes) => bytes,
        Err(err) => {
            return Err(err);
        },
    };
    let binary_bytes = match read_zip_entry_bytes(entries, binary_name.as_str()) {
        Ok(bytes) => bytes,
        Err(err) => {
            return Err(err);
        },
    };
    let sum = match read_stated_sha256(entries, binary_name.as_str()) {
        Ok(sum) => sum,
        Err(err) => {
            return Err(err);
        },
    };
    match verify_sha256(binary_bytes.as_slice(), sum.as_str(), "plugin package binary") {
        Ok(()) => {},
        Err(err) => {
            return Err(err);
        },
    }
    let custom_files = match read_custom_files(entries, binary_name.as_str()) {
        Ok(files) => files,
        Err(err) => {
            return Err(err);
        },
    };
    let icon = match normalize_icon_path(opt_as_str(&manifest.icon)) {
        Ok(icon) => icon,
        Err(err) => {
            return Err(err);
        },
    };
    match ensure_icon_present(&icon, &custom_files) {
        Ok(()) => {},
        Err(err) => {
            return Err(err);
        },
    }
    let signature_bytes = match read_optional_signature_bytes(entries, binary_name.as_str()) {
        Ok(bytes) => bytes,
        Err(err) => {
            return Err(err);
        },
    };
    Ok(
        PluginPackage {
            manifest,
            manifest_raw,
            id: binary_name.clone(),
            binary_name,
            service_name,
            bin_path,
            sha256: sum,
            binary_bytes,
            service_bytes,
            custom_files,
            signature_bytes,
        },
    )
}

/// The text of the manifest in an archive.
pub fn read_package_manifest(zip_bytes: &[u8]) -> (out: Result<String, PluginError>)
    ensures
        text_outcome(out) == (match zip_entries(zip_bytes@) {
            Ok(entries) => required_text(entries, manifest_name()),
            Err(err) => Err(bad("bad plugin ZIP: "@ + err)),
        }),
{
    match read_zip_entries(zip_bytes) {
        Ok(entries) => read_zip_entry_text(&entries, manifest_file_name()),
        Err(err) => Err(PluginError::bad_request(cat2("bad plugin ZIP: ", err.as_str()))),
    }
}

/// The package in an archive. `manifest` is what the text of its manifest reads
/// as, or why it does not.
pub fn parse_plugin_package(
    zip_bytes: &[u8],
    manifest: Result<PluginManifest, String>,
) -> (out: Result<PluginPackage, PluginError>)
    ensures
        package_outcome(out) == (match zip_entries(zip_bytes@) {
            Ok(entries) => package_of(entries, manifest_outcome(manifest)),
            Err(err) => Err(bad("bad plugin ZIP: "@ + err)),
        }),
{
    match read_zip_entries(zip_bytes) {
        Ok(entries) => parse_package_entries(&entries, manifest),
        Err(err) => Err(PluginError::bad_request(cat2("bad plugin ZIP: ", err.as_str()))),
    }
}

// ── Laws ─────────────────────────────────────────────────────────────────────

/// The files that a package brings along: no path comes twice, none is that of
/// the binary, and none leaves the directory that they are put into.
pub open spec fn files_fit(files: Seq<FileView>, binary_name: Seq<char>) -> bool {
    &&& forall|i: int, j: int|
        0 <= i < j < files.len() ==> (#[trigger] files[i]).relative_path != (
        #[trigger] files[j]).relative_path
    &&& forall|i: int|
        0 <= i < files.len() ==> (#[trigger] files[i]).relative_path != binary_name
            && all_names(components(files[i].relative_path)) && components(
            files[i].relative_path,
        ).len() > 0
}

/// The custom files of an archive fit beside its binary.
pub proof fn custom_files_fit(entries: Seq<EntryView>, binary_name: Seq<char>)
    ensures
        custom_files_of(entries, binary_name) matches Ok(files) ==> files_fit(files, binary_name),
    decreases entries.len(),
{
    if entries.len() > 0 {
        custom_files_fit(entries.drop_last(), binary_name);
        if let Ok(files) = custom_files_of(entries.drop_last(), binary_name) {
            let entry = entries.last();
            let parts = components(entry.name);
            let rest = parts.skip(1);
            if all_names(parts) && parts.len() > 1 {
                lemma_component_names(entry.name);
                let list = names(rest);
                assert forall|i: int| 0 <= i < list.len() implies is_plain_name(
                    #[trigger] list[i],
                ) by {
                    assert(parts[i + 1] is Normal);
                }
                lemma_components_of_names(list);
            }
        }
    }
}

/// An accepted package: its binary has the checksum that the package states,
/// its files fit beside the binary, and the icon that the manifest names is
/// among them.
pub proof fn packages_are_sound(
    entries: Seq<EntryView>,
    manifest: Result<ManifestView, Seq<char>>,
)
    ensures
        package_of(entries, manifest) matches Ok(p) ==> {
            &&& has_digest(p.binary_bytes, p.sha256)
            &&& is_sha256_text(p.sha256)
            &&& manifest_refusal(p.manifest) is None
            &&& files_fit(p.custom_files, p.binary_name)
            &&& icon_of(p.manifest.icon) matches Ok(Some(icon)) ==> has_path(p.custom_files, icon)
        },
{
    if let Ok(m) = manifest {
        custom_files_fit(entries, binary_name_of(trim(m.service))->Ok_0);
    }
}

/// Whether the first entry with a name holds `bytes`.
pub open spec fn holds_file(entries: Seq<EntryView>, name: Seq<char>, bytes: Seq<u8>) -> bool {
    exists|i: int|
        0 <= i < entries.len() && is_first(entries, i) && (#[trigger] entries[i]).name == name
            && entries[i].content == ContentView::Bytes(bytes)
}

/// Whether no entry before the one at `i` has its name.
pub open spec fn is_first(entries: Seq<EntryView>, i: int) -> bool {
    forall|k: int| 0 <= k < i ==> (#[trigger] entries[k]).name != entries[i].name
}

/// Whether some entry has a name.
pub open spec fn names_entry(entries: Seq<EntryView>, name: Seq<char>) -> bool {
    exists|i: int| 0 <= i < entries.len() && (#[trigger] entries[i]).name == name
}

/// What is found under a name is the content of the first entry with it.
proof fn lemma_find_entry(entries: Seq<EntryView>, name: Seq<char>)
    ensures
        find_entry(entries, name) is None <==> !names_entry(entries, name),
        find_entry(entries, name) matches Some(content) ==> exists|i: int|
            0 <= i < entries.len() && is_first(entries, i) && (#[trigger] entries[i]).name == name
                && entries[i].content == content,
        forall|bytes: Seq<u8>|
            find_entry(entries, name) == Some(ContentView::Bytes(bytes)) <==> #[trigger] holds_file(
                entries,
                name,
                bytes,
            ),
    decreases entries.len(),
{
    if entries.len() > 0 {
        let rest = entries.skip(1);
        if entries[0].name == name {
            assert(is_first(entries, 0));
            assert(names_entry(entries, name));
            assert forall|bytes: Seq<u8>|
                find_entry(entries, name) == Some(ContentView::Bytes(bytes)) <==> #[trigger] holds_file(
                    entries,
                    name,
                    bytes,
                ) by {
                if holds_file(entries, name, bytes) {
                    let i = choose|i: int|
                        0 <= i < entries.len() && is_first(entries, i) && (
                        #[trigger] entries[i]).name == name && entries[i].content
                            == ContentView::Bytes(bytes);
                    if i > 0 {
                        assert(entries[0].name != entries[i].name);
                    }
                }
            }
        } else {
            lemma_find_entry(rest, name);
            if names_entry(rest, name) {
                let i = choose|i: int| 0 <= i < rest.len() && (#[trigger] rest[i]).name == name;
                assert(entries[i + 1] == rest[i]);
            }
            if names_entry(entries, name) {
                let i = choose|i: int|
                    0 <= i < entries.len() && (#[trigger] entries[i]).name == name;
                assert(rest[i - 1] == entries[i]);
            }
            if let Some(content) = find_entry(entries, name) {
                let i = choose|i: int|
                    0 <= i < rest.len() && is_first(rest, i) && (#[trigger] rest[i]).name == name
                        && rest[i].content == content;
                assert(entries[i + 1] == rest[i]);
                assert(is_first(entries, i + 1)) by {
                    assert forall|k: int| 0 <= k < i + 1 implies (#[trigger] entries[k]).name
                        != entries[i + 1].name by {
                        if k > 0 {
                            assert(rest[k - 1] == entries[k]);
                        }
                    }
                }
            }
            assert forall|bytes: Seq<u8>|
                find_entry(entries, name) == Some(ContentView::Bytes(bytes)) <==> #[trigger] holds_file(
                    entries,
                    name,
                    bytes,
                ) by {
                assert(find_entry(rest, name) == Some(ContentView::Bytes(bytes)) <==> holds_file(
                    rest,
                    name,
                    bytes,
                ));
                if holds_file(entries, name, bytes) {
                    let i = choose|i: int|
                        0 <= i < entries.len() && is_first(entries, i) && (
                        #[trigger] entries[i]).name == name && entries[i].content
                            == ContentView::Bytes(bytes);
                    assert(rest[i - 1] == entries[i]);
                    assert(is_first(rest, i - 1)) by {
                        assert forall|k: int| 0 <= k < i - 1 implies (#[trigger] rest[k]).name
                            != rest[i - 1].name by {
                            assert(rest[k] == entries[k + 1]);
                        }
                    }
                }
            }
        }
    }
}

/// An accepted package is what its manifest and its entries say. It has the
/// service that the manifest names, the binary that the service is named after,
/// and the link path that the manifest asks for; its binary, its unit, its
/// manifest, its checksum and its signature are those of the entries with their
/// names.
pub proof fn packages_follow_their_manifest(
    entries: Seq<EntryView>,
    manifest: Result<ManifestView, Seq<char>>,
)
    ensures
        package_of(entries, manifest) matches Ok(p) ==> {
            let sig = p.binary_name + ".sig"@;
            let sign = p.binary_name + ".sign"@;
            &&& manifest == Ok::<ManifestView, Seq<char>>(p.manifest)
            &&& p.service_name == trim(p.manifest.service)
            &&& binary_name_of(p.service_name) == Ok::<Seq<char>, Refusal>(p.binary_name)
            &&& p.id == p.binary_name
            &&& p.manifest.symlink is None ==> p.bin_path is None
            &&& p.manifest.symlink matches Some(text) ==> {
                &&& trim(text).len() == 0 ==> p.bin_path is None
                &&& trim(text).len() > 0 ==> p.bin_path == Some(trim(text)) && trim(text)[0] == '/'
                    && !split(trim(text), '/').contains(".."@)
                &&& text.len() > 0 && text[0] == '/' && !is_space(text.last()) ==> p.bin_path
                    == Some(text)
            }
            &&& holds_file(entries, p.binary_name, p.binary_bytes)
            &&& holds_file(entries, p.service_name, p.service_bytes)
            &&& exists|bytes: Seq<u8>| #[trigger]
                holds_file(entries, "kaonic-plugin.toml"@, bytes) && utf8_text(bytes) == Ok::<
                    Seq<char>,
                    Seq<char>,
                >(p.manifest_raw)
            &&& exists|bytes: Seq<u8>| #[trigger]
                holds_file(entries, p.binary_name + ".sha256"@, bytes) && (utf8_text(
                    bytes,
                ) matches Ok(text) && trim(text) == p.sha256)
            &&& p.sha256.len() == 64
            &&& lower(p.sha256) == hex_text(sha256(p.binary_bytes))
            &&& p.signature_bytes matches Some(bytes) ==> holds_file(entries, sig, bytes) || (
            !names_entry(entries, sig) && holds_file(entries, sign, bytes))
            &&& p.signature_bytes is None <==> !names_entry(entries, sig) && !names_entry(
                entries,
                sign,
            )
        },
{
    if let Ok(p) = package_of(entries, manifest) {
        let m = p.manifest;
        lemma_find_entry(entries, p.binary_name);
        lemma_find_entry(entries, p.service_name);
        lemma_find_entry(entries, manifest_name());
        lemma_find_entry(entries, p.binary_name + ".sha256"@);
        lemma_find_entry(entries, p.binary_name + ".sig"@);
        lemma_find_entry(entries, p.binary_name + ".sign"@);
        link_paths_are_taken_as_they_are(m.symlink);
        if let Some(text) = m.symlink {
            if text.len() > 0 && text[0] == '/' && !is_space(text.last()) {
                lemma_trimmed(text);
            }
        }
        let raw = find_entry(entries, manifest_name())->Some_0->Bytes_0;
        assert(holds_file(entries, "kaonic-plugin.toml"@, raw));
        let sum = find_entry(entries, p.binary_name + ".sha256"@)->Some_0->Bytes_0;
        assert(holds_file(entries, p.binary_name + ".sha256"@, sum));
    }
}

/// A package is accepted where nothing is wrong with it: its manifest is good,
/// its unit, its binary and the checksum of its binary are there, its files fit,
/// its icon is among them, and its signature can be read.
pub proof fn complete_packages_are_accepted(
    entries: Seq<EntryView>,
    m: ManifestView,
    raw: Seq<u8>,
    unit: Seq<u8>,
    binary: Seq<u8>,
    sum: Seq<u8>,
)
    requires
        manifest_refusal(m) is None,
        holds_file(entries, "kaonic-plugin.toml"@, raw),
        utf8_text(raw) is Ok,
        holds_file(entries, trim(m.service), unit),
        holds_file(entries, binary_name_of(trim(m.service))->Ok_0, binary),
        holds_file(entries, binary_name_of(trim(m.service))->Ok_0 + ".sha256"@, sum),
        utf8_text(sum) matches Ok(text) && is_sha256_text(trim(text)) && lower(trim(text))
            == hex_text(sha256(binary)),
        all_names(components("kaonic-plugin.toml"@)),
        all_names(components(trim(m.service))),
        all_names(components(binary_name_of(trim(m.service))->Ok_0)),
        all_names(components(binary_name_of(trim(m.service))->Ok_0 + ".sha256"@)),
        custom_files_of(entries, binary_name_of(trim(m.service))->Ok_0) matches Ok(files) && (icon_of(
            m.icon,
        ) matches Ok(Some(icon)) ==> has_path(files, icon)),
        signature_of(entries, binary_name_of(trim(m.service))->Ok_0) is Ok,
    ensures
        package_of(entries, Ok(m)) matches Ok(p) && p.binary_bytes == binary && p.service_bytes
            == unit && p.manifest == m,
{
    let name = binary_name_of(trim(m.service))->Ok_0;
    lemma_find_entry(entries, name);
    lemma_find_entry(entries, trim(m.service));
    lemma_find_entry(entries, manifest_name());
    lemma_find_entry(entries, name + ".sha256"@);
}

/// Whether an entry is a file that the package brings along: it lies below
/// `files/` and is no directory.
pub open spec fn is_custom_file(entry: EntryView) -> bool {
    "files/"@.is_prefix_of(entry.name) && !(entry.name.last() == '/' || entry.name.last() == '\\')
}

/// The path of a file that a package brings along: its name without `files`.
pub open spec fn custom_path(entry: EntryView) -> Seq<char> {
    join(names(components(entry.name).skip(1)), "/"@)
}

/// Whether a file is the one that an entry brings along.
pub open spec fn is_file_of(file: FileView, entry: EntryView) -> bool {
    &&& is_custom_file(entry)
    &&& file.relative_path == custom_path(entry)
    &&& entry.content == ContentView::Bytes(file.bytes)
}

/// Whether some entry brings a file along.
pub open spec fn has_source(entries: Seq<EntryView>, file: FileView) -> bool {
    exists|i: int| 0 <= i < entries.len() && is_file_of(file, #[trigger] entries[i])
}

/// Whether what an entry brings along is among the files.
pub open spec fn is_brought(files: Seq<FileView>, entry: EntryView) -> bool {
    exists|k: int| 0 <= k < files.len() && is_file_of(#[trigger] files[k], entry)
}

/// The files of an accepted package are the entries below `files/`: each of these
/// is among them under its path, with its content, and there are no others.
pub proof fn custom_files_are_the_entries_below_files(
    entries: Seq<EntryView>,
    binary_name: Seq<char>,
)
    ensures
        custom_files_of(entries, binary_name) matches Ok(files) ==> {
            &&& files.len() == entries.filter(|entry: EntryView| is_custom_file(entry)).len()
            &&& forall|i: int|
                0 <= i < entries.len() && is_custom_file(#[trigger] entries[i]) ==> is_brought(
                    files,
                    entries[i],
                )
            &&& forall|k: int| 0 <= k < files.len() ==> has_source(entries, #[trigger] files[k])
        },
    decreases entries.len(),
{
    reveal(Seq::filter);
    if entries.len() > 0 {
        let shorter = entries.drop_last();
        let last = entries.last();
        custom_files_are_the_entries_below_files(shorter, binary_name);
        if let Ok(files) = custom_files_of(entries, binary_name) {
            let before = custom_files_of(shorter, binary_name)->Ok_0;
            lemma_custom_step(before, last, binary_name);
            assert forall|i: int| 0 <= i < entries.len() && is_custom_file(
                #[trigger] entries[i],
            ) implies is_brought(files, entries[i]) by {
                if i < shorter.len() {
                    assert(shorter[i] == entries[i]);
                    assert(is_brought(before, shorter[i]));
                    let k = choose|k: int|
                        0 <= k < before.len() && is_file_of(#[trigger] before[k], shorter[i]);
                    assert(files[k] == before[k]);
                } else {
                    assert(is_file_of(files[files.len() - 1], last));
                }
            }
            assert forall|k: int| 0 <= k < files.len() implies has_source(
                entries,
                #[trigger] files[k],
            ) by {
                if k < before.len() {
                    assert(files[k] == before[k]);
                    assert(has_source(shorter, before[k]));
                    let i = choose|i: int|
                        0 <= i < shorter.len() && is_file_of(before[k], #[trigger] shorter[i]);
                    assert(entries[i] == shorter[i]);
                } else {
                    assert(is_file_of(files[k], entries[entries.len() - 1]));
                }
            }
        }
    }
}

/// One more entry brings one more file along, if it is below `files/`, and none
/// otherwise.
proof fn lemma_custom_step(files: Seq<FileView>, entry: EntryView, binary_name: Seq<char>)
    requires
        custom_step(files, entry, binary_name) is Ok,
    ensures
        ({
            let next = custom_step(files, entry, binary_name)->Ok_0;
            &&& is_custom_file(entry) ==> next.len() == files.len() + 1 && is_file_of(
                next.last(),
                entry,
            ) && next.drop_last() == files
            &&& !is_custom_file(entry) ==> next == files
        }),
{
    reveal_strlit("files/");
    if "files/"@.is_prefix_of(entry.name) {
        assert(entry.name.len() >= 6);
    }
    if is_custom_file(entry) {
        let next = custom_step(files, entry, binary_name)->Ok_0;
        assert(next.drop_last() =~= files);
    }
}

/// A file that may be missing is taken where it is there: an entry of a plain name
/// gives its bytes, and no entry gives none.
pub proof fn optional_files_are_taken_where_they_are(
    entries: Seq<EntryView>,
    name: Seq<char>,
    bytes: Seq<u8>,
)
    requires
        is_plain_name(name),
    ensures
        holds_file(entries, name, bytes) ==> optional_bytes(entries, name) == Ok::<
            Option<Seq<u8>>,
            Refusal,
        >(Some(bytes)),
        !names_entry(entries, name) ==> optional_bytes(entries, name) == Ok::<
            Option<Seq<u8>>,
            Refusal,
        >(None),
{
    lemma_find_entry(entries, name);
    lemma_single_part(name);
    assert(components(name)[0] is Normal);
    assert(all_names(components(name)));
}

/// A digest is 64 hexadecimal digits: what SHA-256 gives reads as one, and a text
/// with any other character does not.
pub proof fn digests_are_sixty_four_digits(bytes: Seq<u8>, text: Seq<char>, i: int)
    ensures
        bytes.len() == 32 ==> is_sha256_text(hex_text(bytes)),
        text.len() != 64 ==> !is_sha256_text(text),
        0 <= i < text.len() && !is_hex_digit(text[i]) ==> !is_sha256_text(text),
{
    lemma_hex_digits(bytes);
}

proof fn lemma_hex_digits(bytes: Seq<u8>)
    ensures
        hex_text(bytes).len() == 2 * bytes.len(),
        forall|k: int|
            0 <= k < hex_text(bytes).len() ==> is_hex_digit(#[trigger] hex_text(bytes)[k]),
    decreases bytes.len(),
{
    if bytes.len() > 0 {
        let rest = hex_text(bytes.drop_last());
        let last = hex_byte(bytes.last());
        lemma_hex_digits(bytes.drop_last());
        assert(last[0] == digit((bytes.last() / 16) as int));
        assert(last[1] == digit((bytes.last() % 16) as int));
        assert(is_hex_digit(last[0]) && is_hex_digit(last[1]));
        assert forall|k: int| 0 <= k < hex_text(bytes).len() implies is_hex_digit(
            #[trigger] hex_text(bytes)[k],
        ) by {
            if k < rest.len() {
                assert(hex_text(bytes)[k] == rest[k]);
            } else {
                assert(hex_text(bytes)[k] == last[k - rest.len()]);
            }
        }
    }
}

/// The signature of a plugin is taken under its name, or else under its older one;
/// a package may be without one.
pub proof fn signatures_are_taken_under_either_name(
    entries: Seq<EntryView>,
    name: Seq<char>,
    bytes: Seq<u8>,
)
    requires
        is_plain_name(name + ".sig"@),
        is_plain_name(name + ".sign"@),
    ensures
        holds_file(entries, name + ".sig"@, bytes) ==> signature_of(entries, name) == Ok::<
            Option<Seq<u8>>,
            Refusal,
        >(Some(bytes)),
        !names_entry(entries, name + ".sig"@) && holds_file(entries, name + ".sign"@, bytes)
            ==> signature_of(entries, name) == Ok::<Option<Seq<u8>>, Refusal>(Some(bytes)),
        !names_entry(entries, name + ".sig"@) && !names_entry(entries, name + ".sign"@)
            ==> signature_of(entries, name) == Ok::<Option<Seq<u8>>, Refusal>(None),
{
    optional_files_are_taken_where_they_are(entries, name + ".sig"@, bytes);
    optional_files_are_taken_where_they_are(entries, name + ".sign"@, bytes);
}

} // verus!
