//! The entries of a ZIP archive.
use crate::order::viewed;
use std::io::Read;
use vstd::prelude::*;

verus! {

/// `std::io::Cursor`, a position in bytes in memory.
#[verifier::external_type_specification]
#[verifier::external_body]
#[verifier::reject_recursive_types(T)]
pub struct ExCursor<T>(std::io::Cursor<T>);

/// `zip::ZipArchive`, an opened archive.
#[verifier::external_type_specification]
#[verifier::external_body]
#[verifier::reject_recursive_types(R)]
pub struct ExZipArchive<R>(zip::ZipArchive<R>);

/// What an entry of an archive has to offer.
#[derive(Debug)]
pub enum EntryContent {
    /// The entry cannot be opened, for the reason given.
    Closed(String),
    /// The entry can be opened but not read, for the reason given.
    Unreadable(String),
    /// The bytes of the entry.
    Bytes(Vec<u8>),
}

/// What the content of an entry stands for.
pub enum ContentView {
    Closed(Seq<char>),
    Unreadable(Seq<char>),
    Bytes(Seq<u8>),
}

impl View for EntryContent {
    type V = ContentView;

    open spec fn view(&self) -> ContentView {
        match *self {
            EntryContent::Closed(err) => ContentView::Closed(err@),
            EntryContent::Unreadable(err) => ContentView::Unreadable(err@),
            EntryContent::Bytes(bytes) => ContentView::Bytes(bytes@),
        }
    }
}

/// An entry of an archive.
#[derive(Debug)]
pub struct ZipEntry {
    pub name: String,
    pub content: EntryContent,
}

/// What an entry of an archive stands for.
pub struct EntryView {
    pub name: Seq<char>,
    pub content: ContentView,
}

impl View for ZipEntry {
    type V = EntryView;

    open spec fn view(&self) -> EntryView {
        EntryView { name: self.name@, content: self.content@ }
    }
}

/// What a reading of an archive stands for.
pub open spec fn entries_outcome(out: Result<Vec<ZipEntry>, String>) -> Result<
    Seq<EntryView>,
    Seq<char>,
> {
    match out {
        Ok(entries) => Ok(viewed(entries@)),
        Err(err) => Err(err@),
    }
}

/// The entries of an opened archive.
pub uninterp spec fn archive_entries(archive: zip::ZipArchive<std::io::Cursor<Vec<u8>>>) -> Seq<EntryView>;

/// What `zip::ZipArchive::new` finds in bytes: entries, or the text of an error.
pub uninterp spec fn zip_entries(bytes: Seq<u8>) -> Result<Seq<EntryView>, Seq<char>>;

/// What an opening of an archive stands for.
pub open spec fn opened(
    out: Result<zip::ZipArchive<std::io::Cursor<Vec<u8>>>, String>,
) -> Result<Seq<EntryView>, Seq<char>> {
    match out {
        Ok(archive) => Ok(archive_entries(archive)),
        Err(err) => Err(err@),
    }
}

/// `zip::ZipArchive::new` opens an archive in memory: whether it does, and
/// which entries it then has, depends on the bytes alone.
#[verifier::external_body]
fn open_zip(bytes: Vec<u8>) -> (out: Result<zip::ZipArchive<std::io::Cursor<Vec<u8>>>, String>)
    ensures
        opened(out) == zip_entries(bytes@),
{
    match zip::ZipArchive::new(std::io::Cursor::new(bytes)) {
        Ok(archive) => Ok(archive),
        Err(err) => Err(err.to_string()),
    }
}

/// `zip::ZipArchive::len` is the number of entries.
#[verifier::external_body]
fn zip_len(archive: &zip::ZipArchive<std::io::Cursor<Vec<u8>>>) -> (out: usize)
    ensures
        out == archive_entries(*archive).len(),
{
    archive.len()
}

/// `zip::ZipArchive::name_for_index` is the name of an entry.
#[verifier::external_body]
fn zip_entry_name(
    archive: &zip::ZipArchive<std::io::Cursor<Vec<u8>>>,
    index: usize,
) -> (out: String)
    requires
        index < archive_entries(*archive).len(),
    ensures
        out@ == archive_entries(*archive)[index as int].name,
{
    archive.name_for_index(index).unwrap().to_owned()
}

/// `zip::ZipArchive::by_index` opens an entry, whose bytes are then read to
/// their end; neither changes which entries the archive has.
#[verifier::external_body]
fn zip_entry_content(
    archive: &mut zip::ZipArchive<std::io::Cursor<Vec<u8>>>,
    index: usize,
) -> (out: EntryContent)
    requires
        index < archive_entries(*old(archive)).len(),
    ensures
        out@ == archive_entries(*old(archive))[index as int].content,
        archive_entries(*final(archive)) == archive_entries(*old(archive)),
{
    let mut bytes: Vec<u8> = Vec::new();
    match archive.by_index(index) {
        Ok(mut file) => match file.read_to_end(&mut bytes) {
            Ok(_) => EntryContent::Bytes(bytes),
            Err(err) => EntryContent::Unreadable(err.to_string()),
        },
        Err(err) => EntryContent::Closed(err.to_string()),
    }
}

/// The entries of an archive, in its order.
pub fn read_zip_entries(bytes: &[u8]) -> (out: Result<Vec<ZipEntry>, String>)
    ensures
        entries_outcome(out) == zip_entries(bytes@),
{
    let mut archive = match open_zip(vstd::slice::slice_to_vec(bytes)) {
        Ok(archive) => archive,
        Err(err) => {
            return Err(err);
        },
    };
    let ghost all = archive_entries(archive);
    let n = zip_len(&archive);
    let mut entries: Vec<ZipEntry> = Vec::new();
    let mut i: usize = 0;
    assert(viewed(entries@) =~= all.take(0));
    while i < n
        invariant
            i <= n == all.len(),
            archive_entries(archive) == all,
            viewed(entries@) == all.take(i as int),
        decreases n - i,
    {
        let ghost before = viewed(entries@);
        let name = zip_entry_name(&archive, i);
        let content = zip_entry_content(&mut archive, i);
        let entry = ZipEntry { name, content };
        entries.push(entry);
        proof {
            assert(viewed(entries@) =~= before.push(entry@));
            assert(all.take(i + 1) =~= before.push(all[i as int]));
        }
        i += 1;
    }
    assert(all.take(i as int) =~= all);
    Ok(entries)
}

} // verus!
