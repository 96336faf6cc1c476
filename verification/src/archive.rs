//! Unpacking a downloaded repository archive, one entry at a time.

use vstd::prelude::*;
use std::io::Cursor;
use zip::ZipArchive;

verus! {

#[verifier::external_type_specification]
#[verifier::external_body]
#[verifier::reject_recursive_types(T)]
pub struct ExCursor<T>(Cursor<T>);

#[verifier::external_type_specification]
#[verifier::external_body]
#[verifier::reject_recursive_types(R)]
pub struct ExZipArchive<R>(ZipArchive<R>);

/// An archive read from bytes held in memory.
pub type MemoryArchive = ZipArchive<Cursor<Vec<u8>>>;

/// What one archive entry gives: its header (the name it unpacks to, when
/// that name is safe, and whether it is a folder) or the error reaching it,
/// and its contents or the error reading them.
pub type EntryView = (Result<(Option<Seq<char>>, bool), Seq<char>>, Result<Seq<u8>, Seq<char>>);

/// The entries of an opened archive, in archive order.
pub uninterp spec fn archive_entries(a: MemoryArchive) -> Seq<EntryView>;

/// What `zip::ZipArchive::new` makes of `bytes`: the entries of the archive,
/// or the error's message.
pub uninterp spec fn archive_of(bytes: Seq<u8>) -> Result<Seq<EntryView>, Seq<char>>;

/// Opens the archive held in `bytes` (`ZipArchive::new` over a
/// `std::io::Cursor`). What the archive holds is named, not described: the
/// zip format is not restated here.
#[verifier::external_body]
fn open_archive(bytes: Vec<u8>) -> (r: Result<MemoryArchive, String>)
    ensures
        match r {
            Ok(a) => archive_of(bytes@) == Ok::<Seq<EntryView>, Seq<char>>(archive_entries(a)),
            Err(e) => archive_of(bytes@) == Err::<Seq<EntryView>, Seq<char>>(e@),
        },
{
    ZipArchive::new(Cursor::new(bytes)).map_err(|e| e.to_string())
}

/// The number of entries of the archive (`ZipArchive::len`).
#[verifier::external_body]
fn archive_len(a: &MemoryArchive) -> (n: usize)
    ensures
        n == archive_entries(*a).len(),
{
    a.len()
}

/// The header of entry `i` (`ZipArchive::by_index`, then `enclosed_name`
/// and `is_dir` of the entry): the safe name it unpacks to, if any, and
/// whether it is a folder. Reading leaves the entries as they are.
#[verifier::external_body]
fn entry_header(a: &mut MemoryArchive, i: usize) -> (r: Result<(Option<String>, bool), String>)
    requires
        i < archive_entries(*old(a)).len(),
    ensures
        archive_entries(*final(a)) == archive_entries(*old(a)),
        match r {
            Ok((name, is_dir)) => archive_entries(*old(a))[i as int].0 == Ok::<
                (Option<Seq<char>>, bool),
                Seq<char>,
            >((crate::installer::opt_view(name), is_dir)),
            Err(e) => archive_entries(*old(a))[i as int].0 == Err::<(Option<Seq<char>>, bool), Seq<char>>(
                e@,
            ),
        },
{
    match a.by_index(i) {
        Ok(file) => Ok((file.enclosed_name().map(|p| p.to_string_lossy().into_owned()), file.is_dir())),
        Err(e) => Err(e.to_string()),
    }
}

/// The contents of entry `i` (`ZipArchive::by_index`, then reading the
/// entry to its end). Reading leaves the entries as they are.
#[verifier::external_body]
fn entry_contents(a: &mut MemoryArchive, i: usize) -> (r: Result<Vec<u8>, String>)
    requires
        i < archive_entries(*old(a)).len(),
    ensures
        archive_entries(*final(a)) == archive_entries(*old(a)),
        match r {
            Ok(d) => archive_entries(*old(a))[i as int].1 == Ok::<Seq<u8>, Seq<char>>(d@),
            Err(e) => archive_entries(*old(a))[i as int].1 == Err::<Seq<u8>, Seq<char>>(e@),
        },
{
    let mut data = Vec::new();
    match a.by_index(i) {
        Ok(mut file) => match std::io::Read::read_to_end(&mut file, &mut data) {
            Ok(_) => Ok(data),
            Err(e) => Err(e.to_string()),
        },
        Err(e) => Err(e.to_string()),
    }
}

/// What unpacking does with one archive entry, below the folder it unpacks into.
#[derive(Debug, Clone, PartialEq, Eq)]
pub enum EntryAction {
    /// Leave the entry out: its name is not safe to unpack.
    Skip,
    /// Create the folder at this path.
    CreateDir(String),
    /// Create the file at this path, with its folder, and write the entry's
    /// contents into it.
    CreateFile(String),
}

/// The action for an entry with header `header`: `(is a folder, path)`
/// when something is created, `None` when it is skipped, or the error
/// reaching the entry.
pub open spec fn entry_action(header: Result<(Option<Seq<char>>, bool), Seq<char>>) -> Result<
    Option<(bool, Seq<char>)>,
    Seq<char>,
> {
    match header {
        Err(e) => Err(e),
        Ok((None, _)) => Ok(None),
        Ok((Some(name), is_dir)) => Ok(Some((is_dir, name))),
    }
}

/// The view of the action handed out for an entry, or of the error.
pub open spec fn action_result_view(r: Result<Option<EntryAction>, String>) -> Option<
    Result<Option<(bool, Seq<char>)>, Seq<char>>,
> {
    match r {
        Ok(None) => None,
        Ok(Some(EntryAction::Skip)) => Some(Ok(None)),
        Ok(Some(EntryAction::CreateDir(p))) => Some(Ok(Some((true, p@)))),
        Ok(Some(EntryAction::CreateFile(p))) => Some(Ok(Some((false, p@)))),
        Err(e) => Some(Err(e@)),
    }
}

/// What a pack archive being unpacked holds: its entries, in archive
/// order, and how many of them have been handed out.
pub struct PackView {
    pub entries: Seq<EntryView>,
    pub next: nat,
}

/// A downloaded repository archive, unpacked one entry at a time: each
/// entry is handed out as an action, and a file's contents are read once
/// the file has been created.
pub struct PackArchive {
    archive: MemoryArchive,
    next: usize,
}

impl View for PackArchive {
    type V = PackView;

    closed spec fn view(&self) -> PackView {
        PackView { entries: archive_entries(self.archive), next: self.next as nat }
    }
}

impl PackArchive {
    /// Opens the archive held in `bytes`, before its first entry.
    pub fn open(bytes: Vec<u8>) -> (r: Result<PackArchive, String>)
        ensures
            match r {
                Ok(a) => archive_of(bytes@) == Ok::<Seq<EntryView>, Seq<char>>(a@.entries) && a@.next == 0,
                Err(e) => archive_of(bytes@) == Err::<Seq<EntryView>, Seq<char>>(e@),
            },
    {
        match open_archive(bytes) {
            Ok(a) => Ok(PackArchive { archive: a, next: 0 }),
            Err(e) => Err(e),
        }
    }

    /// Hands out the action for the next entry, or `None` once every entry
    /// has been handed out; an entry that cannot be reached gives its error.
    pub fn next_entry(&mut self) -> (r: Result<Option<EntryAction>, String>)
        ensures
            final(self)@.entries == old(self)@.entries,
            old(self)@.next >= old(self)@.entries.len() ==> r is Ok && action_result_view(r) is None
                && final(self)@.next == old(self)@.next,
            old(self)@.next < old(self)@.entries.len() ==> final(self)@.next == old(self)@.next + 1
                && action_result_view(r) == Some(entry_action(old(self)@.entries[old(self)@.next as int].0)),
            old(self)@.next < old(self)@.entries.len() ==> match old(self)@.entries[old(self)@.next as int].0 {
                Ok((Some(n), true)) => r matches Ok(Some(EntryAction::CreateDir(p))) && p@ == n,
                Ok((Some(n), false)) => r matches Ok(Some(EntryAction::CreateFile(p))) && p@ == n,
                Ok((None, _)) => r matches Ok(Some(EntryAction::Skip)),
                Err(e) => r matches Err(m) && m@ == e,
            },
    {
        let n = archive_len(&self.archive);
        if self.next >= n {
            return Ok(None);
        }
        let i = self.next;
        let header = entry_header(&mut self.archive, i);
        self.next = i + 1;
        match header {
            Err(e) => Err(e),
            Ok((None, _)) => Ok(Some(EntryAction::Skip)),
            Ok((Some(name), true)) => Ok(Some(EntryAction::CreateDir(name))),
            Ok((Some(name), false)) => Ok(Some(EntryAction::CreateFile(name))),
        }
    }

    /// Reads the contents of the entry handed out last.
    pub fn entry_data(&mut self) -> (r: Result<Vec<u8>, String>)
        requires
            0 < old(self)@.next <= old(self)@.entries.len(),
        ensures
            final(self)@ == old(self)@,
            match r {
                Ok(d) => old(self)@.entries[old(self)@.next - 1].1 == Ok::<Seq<u8>, Seq<char>>(d@),
                Err(e) => old(self)@.entries[old(self)@.next - 1].1 == Err::<Seq<u8>, Seq<char>>(e@),
            },
    {
        entry_contents(&mut self.archive, self.next - 1)
    }
}

} // verus!
