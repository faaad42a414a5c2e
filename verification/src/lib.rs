//! Model of the systemd-boot loader configuration: the loader policy file,
//! the boot entry files, and the match of an entry against the running kernel.

pub mod entry;
pub mod laws;
pub mod loader;
pub mod number;
pub mod source;
pub mod text;

use vstd::prelude::*;
use vstd::string::*;
use crate::entry::{agree, entry_found, entry_lines, expected_cmdline, Entry, EntryError, EntryView};
use crate::loader::{policy_found, policy_lines, LoaderConf, LoaderError};
use crate::source::{EntryFile, Listing, Source};
use crate::text::{ascii_words, same_text, split_ascii_whitespace};

verus! {

/// Why the configuration could not be loaded or written.
#[derive(Debug)]
#[allow(inconsistent_fields)]
pub enum Error {
    /// The entries directory could not be read.
    EntriesDir(std::io::Error),
    /// The entry file at `path` was refused.
    Entry { path: std::path::PathBuf, source: EntryError },
    /// An entry file could not be written.
    EntryWrite(std::io::Error),
    /// An item of the entries directory could not be read.
    FileEntry(std::io::Error),
    /// The loader policy at `path` was refused.
    Loader { path: std::path::PathBuf, source: LoaderError },
    /// The loader policy could not be written.
    LoaderWrite(std::io::Error),
    /// No entry has the id that was asked for.
    NotFound,
}

/// The configuration under one EFI mount point.
#[derive(Debug, Clone)]
pub struct SystemdBootConf {
    /// The EFI mount point.
    pub efi_mount: std::path::PathBuf,
    /// The directory of the entry files.
    pub entries_path: std::path::PathBuf,
    /// The file of the loader policy.
    pub loader_path: std::path::PathBuf,
    /// The entries, in the order in which they were loaded.
    pub entries: Vec<Entry>,
    /// The loader policy.
    pub loader_conf: LoaderConf,
}

/// How the default entry of the loader policy stands to the entries.
#[derive(Debug, Copy, Clone)]
pub enum DefaultState {
    /// The policy names no default entry.
    NotDefined,
    /// The policy names an entry that is there.
    Exists,
    /// The policy names an entry that is not there.
    DoesNotExist,
}

/// The entries directory, from the EFI mount point.
pub const ENTRIES_DIR: &'static str = "loader/entries";

/// The loader policy file, from the EFI mount point.
pub const LOADER_FILE: &'static str = "loader/loader.conf";

/// The entries seen through their views.
pub open spec fn views(entries: Seq<Entry>) -> Seq<EntryView> {
    entries.map_values(|entry: Entry| entry@)
}

/// Whether some entry has the id.
pub open spec fn has_id(entries: Seq<Entry>, id: Seq<char>) -> bool {
    exists|i: int| 0 <= i < entries.len() && (#[trigger] entries[i]).id@ == id
}

/// Whether the entry at `i` is the first that has the id.
pub open spec fn first_with_id(entries: Seq<Entry>, id: Seq<char>, i: int) -> bool {
    &&& 0 <= i < entries.len()
    &&& entries[i].id@ == id
    &&& forall|j: int| 0 <= j < i ==> (#[trigger] entries[j]).id@ != id
}

/// Whether the entry boots with a command line that agrees with the live
/// one.
pub open spec fn boots(entry: Entry, live: Seq<Seq<char>>) -> bool {
    agree(live, expected_cmdline(entry@))
}

/// Whether the entry at `i` is the first that the live command line agrees
/// with.
pub open spec fn first_current(entries: Seq<Entry>, live: Seq<Seq<char>>, i: int) -> bool {
    &&& 0 <= i < entries.len()
    &&& boots(entries[i], live)
    &&& forall|j: int| 0 <= j < i ==> !boots(#[trigger] entries[j], live)
}

/// The entry that a listed file gives.
pub open spec fn file_entry(file: EntryFile) -> Result<EntryView, EntryError> {
    entry_found(file.stem, file.source)
}

/// The number of files before the first that gives no entry.
pub open spec fn good_files(files: Seq<EntryFile>) -> nat
    decreases files.len(),
{
    if files.len() == 0 || file_entry(files[0]) is Err {
        0
    } else {
        1 + good_files(files.drop_first())
    }
}

/// The entries of the files before the first that gives none.
pub open spec fn entries_of(files: Seq<EntryFile>) -> Seq<EntryView> {
    files.take(good_files(files) as int).map_values(|file: EntryFile| file_entry(file)->Ok_0)
}

/// How loading a listing ends. A directory that could not be read fails
/// the load. Else the first file that gives no entry fails it, with the
/// file's path and the reason; a listing that broke off fails it after its
/// files; and a listing whose files all give entries succeeds.
pub open spec fn listing_result(listing: Listing) -> Result<(), Error> {
    match listing {
        Listing::Unread(cause) => Err(Error::EntriesDir(cause)),
        Listing::Files { files, failure } => {
            let good = good_files(files@) as int;
            if good < files.len() {
                Err(Error::Entry { path: files[good].path, source: file_entry(files[good])->Err_0 })
            } else {
                match failure {
                    Some(cause) => Err(Error::FileEntry(cause)),
                    None => Ok(()),
                }
            }
        },
    }
}

/// A run of `n` files that give entries, which ends the listing or which a
/// file that gives none follows, is all of the good files.
pub proof fn lemma_good_files_is(files: Seq<EntryFile>, n: int)
    requires
        0 <= n <= files.len(),
        forall|k: int| 0 <= k < n ==> file_entry(#[trigger] files[k]) is Ok,
        n == files.len() || file_entry(files[n]) is Err,
    ensures
        good_files(files) == n,
    decreases n,
{
    if n > 0 {
        let rest = files.drop_first();
        assert forall|k: int| 0 <= k < n - 1 implies file_entry(#[trigger] rest[k]) is Ok by {
            assert(rest[k] == files[k + 1]);
        }
        lemma_good_files_is(rest, n - 1);
    }
}

/// The words of the kernel command line, which ASCII whitespace separates.
pub fn kernel_cmdline(raw: &str) -> (tokens: Vec<String>)
    ensures
        tokens.deep_view() == ascii_words(raw@),
{
    split_ascii_whitespace(raw)
}

impl SystemdBootConf {
    /// Loads the configuration under an EFI mount point from what was found
    /// at the loader policy's path and in the entries directory. The policy
    /// is read first, and a policy that is refused ends the load.
    pub fn new(
        efi_mount: std::path::PathBuf,
        entries_path: std::path::PathBuf,
        loader_path: std::path::PathBuf,
        loader: Source,
        listing: Listing,
    ) -> (result: Result<SystemdBootConf, Error>)
        ensures
            match policy_found(loader) {
                Err(cause) => result matches Err(Error::Loader { path, source })
                    && path == loader_path && source@ == cause,
                Ok(policy) => match listing_result(listing) {
                    Err(error) => result == Err::<SystemdBootConf, Error>(error),
                    Ok(_) => result matches Ok(conf) && conf.efi_mount == efi_mount
                        && conf.entries_path == entries_path && conf.loader_path == loader_path
                        && conf.loader_conf@ == policy && views(conf.entries@) == entries_of(
                        listing->files@,
                    ),
                },
            },
    {
        let mut conf = SystemdBootConf {
            efi_mount,
            entries_path,
            loader_path,
            entries: Vec::new(),
            loader_conf: LoaderConf::default(),
        };
        match conf.load_conf(loader) {
            Ok(_) => {},
            Err(error) => {
                return Err(error);
            },
        }
        match conf.load_entries(listing) {
            Ok(_) => {},
            Err(error) => {
                return Err(error);
            },
        }
        Ok(conf)
    }

    /// The place of the first entry with the id.
    fn position(&self, id: &str) -> (place: Option<usize>)
        ensures
            match place {
                Some(i) => first_with_id(self.entries@, id@, i as int),
                None => !has_id(self.entries@, id@),
            },
    {
        let mut i: usize = 0;
        while i < self.entries.len()
            invariant
                i <= self.entries.len(),
                forall|j: int| 0 <= j < i ==> (#[trigger] self.entries[j]).id@ != id@,
            decreases self.entries.len() - i,
        {
            if same_text(self.entries[i].id.as_str(), id) {
                return Some(i);
            }
            i = i + 1;
        }
        None
    }

    /// The first entry that the live command line agrees with, if there is
    /// one.
    pub fn current_entry(&self, cmdline: &[String]) -> (found: Option<&Entry>)
        ensures
            match found {
                Some(entry) => exists|i: int|
                    first_current(self.entries@, cmdline.deep_view(), i) && *entry
                        == self.entries[i],
                None => forall|i: int|
                    0 <= i < self.entries.len() ==> !boots(
                        #[trigger] self.entries[i],
                        cmdline.deep_view(),
                    ),
            },
    {
        let mut i: usize = 0;
        while i < self.entries.len()
            invariant
                i <= self.entries.len(),
                forall|j: int|
                    0 <= j < i ==> !boots(#[trigger] self.entries[j], cmdline.deep_view()),
            decreases self.entries.len() - i,
        {
            if self.entries[i].is_current(cmdline) {
                return Some(&self.entries[i]);
            }
            i = i + 1;
        }
        None
    }

    /// Whether the default entry of the loader policy is among the entries.
    pub fn default_entry_exists(&self) -> (state: DefaultState)
        ensures
            state == match self.loader_conf.default {
                Some(id) => if has_id(self.entries@, id@) {
                    DefaultState::Exists
                } else {
                    DefaultState::DoesNotExist
                },
                None => DefaultState::NotDefined,
            },
    {
        match &self.loader_conf.default {
            Some(id) => {
                if self.entry_exists(id.as_str()) {
                    DefaultState::Exists
                } else {
                    DefaultState::DoesNotExist
                }
            },
            None => DefaultState::NotDefined,
        }
    }

    /// Whether some entry has the id.
    pub fn entry_exists(&self, entry: &str) -> (exists: bool)
        ensures
            exists == has_id(self.entries@, entry@),
    {
        self.position(entry).is_some()
    }

    /// The first entry with the id, if there is one.
    pub fn get(&self, entry: &str) -> (found: Option<&Entry>)
        ensures
            match found {
                Some(first) => exists|i: int|
                    first_with_id(self.entries@, entry@, i) && *first == self.entries[i],
                None => !has_id(self.entries@, entry@),
            },
    {
        match self.position(entry) {
            Some(i) => Some(&self.entries[i]),
            None => None,
        }
    }

    /// The first entry with the id, if there is one, to be changed in
    /// place. Nothing else changes.
    pub fn get_mut(&mut self, entry: &str) -> (found: Option<&mut Entry>)
        ensures
            final(self).efi_mount == old(self).efi_mount,
            final(self).entries_path == old(self).entries_path,
            final(self).loader_path == old(self).loader_path,
            final(self).loader_conf == old(self).loader_conf,
            match found {
                Some(first) => exists|i: int|
                    first_with_id(old(self).entries@, entry@, i) && *first == old(
                        self,
                    ).entries[i] && final(self).entries@ == old(self).entries@.update(
                        i,
                        *final(first),
                    ),
                None => !has_id(old(self).entries@, entry@) && final(self).entries == old(
                    self,
                ).entries,
            },
    {
        match self.position(entry) {
            Some(i) => Some(&mut self.entries[i]),
            None => None,
        }
    }

    /// Reads the loader policy anew from what was found at its path. A
    /// policy that is refused leaves everything as it was.
    pub fn load_conf(&mut self, source: Source) -> (result: Result<(), Error>)
        ensures
            final(self).efi_mount == old(self).efi_mount,
            final(self).entries_path == old(self).entries_path,
            final(self).loader_path == old(self).loader_path,
            final(self).entries == old(self).entries,
            match policy_found(source) {
                Ok(policy) => result is Ok && final(self).loader_conf@ == policy,
                Err(cause) => result matches Err(Error::Loader { path, source })
                    && path == old(self).loader_path && source@ == cause
                    && final(self).loader_conf == old(self).loader_conf,
            },
    {
        match LoaderConf::from_path(source) {
            Ok(policy) => {
                self.loader_conf = policy;
                Ok(())
            },
            Err(source) => Err(Error::Loader { path: self.loader_path.clone(), source }),
        }
    }

    /// Loads the entries anew from a listing of the entries directory.
    /// A directory that could not be read leaves the entries as they were.
    /// Else the entries are those of the files before the first that gives
    /// none.
    pub fn load_entries(&mut self, listing: Listing) -> (result: Result<(), Error>)
        ensures
            final(self).efi_mount == old(self).efi_mount,
            final(self).entries_path == old(self).entries_path,
            final(self).loader_path == old(self).loader_path,
            final(self).loader_conf == old(self).loader_conf,
            result == listing_result(listing),
            match listing {
                Listing::Unread(_) => final(self).entries == old(self).entries,
                Listing::Files { files, failure } => views(final(self).entries@) == entries_of(
                    files@,
                ),
            },
    {
        match listing {
            Listing::Unread(cause) => Err(Error::EntriesDir(cause)),
            Listing::Files { files, failure } => {
                let ghost all = files@;
                self.entries.clear();
                for file in it: files
                    invariant
                        it.seq() == all,
                        listing is Files,
                        listing->files@ == all,
                        listing->failure == failure,
                        self.efi_mount == old(self).efi_mount,
                        self.entries_path == old(self).entries_path,
                        self.loader_path == old(self).loader_path,
                        self.loader_conf == old(self).loader_conf,
                        self.entries.len() == it.index(),
                        forall|k: int|
                            0 <= k < it.index() ==> file_entry(#[trigger] all[k]) == Ok::<
                                EntryView,
                                EntryError,
                            >(self.entries[k]@),
                {
                    let ghost n = it.index() as int;
                    match Entry::from_path(file.stem, file.source) {
                        Ok(entry) => {
                            self.entries.push(entry);
                        },
                        Err(source) => {
                            proof {
                                lemma_good_files_is(all, n);
                            }
                            return Err(Error::Entry { path: file.path, source });
                        },
                    }
                }
                proof {
                    lemma_good_files_is(all, all.len() as int);
                }
                match failure {
                    Some(cause) => Err(Error::FileEntry(cause)),
                    None => Ok(()),
                }
            },
        }
    }

    /// The lines to write to the loader policy's file.
    pub fn overwrite_loader_conf(&self) -> (lines: Vec<String>)
        ensures
            lines.deep_view() == policy_lines(self.loader_conf@),
    {
        self.loader_conf.conf_lines()
    }

    /// The name of the file of the first entry with the id, within the
    /// entries directory, and the lines to write to it. Fails where no entry
    /// has the id.
    pub fn overwrite_entry_conf(&self, entry: &str) -> (result: Result<(String, Vec<String>), Error>)
        ensures
            match result {
                Ok((name, lines)) => exists|i: int|
                    first_with_id(self.entries@, entry@, i) && name@ == entry@ + ".conf"@
                        && lines.deep_view() == entry_lines(self.entries[i]@),
                Err(error) => error is NotFound && !has_id(self.entries@, entry@),
            },
    {
        match self.get(entry) {
            Some(first) => {
                let name = first.id.clone().concat(".conf");
                Ok((name, first.conf_lines()))
            },
            None => Err(Error::NotFound),
        }
    }
}

} // verus!
