use std::path::PathBuf;
use systemd_boot_conf::entry::{Entry, EntryError};
use systemd_boot_conf::loader::{LoaderConf, LoaderError};
use systemd_boot_conf::source::{EntryFile, Listing, Source, Stem};
use systemd_boot_conf::{kernel_cmdline, DefaultState, Error, SystemdBootConf, ENTRIES_DIR, LOADER_FILE};

fn file_lines(text: &[&str]) -> Vec<String> {
    text.iter().map(|line| line.to_string()).collect()
}

fn io_failure() -> std::io::Error {
    std::io::Error::new(std::io::ErrorKind::Other, "failed")
}

fn listed(id: &str, text: &[&str]) -> EntryFile {
    EntryFile {
        path: PathBuf::from(format!("/boot/efi/loader/entries/{}.conf", id)),
        stem: Stem::Name(id.to_string()),
        source: Source::Text { lines: file_lines(text), failure: None },
    }
}

fn boot_entry(id: &str, initrd: Option<&str>, options: &[&str]) -> Entry {
    Entry {
        id: id.to_string(),
        initrd: initrd.map(String::from),
        linux: format!("/EFI/{}/vmlinuz", id),
        options: file_lines(options),
        title: format!("Title of {}", id),
    }
}

fn conf(default: Option<&str>, entries: Vec<Entry>) -> SystemdBootConf {
    SystemdBootConf {
        efi_mount: PathBuf::from("/boot/efi"),
        entries_path: PathBuf::from("/boot/efi/loader/entries"),
        loader_path: PathBuf::from("/boot/efi/loader/loader.conf"),
        entries,
        loader_conf: LoaderConf { default: default.map(String::from), timeout: None },
    }
}

fn open(loader: Source, listing: Listing) -> Result<SystemdBootConf, Error> {
    let mount = PathBuf::from("/boot/efi");
    SystemdBootConf::new(mount.clone(), mount.join(ENTRIES_DIR), mount.join(LOADER_FILE), loader, listing)
}

#[test]
fn tree_layout() {
    assert_eq!(ENTRIES_DIR, "loader/entries");
    assert_eq!(LOADER_FILE, "loader/loader.conf");
}

#[test]
fn kernel_cmdline_is_cut_at_ascii_whitespace() {
    assert_eq!(
        kernel_cmdline("initrd=\\EFI\\initrd.img root=UUID=1 ro  quiet\n"),
        vec!["initrd=\\EFI\\initrd.img", "root=UUID=1", "ro", "quiet"]
    );
    assert_eq!(kernel_cmdline(""), Vec::<String>::new());
    assert_eq!(kernel_cmdline("\n"), Vec::<String>::new());
    assert_eq!(kernel_cmdline("a\u{a0}b\tc"), vec!["a\u{a0}b", "c"]);
}

#[test]
fn default_entry_that_is_there_exists() {
    let c = conf(Some("b"), vec![boot_entry("a", None, &[]), boot_entry("b", None, &[])]);
    assert!(matches!(c.default_entry_exists(), DefaultState::Exists));
}

#[test]
fn default_entry_that_is_not_there_does_not_exist() {
    let c = conf(Some("c"), vec![boot_entry("a", None, &[]), boot_entry("b", None, &[])]);
    assert!(matches!(c.default_entry_exists(), DefaultState::DoesNotExist));
    let c = conf(Some("a"), vec![]);
    assert!(matches!(c.default_entry_exists(), DefaultState::DoesNotExist));
    let c = conf(Some("A"), vec![boot_entry("a", None, &[])]);
    assert!(matches!(c.default_entry_exists(), DefaultState::DoesNotExist));
}

#[test]
fn default_entry_that_is_not_set_is_not_defined() {
    let c = conf(None, vec![boot_entry("a", None, &[])]);
    assert!(matches!(c.default_entry_exists(), DefaultState::NotDefined));
}

#[test]
fn entry_exists_by_its_id() {
    let c = conf(None, vec![boot_entry("a", None, &[]), boot_entry("b", None, &[])]);
    assert!(c.entry_exists("a"));
    assert!(c.entry_exists("b"));
    assert!(!c.entry_exists("c"));
    assert!(!c.entry_exists(""));
    assert!(!c.entry_exists("a "));
}

#[test]
fn get_gives_the_first_entry_with_the_id() {
    let mut second = boot_entry("a", None, &[]);
    second.title = "second".to_string();
    let c = conf(None, vec![boot_entry("b", None, &[]), boot_entry("a", None, &[]), second]);
    assert_eq!(c.get("a").unwrap().title, "Title of a");
    assert_eq!(c.get("b").unwrap().title, "Title of b");
    assert!(c.get("c").is_none());
}

#[test]
fn get_mut_changes_the_entry_in_place() {
    let mut c = conf(None, vec![boot_entry("a", None, &[]), boot_entry("b", None, &[])]);
    c.get_mut("b").unwrap().options.push("quiet".to_string());
    assert!(c.get_mut("c").is_none());
    assert_eq!(c.entries.len(), 2);
    assert!(c.entries[0].options.is_empty());
    assert_eq!(c.entries[1].options, vec!["quiet"]);
    assert_eq!(c.entries[1].id, "b");
}

#[test]
fn current_entry_is_the_first_that_agrees() {
    let c = conf(
        None,
        vec![
            boot_entry("old", Some("/EFI/old/initrd.img"), &["root=UUID=1", "ro"]),
            boot_entry("current", Some("/EFI/cur/initrd.img"), &["root=UUID=1", "ro"]),
            boot_entry("twin", Some("/EFI/cur/initrd.img"), &["root=UUID=1"]),
        ],
    );
    let live = kernel_cmdline("initrd=\\EFI\\cur\\initrd.img root=UUID=1 ro quiet");
    assert_eq!(c.current_entry(&live).unwrap().id, "current");
    let live = kernel_cmdline("root=UUID=1 initrd=\\EFI\\cur\\initrd.img ro");
    assert!(c.current_entry(&live).is_none());
    assert_eq!(c.current_entry(&[]).unwrap().id, "old");
    assert!(conf(None, vec![]).current_entry(&live).is_none());
}

#[test]
fn load_conf_takes_the_policy() {
    let mut c = conf(Some("old"), vec![boot_entry("a", None, &[])]);
    let source = Source::Text { lines: file_lines(&["timeout 3"]), failure: None };
    assert!(c.load_conf(source).is_ok());
    assert_eq!(c.loader_conf.default, None);
    assert_eq!(c.loader_conf.timeout, Some(3));
    assert_eq!(c.entries.len(), 1);
    assert!(c.load_conf(Source::Missing).is_ok());
    assert_eq!(c.loader_conf.timeout, None);
}

#[test]
fn load_conf_that_fails_names_the_file_and_changes_nothing() {
    let mut c = conf(Some("old"), vec![]);
    let source = Source::Text { lines: file_lines(&["default new", "timeout abc"]), failure: None };
    match c.load_conf(source) {
        Err(Error::Loader { path, source: LoaderError::TimeoutNaN(text) }) => {
            assert_eq!(path, PathBuf::from("/boot/efi/loader/loader.conf"));
            assert_eq!(text, "abc");
        },
        other => panic!("{:?}", other),
    }
    assert_eq!(c.loader_conf.default.as_deref(), Some("old"));
    assert!(matches!(
        c.load_conf(Source::NotAFile),
        Err(Error::Loader { source: LoaderError::NotAFile, .. })
    ));
}

#[test]
fn load_entries_takes_every_file() {
    let mut c = conf(None, vec![boot_entry("stale", None, &[])]);
    let listing = Listing::Files {
        files: vec![
            listed("a", &["title A", "linux /a"]),
            listed("b", &["title B", "linux /b", "options x"]),
        ],
        failure: None,
    };
    assert!(c.load_entries(listing).is_ok());
    assert_eq!(c.entries.len(), 2);
    assert_eq!(c.entries[0].id, "a");
    assert_eq!(c.entries[1].id, "b");
    assert_eq!(c.entries[1].options, vec!["x"]);
    assert!(c.load_entries(Listing::Files { files: vec![], failure: None }).is_ok());
    assert!(c.entries.is_empty());
}

#[test]
fn load_entries_fails_on_one_malformed_file() {
    let mut c = conf(None, vec![boot_entry("stale", None, &[])]);
    let listing = Listing::Files {
        files: vec![
            listed("good", &["title Good", "linux /good"]),
            listed("bad", &["title Bad", "linux"]),
            listed("later", &["title Later", "linux /later"]),
        ],
        failure: None,
    };
    match c.load_entries(listing) {
        Err(Error::Entry { path, source }) => {
            assert_eq!(path, PathBuf::from("/boot/efi/loader/entries/bad.conf"));
            assert!(matches!(source, EntryError::NoValueForLinux));
        },
        other => panic!("{:?}", other),
    }
    assert_eq!(c.entries.len(), 1);
    assert_eq!(c.entries[0].id, "good");
}

#[test]
fn load_entries_fails_on_a_malformed_first_file() {
    let mut c = conf(None, vec![]);
    let listing = Listing::Files {
        files: vec![listed("bad", &["linux /k"]), listed("good", &["title Good", "linux /good"])],
        failure: Some(io_failure()),
    };
    match c.load_entries(listing) {
        Err(Error::Entry { path, source }) => {
            assert_eq!(path, PathBuf::from("/boot/efi/loader/entries/bad.conf"));
            assert!(matches!(source, EntryError::MisisngTitle));
        },
        other => panic!("{:?}", other),
    }
    assert!(c.entries.is_empty());
}

#[test]
fn load_entries_of_a_directory_that_was_not_read_keeps_the_entries() {
    let mut c = conf(None, vec![boot_entry("kept", None, &[])]);
    assert!(matches!(c.load_entries(Listing::Unread(io_failure())), Err(Error::EntriesDir(_))));
    assert_eq!(c.entries.len(), 1);
    assert_eq!(c.entries[0].id, "kept");
}

#[test]
fn load_entries_tells_a_broken_listing_after_its_files() {
    let mut c = conf(None, vec![boot_entry("stale", None, &[])]);
    let listing = Listing::Files {
        files: vec![listed("a", &["title A", "linux /a"])],
        failure: Some(io_failure()),
    };
    assert!(matches!(c.load_entries(listing), Err(Error::FileEntry(_))));
    assert_eq!(c.entries.len(), 1);
    assert_eq!(c.entries[0].id, "a");
}

#[test]
fn load_entries_refuses_a_listed_file_that_is_gone() {
    let mut c = conf(None, vec![]);
    let gone = EntryFile {
        path: PathBuf::from("/entries/gone.conf"),
        stem: Stem::Name("gone".to_string()),
        source: Source::Missing,
    };
    let listing = Listing::Files { files: vec![gone], failure: None };
    assert!(matches!(
        c.load_entries(listing),
        Err(Error::Entry { source: EntryError::NotAFile, .. })
    ));
}

#[test]
fn new_loads_policy_and_entries() {
    let loader = Source::Text { lines: file_lines(&["default a", "timeout 5"]), failure: None };
    let listing = Listing::Files { files: vec![listed("a", &["title A", "linux /a"])], failure: None };
    let c = open(loader, listing).unwrap();
    assert_eq!(c.efi_mount, PathBuf::from("/boot/efi"));
    assert_eq!(c.entries_path, PathBuf::from("/boot/efi/loader/entries"));
    assert_eq!(c.loader_path, PathBuf::from("/boot/efi/loader/loader.conf"));
    assert_eq!(c.loader_conf.default.as_deref(), Some("a"));
    assert_eq!(c.loader_conf.timeout, Some(5));
    assert_eq!(c.entries.len(), 1);
    assert!(matches!(c.default_entry_exists(), DefaultState::Exists));
}

#[test]
fn new_without_a_policy_file_sets_nothing() {
    let c = open(Source::Missing, Listing::Files { files: vec![], failure: None }).unwrap();
    assert_eq!(c.loader_conf.default, None);
    assert_eq!(c.loader_conf.timeout, None);
    assert!(c.entries.is_empty());
    assert!(matches!(c.default_entry_exists(), DefaultState::NotDefined));
}

#[test]
fn new_tells_a_refused_policy_first() {
    let loader = Source::Text { lines: file_lines(&["default"]), failure: None };
    match open(loader, Listing::Unread(io_failure())) {
        Err(Error::Loader { path, source: LoaderError::NoValueForDefault }) => {
            assert_eq!(path, PathBuf::from("/boot/efi/loader/loader.conf"))
        },
        other => panic!("{:?}", other),
    }
}

#[test]
fn new_tells_what_the_listing_failed_on() {
    assert!(matches!(open(Source::Missing, Listing::Unread(io_failure())), Err(Error::EntriesDir(_))));
    let listing = Listing::Files { files: vec![listed("bad", &["title T"])], failure: None };
    assert!(matches!(
        open(Source::Missing, listing),
        Err(Error::Entry { source: EntryError::MissingLinux, .. })
    ));
    let listing = Listing::Files { files: vec![], failure: Some(io_failure()) };
    assert!(matches!(open(Source::Missing, listing), Err(Error::FileEntry(_))));
}

#[test]
fn overwrite_loader_conf_gives_the_lines() {
    let mut c = conf(Some("a"), vec![]);
    c.loader_conf.timeout = Some(10);
    assert_eq!(c.overwrite_loader_conf(), vec!["default a", "timeout 10"]);
    c.loader_conf.default = None;
    assert_eq!(c.overwrite_loader_conf(), vec!["timeout 10"]);
}

#[test]
fn overwrite_entry_conf_gives_name_and_lines() {
    let c = conf(None, vec![boot_entry("a", None, &[]), boot_entry("b", Some("/i"), &["x", "y"])]);
    let (name, lines) = c.overwrite_entry_conf("b").unwrap();
    assert_eq!(name, "b.conf");
    assert_eq!(lines, vec!["title Title of b", "linux /EFI/b/vmlinuz", "initrd /i", "options: x y"]);
}

#[test]
fn overwrite_entry_conf_of_an_unknown_entry_is_not_found() {
    let c = conf(None, vec![boot_entry("a", None, &[])]);
    assert!(matches!(c.overwrite_entry_conf("b"), Err(Error::NotFound)));
}
