//! Boot entries: one file of the entries directory each.

use vstd::prelude::*;
use vstd::string::*;
use crate::source::{Source, Stem};
use crate::text::{join_words, joined, same_text, split_whitespace, words, chars_of};

verus! {

/// Why an entry file could not be read.
#[derive(Debug)]
pub enum EntryError {
    /// A line of the file could not be read.
    Line(std::io::Error),
    /// No `linux` line gave a kernel.
    MissingLinux,
    /// No `title` line gave a title.
    MisisngTitle,
    /// The path names no regular file.
    NotAFile,
    /// The path has no file name.
    NoFilename,
    /// An `initrd` line without a value.
    NoValueForInitrd,
    /// A `linux` line without a value.
    NoValueForLinux,
    /// The file could not be opened.
    Open(std::io::Error),
    /// The file name is not valid UTF-8.
    Utf8Filename,
}

/// One boot entry.
#[derive(Debug, Clone)]
pub struct Entry {
    /// The file's base name without its extension.
    pub id: String,
    /// The initial ramdisk, if the entry has one.
    pub initrd: Option<String>,
    /// The kernel image.
    pub linux: String,
    /// The kernel's command line, word by word.
    pub options: Vec<String>,
    /// The name shown in the boot menu.
    pub title: String,
}

/// An entry as the contracts see it.
pub struct EntryView {
    pub id: Seq<char>,
    pub initrd: Option<Seq<char>>,
    pub linux: Seq<char>,
    pub options: Seq<Seq<char>>,
    pub title: Seq<char>,
}

impl View for Entry {
    type V = EntryView;

    open spec fn view(&self) -> EntryView {
        EntryView {
            id: self.id@,
            initrd: match self.initrd {
                Some(path) => Some(path@),
                None => None,
            },
            linux: self.linux@,
            options: self.options.deep_view(),
            title: self.title@,
        }
    }
}

/// The entry of a file of which no line has been read.
pub open spec fn blank_entry(id: Seq<char>) -> EntryView {
    EntryView {
        id,
        initrd: None,
        linux: Seq::empty(),
        options: Seq::empty(),
        title: Seq::empty(),
    }
}

/// What one line makes of the entry read so far. The first word is the key.
/// `title` takes the other words, joined by single spaces; `linux` and
/// `initrd` take the next word and fail without one; `options` takes the
/// other words as they are. A line with another key, or without words,
/// changes nothing.
pub open spec fn line_read(entry: EntryView, line: Seq<char>) -> Result<EntryView, EntryError> {
    let fields = words(line);
    if fields.len() == 0 {
        Ok(entry)
    } else if fields[0] == "title"@ {
        Ok(EntryView { title: joined(fields.skip(1), " "@), ..entry })
    } else if fields[0] == "linux"@ {
        if fields.len() < 2 {
            Err(EntryError::NoValueForLinux)
        } else {
            Ok(EntryView { linux: fields[1], ..entry })
        }
    } else if fields[0] == "initrd"@ {
        if fields.len() < 2 {
            Err(EntryError::NoValueForInitrd)
        } else {
            Ok(EntryView { initrd: Some(fields[1]), ..entry })
        }
    } else if fields[0] == "options"@ {
        Ok(EntryView { options: fields.skip(1), ..entry })
    } else {
        Ok(entry)
    }
}

/// What the lines make of the entry, read in order up to the first that
/// fails.
pub open spec fn lines_read(entry: EntryView, lines: Seq<Seq<char>>) -> Result<
    EntryView,
    EntryError,
>
    decreases lines.len(),
{
    if lines.len() == 0 {
        Ok(entry)
    } else {
        match line_read(entry, lines[0]) {
            Ok(next) => lines_read(next, lines.drop_first()),
            Err(error) => Err(error),
        }
    }
}

/// Reading lines leaves the id as it was.
pub proof fn lemma_lines_read_id(entry: EntryView, lines: Seq<Seq<char>>)
    requires
        lines_read(entry, lines) is Ok,
    ensures
        lines_read(entry, lines)->Ok_0.id == entry.id,
    decreases lines.len(),
{
    if lines.len() > 0 {
        lemma_lines_read_id(line_read(entry, lines[0])->Ok_0, lines.drop_first());
    }
}

/// An entry that has been read to the end must have a title and a kernel.
pub open spec fn completed(entry: EntryView) -> Result<EntryView, EntryError> {
    if entry.title.len() == 0 {
        Err(EntryError::MisisngTitle)
    } else if entry.linux.len() == 0 {
        Err(EntryError::MissingLinux)
    } else {
        Ok(entry)
    }
}

/// Whether the entry has what every entry must have: a title and a kernel.
pub open spec fn is_complete(entry: EntryView) -> bool {
    entry.title.len() > 0 && entry.linux.len() > 0
}

/// The entry that the lines of a file define.
pub open spec fn parsed_entry(id: Seq<char>, lines: Seq<Seq<char>>) -> Result<
    EntryView,
    EntryError,
> {
    match lines_read(blank_entry(id), lines) {
        Ok(entry) => completed(entry),
        Err(error) => Err(error),
    }
}

/// The entry that a path gives. A path that names no regular file is
/// refused first, then one without a usable name, then a file that did not
/// open. The lines that were read are taken in order; a failed read counts
/// after them, and what the entry lacks is looked at last.
pub open spec fn entry_found(stem: Stem, source: Source) -> Result<EntryView, EntryError> {
    match source {
        Source::Missing => Err(EntryError::NotAFile),
        Source::NotAFile => Err(EntryError::NotAFile),
        Source::Unopened(cause) => match stem {
            Stem::Missing => Err(EntryError::NoFilename),
            Stem::NotUtf8 => Err(EntryError::Utf8Filename),
            Stem::Name(_) => Err(EntryError::Open(cause)),
        },
        Source::Text { lines, failure } => match stem {
            Stem::Missing => Err(EntryError::NoFilename),
            Stem::NotUtf8 => Err(EntryError::Utf8Filename),
            Stem::Name(id) => match lines_read(blank_entry(id@), lines.deep_view()) {
                Err(error) => Err(error),
                Ok(entry) => match failure {
                    Some(cause) => Err(EntryError::Line(cause)),
                    None => completed(entry),
                },
            },
        },
    }
}

/// A result with the entry in it replaced by its view.
pub open spec fn viewed(result: Result<Entry, EntryError>) -> Result<EntryView, EntryError> {
    match result {
        Ok(entry) => Ok(entry@),
        Err(error) => Err(error),
    }
}

/// An initrd path as the kernel command line writes it: each slash turned
/// into a backslash.
pub open spec fn backslashed(path: Seq<char>) -> Seq<char> {
    path.map_values(
        |c: char|
            if c == '/' {
                '\\'
            } else {
                c
            },
    )
}

/// The command line that the entry boots with: the initrd, if there is one,
/// as `initrd=` and its path with backslashes, then the options.
pub open spec fn expected_cmdline(entry: EntryView) -> Seq<Seq<char>> {
    match entry.initrd {
        Some(path) => seq!["initrd="@ + backslashed(path)] + entry.options,
        None => entry.options,
    }
}

/// Whether two command lines hold the same word at every place that both
/// have. Words beyond the end of the shorter one are not looked at.
pub open spec fn agree(live: Seq<Seq<char>>, expected: Seq<Seq<char>>) -> bool {
    forall|i: int| 0 <= i < live.len() && i < expected.len() ==> live[i] == expected[i]
}

/// The lines of an entry's file: the title, the kernel, the initrd if there
/// is one, and the options if there are any, after the key `options:`.
pub open spec fn entry_lines(entry: EntryView) -> Seq<Seq<char>> {
    seq!["title "@ + entry.title, "linux "@ + entry.linux] + (match entry.initrd {
        Some(path) => seq!["initrd "@ + path],
        None => Seq::empty(),
    }) + (if entry.options.len() > 0 {
        seq!["options: "@ + joined(entry.options, " "@)]
    } else {
        Seq::empty()
    })
}

/// Turns each slash of a path into a backslash.
pub fn backslash(path: &str) -> (text: String)
    ensures
        text@ == backslashed(path@),
{
    let chars = chars_of(path);
    let n = chars.len();
    let mut text = String::new();
    let mut from: usize = 0;
    let mut i: usize = 0;
    while i < n
        invariant
            chars@ == path@,
            n == chars.len(),
            from <= i <= n,
            text@ == backslashed(path@.take(from as int)),
            forall|k: int| from <= k < i ==> path@[k] != '/',
        decreases n - i,
    {
        if chars[i] == '/' {
            text.append(path.substring_char(from, i));
            text.append("\\");
            proof {
                reveal_strlit("\\");
            }
            from = i + 1;
        }
        i = i + 1;
    }
    text.append(path.substring_char(from, n));
    text
}

impl Default for Entry {
    /// The entry without a name, of which no line has been read.
    fn default() -> (entry: Entry)
        ensures
            entry@ == blank_entry(Seq::empty()),
    {
        let entry = Entry {
            id: String::new(),
            initrd: None,
            linux: String::new(),
            options: Vec::new(),
            title: String::new(),
        };
        assert(entry.options.deep_view() =~= Seq::empty());
        entry
    }
}

impl Entry {
    /// Reads one line of the file into the entry. Where the line is
    /// refused, the entry stays as it was.
    pub fn read_line(&mut self, line: &str) -> (result: Result<(), EntryError>)
        ensures
            match result {
                Ok(_) => line_read(old(self)@, line@) == Ok::<EntryView, EntryError>(
                    final(self)@,
                ),
                Err(error) => line_read(old(self)@, line@) == Err::<EntryView, EntryError>(error)
                    && *final(self) == *old(self),
            },
    {
        let mut fields = split_whitespace(line);
        let ghost all = words(line@);
        if fields.len() == 0 {
            return Ok(());
        }
        let key = fields.remove(0);
        assert(fields.deep_view() =~= all.skip(1));
        if same_text(key.as_str(), "title") {
            proof {
                reveal_strlit(" ");
            }
            let rest = fields.as_slice();
            self.title = join_words(rest, " ");
        } else if same_text(key.as_str(), "linux") {
            if fields.len() == 0 {
                return Err(EntryError::NoValueForLinux);
            }
            self.linux = fields.remove(0);
        } else if same_text(key.as_str(), "initrd") {
            if fields.len() == 0 {
                return Err(EntryError::NoValueForInitrd);
            }
            self.initrd = Some(fields.remove(0));
        } else if same_text(key.as_str(), "options") {
            self.options = fields;
        }
        Ok(())
    }

    /// Reads the lines in order into an entry named `id`, up to the first
    /// that is refused.
    fn read_lines(id: String, lines: &Vec<String>) -> (result: Result<Entry, EntryError>)
        ensures
            viewed(result) == lines_read(blank_entry(id@), lines.deep_view()),
    {
        let mut entry = Entry {
            id,
            initrd: None,
            linux: String::new(),
            options: Vec::new(),
            title: String::new(),
        };
        let ghost all = lines.deep_view();
        assert(entry.options.deep_view() =~= Seq::empty());
        assert(all.skip(0) == all);
        let mut i: usize = 0;
        while i < lines.len()
            invariant
                i <= lines.len(),
                all == lines.deep_view(),
                lines_read(blank_entry(id@), all) == lines_read(entry@, all.skip(i as int)),
            decreases lines.len() - i,
        {
            assert(all.skip(i as int).drop_first() == all.skip(i + 1));
            match entry.read_line(lines[i].as_str()) {
                Ok(_) => {},
                Err(error) => {
                    return Err(error);
                },
            }
            i = i + 1;
        }
        Ok(entry)
    }

    /// Refuses an entry that lacks its title or its kernel.
    fn complete(self) -> (result: Result<Entry, EntryError>)
        ensures
            viewed(result) == completed(self@),
    {
        if self.title.as_str().is_empty() {
            Err(EntryError::MisisngTitle)
        } else if self.linux.as_str().is_empty() {
            Err(EntryError::MissingLinux)
        } else {
            Ok(self)
        }
    }

    /// Builds the entry named `id` that the lines of its file define.
    pub fn from_lines(id: String, lines: &Vec<String>) -> (result: Result<Entry, EntryError>)
        ensures
            viewed(result) == parsed_entry(id@, lines.deep_view()),
            result matches Ok(entry) ==> entry.id@ == id@ && is_complete(entry@),
    {
        proof {
            if lines_read(blank_entry(id@), lines.deep_view()) is Ok {
                lemma_lines_read_id(blank_entry(id@), lines.deep_view());
            }
        }
        match Entry::read_lines(id, lines) {
            Ok(entry) => entry.complete(),
            Err(error) => Err(error),
        }
    }

    /// Builds the entry of a path from the path's stem and what was found at
    /// the path.
    pub fn from_path(stem: Stem, source: Source) -> (result: Result<Entry, EntryError>)
        ensures
            viewed(result) == entry_found(stem, source),
            result matches Ok(entry) ==> stem matches Stem::Name(id) && entry.id@ == id@
                && is_complete(entry@),
    {
        proof {
            if source is Text && stem is Name {
                let start = blank_entry(stem->Name_0@);
                if lines_read(start, source->lines.deep_view()) is Ok {
                    lemma_lines_read_id(start, source->lines.deep_view());
                }
            }
        }
        match source {
            Source::Missing => Err(EntryError::NotAFile),
            Source::NotAFile => Err(EntryError::NotAFile),
            Source::Unopened(cause) => match stem {
                Stem::Missing => Err(EntryError::NoFilename),
                Stem::NotUtf8 => Err(EntryError::Utf8Filename),
                Stem::Name(_) => Err(EntryError::Open(cause)),
            },
            Source::Text { lines, failure } => match stem {
                Stem::Missing => Err(EntryError::NoFilename),
                Stem::NotUtf8 => Err(EntryError::Utf8Filename),
                Stem::Name(id) => match Entry::read_lines(id, &lines) {
                    Err(error) => Err(error),
                    Ok(entry) => match failure {
                        Some(cause) => Err(EntryError::Line(cause)),
                        None => entry.complete(),
                    },
                },
            },
        }
    }

    /// Whether the running kernel was booted from this entry, judged by the
    /// words of its command line.
    pub fn is_current(&self, cmdline: &[String]) -> (current: bool)
        ensures
            current == agree(cmdline.deep_view(), expected_cmdline(self@)),
    {
        let ghost live = cmdline.deep_view();
        let ghost expected = expected_cmdline(self@);
        let marker: Option<String> = match &self.initrd {
            Some(path) => Some(String::from_str("initrd=").concat(backslash(path.as_str()).as_str())),
            None => None,
        };
        let shift: usize = if marker.is_some() {
            1
        } else {
            0
        };
        let mut i: usize = 0;
        while i < cmdline.len()
            invariant
                i <= cmdline.len(),
                live == cmdline.deep_view(),
                expected == expected_cmdline(self@),
                shift == if self.initrd is Some { 1usize } else { 0usize },
                match marker {
                    Some(word) => self.initrd is Some && word@ == expected[0],
                    None => self.initrd is None,
                },
                forall|k: int| 0 <= k < i && k < expected.len() ==> live[k] == expected[k],
            decreases cmdline.len() - i,
        {
            if i < shift {
                let same = match &marker {
                    Some(word) => same_text(cmdline[i].as_str(), word.as_str()),
                    None => true,
                };
                if !same {
                    return false;
                }
            } else if i - shift < self.options.len() {
                if !same_text(cmdline[i].as_str(), self.options[i - shift].as_str()) {
                    assert(live[i as int] != expected[i as int]);
                    return false;
                }
            } else {
                return true;
            }
            i = i + 1;
        }
        true
    }

    /// The lines of the entry's file, in order, each without its line break.
    pub fn conf_lines(&self) -> (lines: Vec<String>)
        ensures
            lines.deep_view() == entry_lines(self@),
    {
        let mut lines: Vec<String> = Vec::new();
        lines.push(String::from_str("title ").concat(self.title.as_str()));
        lines.push(String::from_str("linux ").concat(self.linux.as_str()));
        match &self.initrd {
            Some(path) => {
                lines.push(String::from_str("initrd ").concat(path.as_str()));
            },
            None => {},
        }
        if self.options.len() > 0 {
            proof {
                reveal_strlit(" ");
            }
            let words = self.options.as_slice();
            let options = join_words(words, " ");
            lines.push(String::from_str("options: ").concat(options.as_str()));
        }
        lines
    }
}

} // verus!
