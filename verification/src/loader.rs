//! The loader policy: the one file that names the default entry and the
//! time the boot menu waits.

use vstd::prelude::*;
use vstd::string::*;
use crate::number::{decimal_text, parse_u32, parsed_u32, u32_text};
use crate::source::Source;
use crate::text::{same_text, split_whitespace, words};

verus! {

/// Why the loader policy could not be read.
#[derive(Debug)]
pub enum LoaderError {
    /// A line of the file could not be read.
    Line(std::io::Error),
    /// The path names something that is no regular file.
    NotAFile,
    /// A `default` line without a value.
    NoValueForDefault,
    /// A `timeout` line without a value.
    NoValueForTimeout,
    /// The file could not be opened.
    Open(std::io::Error),
    /// A `timeout` line whose value, held here, is no number.
    TimeoutNaN(String),
}

/// A loader error as the contracts see it.
pub enum LoaderErrorView {
    Line(std::io::Error),
    NotAFile,
    NoValueForDefault,
    NoValueForTimeout,
    Open(std::io::Error),
    TimeoutNaN(Seq<char>),
}

impl View for LoaderError {
    type V = LoaderErrorView;

    open spec fn view(&self) -> LoaderErrorView {
        match *self {
            LoaderError::Line(cause) => LoaderErrorView::Line(cause),
            LoaderError::NotAFile => LoaderErrorView::NotAFile,
            LoaderError::NoValueForDefault => LoaderErrorView::NoValueForDefault,
            LoaderError::NoValueForTimeout => LoaderErrorView::NoValueForTimeout,
            LoaderError::Open(cause) => LoaderErrorView::Open(cause),
            LoaderError::TimeoutNaN(text) => LoaderErrorView::TimeoutNaN(text@),
        }
    }
}

/// The loader policy.
#[derive(Debug, Clone)]
pub struct LoaderConf {
    /// The entry that boots when nothing is chosen, by its id.
    pub default: Option<String>,
    /// The seconds that the boot menu waits.
    pub timeout: Option<u32>,
}

/// A loader policy as the contracts see it.
pub struct LoaderConfView {
    pub default: Option<Seq<char>>,
    pub timeout: Option<u32>,
}

impl View for LoaderConf {
    type V = LoaderConfView;

    open spec fn view(&self) -> LoaderConfView {
        LoaderConfView {
            default: match self.default {
                Some(id) => Some(id@),
                None => None,
            },
            timeout: self.timeout,
        }
    }
}

/// The policy that sets nothing.
pub open spec fn blank_policy() -> LoaderConfView {
    LoaderConfView { default: None, timeout: None }
}

/// What one line makes of the policy read so far. The first word is the
/// key. `default` takes the next word; `timeout` takes the next word as a
/// number; both fail without one, and `timeout` fails on a word that is no
/// number, which the error then holds. A line with another key, or without
/// words, changes nothing.
pub open spec fn policy_line_read(policy: LoaderConfView, line: Seq<char>) -> Result<
    LoaderConfView,
    LoaderErrorView,
> {
    let fields = words(line);
    if fields.len() == 0 {
        Ok(policy)
    } else if fields[0] == "default"@ {
        if fields.len() < 2 {
            Err(LoaderErrorView::NoValueForDefault)
        } else {
            Ok(LoaderConfView { default: Some(fields[1]), ..policy })
        }
    } else if fields[0] == "timeout"@ {
        if fields.len() < 2 {
            Err(LoaderErrorView::NoValueForTimeout)
        } else {
            match parsed_u32(fields[1]) {
                Some(seconds) => Ok(LoaderConfView { timeout: Some(seconds), ..policy }),
                None => Err(LoaderErrorView::TimeoutNaN(fields[1])),
            }
        }
    } else {
        Ok(policy)
    }
}

/// What the lines make of the policy, read in order up to the first that
/// fails.
pub open spec fn policy_lines_read(policy: LoaderConfView, lines: Seq<Seq<char>>) -> Result<
    LoaderConfView,
    LoaderErrorView,
>
    decreases lines.len(),
{
    if lines.len() == 0 {
        Ok(policy)
    } else {
        match policy_line_read(policy, lines[0]) {
            Ok(next) => policy_lines_read(next, lines.drop_first()),
            Err(error) => Err(error),
        }
    }
}

/// The policy that the lines of a file define.
pub open spec fn parsed_policy(lines: Seq<Seq<char>>) -> Result<LoaderConfView, LoaderErrorView> {
    policy_lines_read(blank_policy(), lines)
}

/// The policy that a path gives. Where nothing stands at the path, the
/// policy sets nothing. What is no regular file is refused, then a file that
/// did not open. The lines that were read are taken in order, and a failed
/// read counts after them.
pub open spec fn policy_found(source: Source) -> Result<LoaderConfView, LoaderErrorView> {
    match source {
        Source::Missing => Ok(blank_policy()),
        Source::NotAFile => Err(LoaderErrorView::NotAFile),
        Source::Unopened(cause) => Err(LoaderErrorView::Open(cause)),
        Source::Text { lines, failure } => match parsed_policy(lines.deep_view()) {
            Err(error) => Err(error),
            Ok(policy) => match failure {
                Some(cause) => Err(LoaderErrorView::Line(cause)),
                None => Ok(policy),
            },
        },
    }
}

/// A result with the policy and the error in it replaced by their views.
pub open spec fn policy_viewed(result: Result<LoaderConf, LoaderError>) -> Result<
    LoaderConfView,
    LoaderErrorView,
> {
    match result {
        Ok(policy) => Ok(policy@),
        Err(error) => Err(error@),
    }
}

/// The lines of the policy's file: the default entry if one is set, then
/// the timeout if one is set.
pub open spec fn policy_lines(policy: LoaderConfView) -> Seq<Seq<char>> {
    (match policy.default {
        Some(id) => seq!["default "@ + id],
        None => Seq::empty(),
    }) + (match policy.timeout {
        Some(seconds) => seq!["timeout "@ + decimal_text(seconds as nat)],
        None => Seq::empty(),
    })
}

impl Default for LoaderConf {
    /// The policy that sets nothing.
    fn default() -> (policy: LoaderConf)
        ensures
            policy@ == blank_policy(),
    {
        LoaderConf { default: None, timeout: None }
    }
}

impl LoaderConf {
    /// Reads one line of the file into the policy. Where the line is
    /// refused, the policy stays as it was.
    pub fn read_line(&mut self, line: &str) -> (result: Result<(), LoaderError>)
        ensures
            match result {
                Ok(_) => policy_line_read(old(self)@, line@) == Ok::<
                    LoaderConfView,
                    LoaderErrorView,
                >(final(self)@),
                Err(error) => policy_line_read(old(self)@, line@) == Err::<
                    LoaderConfView,
                    LoaderErrorView,
                >(error@) && *final(self) == *old(self),
            },
    {
        let mut fields = split_whitespace(line);
        let ghost all = words(line@);
        if fields.len() == 0 {
            return Ok(());
        }
        let key = fields.remove(0);
        if same_text(key.as_str(), "default") {
            if fields.len() == 0 {
                return Err(LoaderError::NoValueForDefault);
            }
            self.default = Some(fields.remove(0));
        } else if same_text(key.as_str(), "timeout") {
            if fields.len() == 0 {
                return Err(LoaderError::NoValueForTimeout);
            }
            let value = fields.remove(0);
            match parse_u32(value.as_str()) {
                Some(seconds) => {
                    self.timeout = Some(seconds);
                },
                None => {
                    return Err(LoaderError::TimeoutNaN(value));
                },
            }
        }
        Ok(())
    }

    /// Builds the policy that the lines of its file define.
    pub fn from_lines(lines: &Vec<String>) -> (result: Result<LoaderConf, LoaderError>)
        ensures
            policy_viewed(result) == parsed_policy(lines.deep_view()),
    {
        let mut policy = LoaderConf { default: None, timeout: None };
        let ghost all = lines.deep_view();
        assert(all.skip(0) == all);
        let mut i: usize = 0;
        while i < lines.len()
            invariant
                i <= lines.len(),
                all == lines.deep_view(),
                parsed_policy(all) == policy_lines_read(policy@, all.skip(i as int)),
            decreases lines.len() - i,
        {
            assert(all.skip(i as int).drop_first() == all.skip(i + 1));
            match policy.read_line(lines[i].as_str()) {
                Ok(_) => {},
                Err(error) => {
                    return Err(error);
                },
            }
            i = i + 1;
        }
        Ok(policy)
    }

    /// Builds the policy from what was found at its path. A path at which
    /// nothing stands gives the policy that sets nothing.
    pub fn from_path(source: Source) -> (result: Result<LoaderConf, LoaderError>)
        ensures
            policy_viewed(result) == policy_found(source),
            source is Missing ==> result is Ok && result->Ok_0.default is None
                && result->Ok_0.timeout is None,
    {
        match source {
            Source::Missing => Ok(LoaderConf { default: None, timeout: None }),
            Source::NotAFile => Err(LoaderError::NotAFile),
            Source::Unopened(cause) => Err(LoaderError::Open(cause)),
            Source::Text { lines, failure } => match LoaderConf::from_lines(&lines) {
                Err(error) => Err(error),
                Ok(policy) => match failure {
                    Some(cause) => Err(LoaderError::Line(cause)),
                    None => Ok(policy),
                },
            },
        }
    }

    /// The lines of the policy's file, in order, each without its line
    /// break.
    pub fn conf_lines(&self) -> (lines: Vec<String>)
        ensures
            lines.deep_view() == policy_lines(self@),
    {
        let mut lines: Vec<String> = Vec::new();
        match &self.default {
            Some(id) => {
                lines.push(String::from_str("default ").concat(id.as_str()));
            },
            None => {},
        }
        match self.timeout {
            Some(seconds) => {
                lines.push(String::from_str("timeout ").concat(u32_text(seconds).as_str()));
            },
            None => {},
        }
        lines
    }
}

} // verus!
