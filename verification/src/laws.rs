//! What holds of reading and writing the two files, whatever they hold, and
//! of the match against the live command line.

use vstd::prelude::*;
use crate::entry::{
    blank_entry, entry_lines, lemma_lines_read_id, line_read, lines_read, parsed_entry,
    EntryError, EntryView,
};
use crate::entry::agree;
use crate::{file_entry, good_files, listing_result, Error};
use crate::loader::{
    blank_policy, parsed_policy, policy_line_read, policy_lines, policy_lines_read,
    LoaderConfView, LoaderErrorView,
};
use crate::number::{
    all_digits, decimal_text, decimal_value, digit_char, digit_value, is_digit, parsed_u32,
};
use crate::source::{EntryFile, Listing};
use crate::text::{
    is_word, joined, lemma_split_after_word, lemma_split_gives_words, lemma_split_joined,
    lemma_split_word, words,
};

verus! {

/// What reading leaves in an entry: a title that is empty or made of words
/// with single spaces between them, a kernel that is empty or one word, an
/// initrd of one word, and options that are words.
pub open spec fn is_read(entry: EntryView) -> bool {
    &&& joined(words(entry.title), " "@) == entry.title
    &&& entry.linux.len() == 0 || is_word(entry.linux, false)
    &&& entry.initrd matches Some(path) ==> is_word(path, false)
    &&& forall|i: int| 0 <= i < entry.options.len() ==> is_word(#[trigger] entry.options[i], false)
}

/// The five keys are words, and no two of them are the same.
pub proof fn lemma_keys()
    ensures
        is_word("title"@, false),
        is_word("linux"@, false),
        is_word("initrd"@, false),
        is_word("options"@, false),
        is_word("options:"@, false),
        "title"@ != "linux"@,
        "title"@.len() == 5,
        "linux"@.len() == 5,
        "initrd"@.len() == 6,
        "options"@.len() == 7,
        "options:"@.len() == 8,
        "title "@ == "title"@ + seq![' '],
        "linux "@ == "linux"@ + seq![' '],
        "initrd "@ == "initrd"@ + seq![' '],
        "options: "@ == "options:"@ + seq![' '],
        " "@ == seq![' '],
{
    reveal_strlit("title");
    reveal_strlit("linux");
    reveal_strlit("initrd");
    reveal_strlit("options");
    reveal_strlit("options:");
    reveal_strlit("title ");
    reveal_strlit("linux ");
    reveal_strlit("initrd ");
    reveal_strlit("options: ");
    reveal_strlit(" ");
    assert("title"@[0] != "linux"@[0]);
}

/// A line that is read leaves an entry as reading leaves it.
pub proof fn lemma_line_read_keeps(entry: EntryView, line: Seq<char>)
    requires
        is_read(entry),
        line_read(entry, line) is Ok,
    ensures
        is_read(line_read(entry, line)->Ok_0),
{
    lemma_keys();
    let fields = words(line);
    lemma_split_gives_words(line, false);
    if fields.len() > 0 {
        let values = fields.skip(1);
        assert forall|i: int| 0 <= i < values.len() implies is_word(#[trigger] values[i], false) by {
            assert(values[i] == fields[i + 1]);
        }
        if fields[0] == "title"@ {
            lemma_split_joined(values, false);
        } else if fields.len() >= 2 {
            assert(is_word(fields[1], false));
        }
    }
}

/// Lines that are read leave an entry as reading leaves it.
pub proof fn lemma_lines_read_keep(entry: EntryView, lines: Seq<Seq<char>>)
    requires
        is_read(entry),
        lines_read(entry, lines) is Ok,
    ensures
        is_read(lines_read(entry, lines)->Ok_0),
    decreases lines.len(),
{
    if lines.len() > 0 {
        lemma_line_read_keeps(entry, lines[0]);
        lemma_lines_read_keep(line_read(entry, lines[0])->Ok_0, lines.drop_first());
    }
}

/// Reading lines one after another is reading the first lot, then the
/// second from where the first ended.
pub proof fn lemma_lines_read_append(
    entry: EntryView,
    front: Seq<Seq<char>>,
    back: Seq<Seq<char>>,
)
    ensures
        lines_read(entry, front + back) == match lines_read(entry, front) {
            Ok(middle) => lines_read(middle, back),
            Err(error) => Err(error),
        },
    decreases front.len(),
{
    if front.len() == 0 {
        assert(front + back == back);
    } else {
        assert((front + back).drop_first() == front.drop_first() + back);
        match line_read(entry, front[0]) {
            Ok(next) => {
                lemma_lines_read_append(next, front.drop_first(), back);
            },
            Err(_) => {},
        }
    }
}

/// Reading a single line.
pub proof fn lemma_lines_read_one(entry: EntryView, line: Seq<char>)
    ensures
        lines_read(entry, seq![line]) == line_read(entry, line),
{
    let lines = seq![line];
    match line_read(entry, line) {
        Ok(next) => {
            assert(lines_read(next, lines.drop_first()) == Ok::<EntryView, EntryError>(next));
        },
        Err(_) => {},
    }
}

/// The title line that is written reads back as the title.
pub proof fn lemma_title_line(entry: EntryView, title: Seq<char>)
    requires
        joined(words(title), " "@) == title,
    ensures
        line_read(entry, "title "@ + title) == Ok::<EntryView, EntryError>(
            EntryView { title, ..entry },
        ),
{
    lemma_keys();
    lemma_split_after_word("title"@, title, false);
    let fields = words("title "@ + title);
    assert(fields.skip(1) == words(title));
}

/// A line that is written with the key `linux` or `initrd` and a word has
/// these two words.
pub proof fn lemma_key_and_word(key: Seq<char>, value: Seq<char>)
    requires
        is_word(key, false),
        is_word(value, false),
    ensures
        words(key + seq![' '] + value) == seq![key, value],
{
    lemma_split_after_word(key, value, false);
    lemma_split_word(value, false);
}

/// The options line that is written has a key that is none of the
/// parser's, so reading it changes nothing.
pub proof fn lemma_written_options_line(entry: EntryView, options: Seq<Seq<char>>)
    requires
        forall|i: int| 0 <= i < options.len() ==> is_word(#[trigger] options[i], false),
    ensures
        line_read(entry, "options: "@ + joined(options, " "@)) == Ok::<EntryView, EntryError>(
            entry,
        ),
{
    lemma_keys();
    lemma_split_after_word("options:"@, joined(options, " "@), false);
    let fields = words("options: "@ + joined(options, " "@));
    assert(fields[0] == "options:"@);
}

/// What was read from a file, written and read again, is the same title,
/// kernel and initrd. The options are written after the key `options:`,
/// which the parser does not know: read again they are empty, and so the
/// same only where there were none.
pub proof fn lemma_round_trip(id: Seq<char>, lines: Seq<Seq<char>>)
    requires
        parsed_entry(id, lines) is Ok,
    ensures
        ({
            let entry = parsed_entry(id, lines)->Ok_0;
            parsed_entry(id, entry_lines(entry)) == Ok::<EntryView, EntryError>(
                EntryView { options: Seq::empty(), ..entry },
            )
        }),
{
    lemma_keys();
    let entry = parsed_entry(id, lines)->Ok_0;
    assert(is_read(blank_entry(id))) by {
        assert(words(Seq::<char>::empty()).len() == 0);
    }
    lemma_lines_read_keep(blank_entry(id), lines);
    assert(entry.id == id) by {
        lemma_lines_read_id(blank_entry(id), lines);
    }
    let start = blank_entry(id);
    let first = EntryView { title: entry.title, ..start };
    let second = EntryView { linux: entry.linux, ..first };
    let third = EntryView { initrd: entry.initrd, ..second };
    let title_line = "title "@ + entry.title;
    let linux_line = "linux "@ + entry.linux;
    lemma_title_line(start, entry.title);
    lemma_key_and_word("linux"@, entry.linux);
    let head = seq![title_line, linux_line];
    assert(head == seq![title_line] + seq![linux_line]);
    lemma_lines_read_one(start, title_line);
    lemma_lines_read_one(first, linux_line);
    lemma_lines_read_append(start, seq![title_line], seq![linux_line]);
    let middle = match entry.initrd {
        Some(path) => seq!["initrd "@ + path],
        None => Seq::<Seq<char>>::empty(),
    };
    match entry.initrd {
        Some(path) => {
            lemma_key_and_word("initrd"@, path);
            lemma_lines_read_one(second, "initrd "@ + path);
        },
        None => {},
    }
    let tail = if entry.options.len() > 0 {
        seq!["options: "@ + joined(entry.options, " "@)]
    } else {
        Seq::<Seq<char>>::empty()
    };
    if entry.options.len() > 0 {
        lemma_written_options_line(third, entry.options);
        lemma_lines_read_one(third, "options: "@ + joined(entry.options, " "@));
    }
    lemma_lines_read_append(start, head, middle);
    lemma_lines_read_append(start, head + middle, tail);
}

/// Whether the first word of the line is the key.
pub open spec fn has_key(line: Seq<char>, key: Seq<char>) -> bool {
    words(line).len() > 0 && words(line)[0] == key
}

/// Whether a word follows the first word of the line.
pub open spec fn has_value(line: Seq<char>) -> bool {
    words(line).len() >= 2
}

/// A line that the grammar accepts: `linux` and `initrd` have their value.
pub open spec fn is_accepted(line: Seq<char>) -> bool {
    has_key(line, "linux"@) || has_key(line, "initrd"@) ==> has_value(line)
}

/// A text of which the grammar accepts every line.
pub open spec fn is_well_formed(lines: Seq<Seq<char>>) -> bool {
    forall|i: int| 0 <= i < lines.len() ==> is_accepted(#[trigger] lines[i])
}

/// Whether the line at `at` is the last `title` line, and has a value.
pub open spec fn title_given_at(lines: Seq<Seq<char>>, at: int) -> bool {
    &&& 0 <= at < lines.len()
    &&& has_key(lines[at], "title"@)
    &&& has_value(lines[at])
    &&& forall|j: int| at < j < lines.len() ==> !has_key(#[trigger] lines[j], "title"@)
}

/// Whether the text gives a title: its last `title` line has a value.
pub open spec fn gives_title(lines: Seq<Seq<char>>) -> bool {
    exists|at: int| title_given_at(lines, at)
}

/// Whether the line at `at` is a `linux` line.
pub open spec fn linux_given_at(lines: Seq<Seq<char>>, at: int) -> bool {
    0 <= at < lines.len() && has_key(lines[at], "linux"@)
}

/// Whether the text has a `linux` line.
pub open spec fn gives_linux(lines: Seq<Seq<char>>) -> bool {
    exists|at: int| linux_given_at(lines, at)
}

/// A line is read if and only if the grammar accepts it.
pub proof fn lemma_accepted_line(entry: EntryView, line: Seq<char>)
    ensures
        line_read(entry, line) is Ok <==> is_accepted(line),
        has_key(line, "linux"@) && !has_value(line) ==> line_read(entry, line) == Err::<
            EntryView,
            EntryError,
        >(EntryError::NoValueForLinux),
        has_key(line, "initrd"@) && !has_value(line) ==> line_read(entry, line) == Err::<
            EntryView,
            EntryError,
        >(EntryError::NoValueForInitrd),
{
    lemma_keys();
}

/// An `options` line without a value leaves no options, and is no error.
pub proof fn lemma_bare_options_line(entry: EntryView, line: Seq<char>)
    requires
        has_key(line, "options"@),
        !has_value(line),
    ensures
        line_read(entry, line) == Ok::<EntryView, EntryError>(
            EntryView { options: Seq::empty(), ..entry },
        ),
{
    lemma_keys();
    assert(words(line).skip(1) == Seq::<Seq<char>>::empty());
}

/// Words joined are an empty text only where there are no words.
pub proof fn lemma_joined_len(words: Seq<Seq<char>>, sep: Seq<char>)
    requires
        forall|i: int| 0 <= i < words.len() ==> is_word(#[trigger] words[i], false),
    ensures
        joined(words, sep).len() > 0 <==> words.len() > 0,
{
    if words.len() > 0 {
        assert(is_word(words[0], false));
    }
}

/// What a line that is read does to the title and to the kernel.
pub proof fn lemma_line_read_fields(entry: EntryView, line: Seq<char>)
    requires
        is_accepted(line),
    ensures
        line_read(entry, line) is Ok,
        ({
            let next = line_read(entry, line)->Ok_0;
            &&& has_key(line, "title"@) ==> (next.title.len() > 0 <==> has_value(line))
            &&& !has_key(line, "title"@) ==> next.title == entry.title
            &&& has_key(line, "linux"@) ==> next.linux.len() > 0
            &&& !has_key(line, "linux"@) ==> next.linux == entry.linux
        }),
{
    lemma_keys();
    lemma_split_gives_words(line, false);
    let fields = words(line);
    if fields.len() > 0 {
        let values = fields.skip(1);
        assert forall|i: int| 0 <= i < values.len() implies is_word(#[trigger] values[i], false) by {
            assert(values[i] == fields[i + 1]);
        }
        lemma_joined_len(values, " "@);
        if fields.len() >= 2 {
            assert(is_word(fields[1], false));
        }
    }
}

/// A well-formed text is read to its end. The entry then has a title if and
/// only if the text gives one, and a kernel if and only if the text has a
/// `linux` line.
pub proof fn lemma_well_formed_read(id: Seq<char>, lines: Seq<Seq<char>>)
    requires
        is_well_formed(lines),
    ensures
        lines_read(blank_entry(id), lines) is Ok,
        lines_read(blank_entry(id), lines)->Ok_0.title.len() > 0 <==> gives_title(lines),
        lines_read(blank_entry(id), lines)->Ok_0.linux.len() > 0 <==> gives_linux(lines),
    decreases lines.len(),
{
    let start = blank_entry(id);
    if lines.len() == 0 {
        assert(!gives_title(lines)) by {
            assert forall|at: int| !title_given_at(lines, at) by {}
        }
        assert(!gives_linux(lines)) by {
            assert forall|at: int| !linux_given_at(lines, at) by {}
        }
    } else {
        let front = lines.drop_last();
        let last = lines.last();
        let end = lines.len() - 1;
        assert(lines == front + seq![last]);
        assert forall|i: int| 0 <= i < front.len() implies is_accepted(#[trigger] front[i]) by {
            assert(front[i] == lines[i]);
        }
        lemma_well_formed_read(id, front);
        let middle = lines_read(start, front)->Ok_0;
        lemma_lines_read_append(start, front, seq![last]);
        lemma_lines_read_one(middle, last);
        lemma_line_read_fields(middle, last);
        let entry = lines_read(start, lines)->Ok_0;
        if has_key(last, "title"@) {
            if has_value(last) {
                assert(title_given_at(lines, end));
            } else {
                assert forall|at: int| !title_given_at(lines, at) by {
                    if 0 <= at < end {
                        assert(has_key(lines[end], "title"@));
                    }
                }
            }
        } else {
            if gives_title(front) {
                let at = choose|at: int| title_given_at(front, at);
                assert forall|j: int| at < j < lines.len() implies !has_key(
                    #[trigger] lines[j],
                    "title"@,
                ) by {
                    if j < end {
                        assert(lines[j] == front[j]);
                    }
                }
                assert(title_given_at(lines, at));
            }
            if gives_title(lines) {
                let at = choose|at: int| title_given_at(lines, at);
                assert forall|j: int| at < j < front.len() implies !has_key(
                    #[trigger] front[j],
                    "title"@,
                ) by {
                    assert(front[j] == lines[j]);
                }
                assert(title_given_at(front, at));
            }
        }
        if has_key(last, "linux"@) {
            assert(linux_given_at(lines, end));
        } else {
            if gives_linux(front) {
                let at = choose|at: int| linux_given_at(front, at);
                assert(linux_given_at(lines, at));
            }
            if gives_linux(lines) {
                let at = choose|at: int| linux_given_at(lines, at);
                assert(linux_given_at(front, at));
            }
        }
    }
}

/// A well-formed text that gives a title and has a `linux` line defines an
/// entry. One that gives no title is refused for the title; one that gives
/// a title and has no `linux` line is refused for the kernel.
pub proof fn lemma_parsed_well_formed(id: Seq<char>, lines: Seq<Seq<char>>)
    requires
        is_well_formed(lines),
    ensures
        parsed_entry(id, lines) is Ok <==> gives_title(lines) && gives_linux(lines),
        !gives_title(lines) ==> parsed_entry(id, lines) == Err::<EntryView, EntryError>(
            EntryError::MisisngTitle,
        ),
        gives_title(lines) && !gives_linux(lines) ==> parsed_entry(id, lines) == Err::<
            EntryView,
            EntryError,
        >(EntryError::MissingLinux),
{
    lemma_well_formed_read(id, lines);
}

/// A text whose first line that the grammar does not accept is a `linux`
/// line is refused for that line's missing value, and likewise for an
/// `initrd` line.
pub proof fn lemma_key_without_value(id: Seq<char>, lines: Seq<Seq<char>>, at: int)
    requires
        0 <= at < lines.len(),
        is_well_formed(lines.take(at)),
        !is_accepted(lines[at]),
    ensures
        has_key(lines[at], "linux"@) ==> parsed_entry(id, lines) == Err::<EntryView, EntryError>(
            EntryError::NoValueForLinux,
        ),
        has_key(lines[at], "initrd"@) ==> parsed_entry(id, lines) == Err::<EntryView, EntryError>(
            EntryError::NoValueForInitrd,
        ),
{
    lemma_keys();
    let start = blank_entry(id);
    let front = lines.take(at);
    let back = lines.skip(at);
    assert(lines == front + back);
    lemma_well_formed_read(id, front);
    lemma_lines_read_append(start, front, back);
    let middle = lines_read(start, front)->Ok_0;
    lemma_accepted_line(middle, lines[at]);
}

/// Two command lines whose first words differ do not agree, whatever
/// follows: an entry is not the current one where the live command line
/// starts with a word that the entry does not start with.
pub proof fn lemma_first_word_decides(live: Seq<Seq<char>>, expected: Seq<Seq<char>>)
    requires
        live.len() > 0,
        expected.len() > 0,
        live[0] != expected[0],
    ensures
        !agree(live, expected),
{
}

/// A command line agrees with each line that it starts with, and with each
/// that starts with it.
pub proof fn lemma_prefix_agrees(live: Seq<Seq<char>>, expected: Seq<Seq<char>>)
    requires
        live.is_prefix_of(expected) || expected.is_prefix_of(live),
    ensures
        agree(live, expected),
{
}

/// The good files are within the listing, each of them gives an entry, and
/// the file after them, if there is one, gives none.
pub proof fn lemma_good_files(files: Seq<EntryFile>)
    ensures
        good_files(files) <= files.len(),
        forall|k: int| 0 <= k < good_files(files) ==> file_entry(#[trigger] files[k]) is Ok,
        good_files(files) < files.len() ==> file_entry(files[good_files(files) as int]) is Err,
    decreases files.len(),
{
    if files.len() > 0 && file_entry(files[0]) is Ok {
        let rest = files.drop_first();
        lemma_good_files(rest);
        assert forall|k: int| 0 <= k < good_files(files) implies file_entry(
            #[trigger] files[k],
        ) is Ok by {
            if k > 0 {
                assert(files[k] == rest[k - 1]);
            }
        }
        if good_files(files) < files.len() {
            assert(files[good_files(files) as int] == rest[good_files(rest) as int]);
        }
    }
}

/// A listing with a file that gives no entry fails the whole load: the
/// error holds the path and the reason of the first such file.
pub proof fn lemma_refused_file_fails_load(listing: Listing, at: int)
    requires
        listing is Files,
        0 <= at < listing->files.len(),
        file_entry(listing->files[at]) is Err,
    ensures
        ({
            let files = listing->files@;
            let first = good_files(files) as int;
            &&& 0 <= first <= at
            &&& file_entry(files[first]) is Err
            &&& forall|k: int| 0 <= k < first ==> file_entry(#[trigger] files[k]) is Ok
            &&& listing_result(listing) == Err::<(), Error>(
                Error::Entry { path: files[first].path, source: file_entry(files[first])->Err_0 },
            )
        }),
{
    lemma_good_files(listing->files@);
}

/// The numeral of a number is made of digits, and writes the number.
pub proof fn lemma_decimal_text(n: nat)
    ensures
        decimal_text(n).len() > 0,
        all_digits(decimal_text(n)),
        decimal_value(decimal_text(n)) == n,
    decreases n,
{
    let text = decimal_text(n);
    if n < 10 {
        assert(decimal_value(text.drop_last()) == 0);
    } else {
        lemma_decimal_text(n / 10);
        let front = decimal_text(n / 10);
        assert(text.drop_last() == front);
        assert forall|i: int| 0 <= i < text.len() implies is_digit(#[trigger] text[i]) by {
            if i < front.len() {
                assert(text[i] == front[i]);
            }
        }
    }
}

/// The numeral of a number of 32 bits reads back as the number.
pub proof fn lemma_numeral_round_trip(n: u32)
    ensures
        parsed_u32(decimal_text(n as nat)) == Some(n),
        is_word(decimal_text(n as nat), false),
{
    lemma_decimal_text(n as nat);
    let text = decimal_text(n as nat);
    assert forall|i: int| 0 <= i < text.len() implies !crate::text::is_blank(
        #[trigger] text[i],
        false,
    ) by {
        assert(is_digit(text[i]));
    }
}

/// The two keys of the policy are words, and differ.
pub proof fn lemma_policy_keys()
    ensures
        is_word("default"@, false),
        is_word("timeout"@, false),
        "default"@ != "timeout"@,
        "default "@ == "default"@ + seq![' '],
        "timeout "@ == "timeout"@ + seq![' '],
{
    reveal_strlit("default");
    reveal_strlit("timeout");
    reveal_strlit("default ");
    reveal_strlit("timeout ");
    assert("default"@[0] != "timeout"@[0]);
}

/// A `timeout` line whose value is no number is refused, and the error
/// holds the value.
pub proof fn lemma_timeout_not_a_number(policy: LoaderConfView, line: Seq<char>)
    requires
        has_key(line, "timeout"@),
        has_value(line),
        parsed_u32(words(line)[1]) is None,
    ensures
        policy_line_read(policy, line) == Err::<LoaderConfView, LoaderErrorView>(
            LoaderErrorView::TimeoutNaN(words(line)[1]),
        ),
{
    lemma_policy_keys();
}

/// Reading a single line of the policy.
pub proof fn lemma_policy_lines_read_one(policy: LoaderConfView, line: Seq<char>)
    ensures
        policy_lines_read(policy, seq![line]) == policy_line_read(policy, line),
{
    let lines = seq![line];
    match policy_line_read(policy, line) {
        Ok(next) => {
            assert(policy_lines_read(next, lines.drop_first()) == Ok::<
                LoaderConfView,
                LoaderErrorView,
            >(next));
        },
        Err(_) => {},
    }
}

/// A policy whose default entry, if it has one, is one word, written and
/// read again, is the same policy.
pub proof fn lemma_policy_round_trip(policy: LoaderConfView)
    requires
        policy.default matches Some(id) ==> is_word(id, false),
    ensures
        parsed_policy(policy_lines(policy)) == Ok::<LoaderConfView, LoaderErrorView>(policy),
{
    lemma_policy_keys();
    let start = blank_policy();
    let middle = LoaderConfView { default: policy.default, ..start };
    let front = match policy.default {
        Some(id) => seq!["default "@ + id],
        None => Seq::<Seq<char>>::empty(),
    };
    let back = match policy.timeout {
        Some(seconds) => seq!["timeout "@ + decimal_text(seconds as nat)],
        None => Seq::<Seq<char>>::empty(),
    };
    match policy.default {
        Some(id) => {
            lemma_key_and_word("default"@, id);
            lemma_policy_lines_read_one(start, "default "@ + id);
        },
        None => {},
    }
    match policy.timeout {
        Some(seconds) => {
            lemma_numeral_round_trip(seconds);
            lemma_key_and_word("timeout"@, decimal_text(seconds as nat));
            lemma_policy_lines_read_one(middle, "timeout "@ + decimal_text(seconds as nat));
        },
        None => {},
    }
    lemma_policy_lines_read_append(start, front, back);
}

/// Reading lines of the policy one after another is reading the first lot,
/// then the second from where the first ended.
pub proof fn lemma_policy_lines_read_append(
    policy: LoaderConfView,
    front: Seq<Seq<char>>,
    back: Seq<Seq<char>>,
)
    ensures
        policy_lines_read(policy, front + back) == match policy_lines_read(policy, front) {
            Ok(middle) => policy_lines_read(middle, back),
            Err(error) => Err(error),
        },
    decreases front.len(),
{
    if front.len() == 0 {
        assert(front + back == back);
    } else {
        assert((front + back).drop_first() == front.drop_first() + back);
        match policy_line_read(policy, front[0]) {
            Ok(next) => {
                lemma_policy_lines_read_append(next, front.drop_first(), back);
            },
            Err(_) => {},
        }
    }
}

} // verus!
