//! Characters, words and joined words: the text layer that both file formats
//! and the kernel command line share.

use vstd::prelude::*;
use vstd::string::*;

verus! {

/// The characters with the Unicode property `White_Space`: they separate the
/// fields of a configuration line.
pub open spec fn is_space(c: char) -> bool {
    ||| c == ' '
    ||| '\u{9}' <= c <= '\u{d}'
    ||| c == '\u{85}'
    ||| c == '\u{a0}'
    ||| c == '\u{1680}'
    ||| '\u{2000}' <= c <= '\u{200a}'
    ||| c == '\u{2028}'
    ||| c == '\u{2029}'
    ||| c == '\u{202f}'
    ||| c == '\u{205f}'
    ||| c == '\u{3000}'
}

/// The ASCII whitespace characters: space, tab, line feed, form feed and
/// carriage return. They separate the words of the kernel command line.
pub open spec fn is_ascii_space(c: char) -> bool {
    c == ' ' || c == '\u{9}' || c == '\u{a}' || c == '\u{c}' || c == '\u{d}'
}

/// Whether `c` separates words: by ASCII whitespace alone where `ascii` is
/// set, by all Unicode whitespace where it is not.
pub open spec fn is_blank(c: char, ascii: bool) -> bool {
    if ascii {
        is_ascii_space(c)
    } else {
        is_space(c)
    }
}

/// A word: a text that is not empty and holds no separator.
pub open spec fn is_word(w: Seq<char>, ascii: bool) -> bool {
    w.len() > 0 && forall|i: int| 0 <= i < w.len() ==> !is_blank(#[trigger] w[i], ascii)
}

/// The number of characters before the first separator of `s`.
pub open spec fn word_len(s: Seq<char>, ascii: bool) -> nat
    decreases s.len(),
{
    if s.len() == 0 || is_blank(s[0], ascii) {
        0
    } else {
        1 + word_len(s.drop_first(), ascii)
    }
}

/// `word_len` stays within the text, and is positive where the text starts
/// with a character of a word.
pub proof fn lemma_word_len_bounds(s: Seq<char>, ascii: bool)
    ensures
        word_len(s, ascii) <= s.len(),
        s.len() > 0 && !is_blank(s[0], ascii) ==> word_len(s, ascii) >= 1,
    decreases s.len(),
{
    if s.len() > 0 && !is_blank(s[0], ascii) {
        lemma_word_len_bounds(s.drop_first(), ascii);
    }
}

/// A run of `n` characters of a word that ends the text, or that a separator
/// follows, is the first word's whole length.
pub proof fn lemma_word_len_is(s: Seq<char>, ascii: bool, n: int)
    requires
        0 <= n <= s.len(),
        forall|k: int| 0 <= k < n ==> !is_blank(#[trigger] s[k], ascii),
        n == s.len() || is_blank(s[n], ascii),
    ensures
        word_len(s, ascii) == n,
    decreases n,
{
    if n > 0 {
        let t = s.drop_first();
        assert forall|k: int| 0 <= k < n - 1 implies !is_blank(#[trigger] t[k], ascii) by {
            assert(t[k] == s[k + 1]);
        }
        lemma_word_len_is(t, ascii, n - 1);
    }
}

/// The words of `s`, in order: the maximal runs of characters that are no
/// separators.
pub open spec fn split(s: Seq<char>, ascii: bool) -> Seq<Seq<char>>
    decreases s.len(),
{
    if s.len() == 0 {
        Seq::empty()
    } else if is_blank(s[0], ascii) {
        split(s.drop_first(), ascii)
    } else {
        proof {
            lemma_word_len_bounds(s, ascii);
        }
        let n = word_len(s, ascii) as int;
        seq![s.take(n)] + split(s.skip(n), ascii)
    }
}

/// The words of a configuration line, separated by Unicode whitespace.
pub open spec fn words(s: Seq<char>) -> Seq<Seq<char>> {
    split(s, false)
}

/// The words of a command line, separated by ASCII whitespace.
pub open spec fn ascii_words(s: Seq<char>) -> Seq<Seq<char>> {
    split(s, true)
}

/// The texts of `words` in order with `sep` between each two neighbours.
pub open spec fn joined(words: Seq<Seq<char>>, sep: Seq<char>) -> Seq<char>
    decreases words.len(),
{
    if words.len() == 0 {
        Seq::empty()
    } else if words.len() == 1 {
        words[0]
    } else {
        words[0] + sep + joined(words.drop_first(), sep)
    }
}

/// No character of the first word's length is a separator.
pub proof fn lemma_word_len_run(s: Seq<char>, ascii: bool)
    ensures
        forall|k: int| 0 <= k < word_len(s, ascii) ==> !is_blank(#[trigger] s[k], ascii),
    decreases s.len(),
{
    if s.len() > 0 && !is_blank(s[0], ascii) {
        let t = s.drop_first();
        lemma_word_len_run(t, ascii);
        lemma_word_len_bounds(s, ascii);
        assert forall|k: int| 0 <= k < word_len(s, ascii) implies !is_blank(
            #[trigger] s[k],
            ascii,
        ) by {
            if k > 0 {
                assert(s[k] == t[k - 1]);
            }
        }
    }
}

/// Each of the words of a text is a word.
pub proof fn lemma_split_gives_words(s: Seq<char>, ascii: bool)
    ensures
        forall|i: int|
            0 <= i < split(s, ascii).len() ==> is_word(#[trigger] split(s, ascii)[i], ascii),
    decreases s.len(),
{
    if s.len() == 0 {
        assert(split(s, ascii).len() == 0);
    } else if is_blank(s[0], ascii) {
        lemma_split_gives_words(s.drop_first(), ascii);
        assert(split(s, ascii) == split(s.drop_first(), ascii));
    } else {
        lemma_word_len_bounds(s, ascii);
        lemma_word_len_run(s, ascii);
        let n = word_len(s, ascii) as int;
        let rest = split(s.skip(n), ascii);
        lemma_split_gives_words(s.skip(n), ascii);
        assert forall|i: int| 0 <= i < split(s, ascii).len() implies is_word(
            #[trigger] split(s, ascii)[i],
            ascii,
        ) by {
            if i > 0 {
                assert(split(s, ascii)[i] == rest[i - 1]);
            } else {
                let first = s.take(n);
                assert forall|k: int| 0 <= k < first.len() implies !is_blank(
                    #[trigger] first[k],
                    ascii,
                ) by {
                    assert(first[k] == s[k]);
                }
            }
        }
    }
}

/// A word alone is the one word of its text.
pub proof fn lemma_split_word(word: Seq<char>, ascii: bool)
    requires
        is_word(word, ascii),
    ensures
        split(word, ascii) == seq![word],
{
    let n = word.len() as int;
    lemma_word_len_is(word, ascii, n);
    assert(word.take(n) == word);
    assert(split(word.skip(n), ascii) == Seq::<Seq<char>>::empty());
}

/// Of a word, a space and a text, the word is the first word, and the words
/// of the text follow it.
pub proof fn lemma_split_after_word(word: Seq<char>, rest: Seq<char>, ascii: bool)
    requires
        is_word(word, ascii),
    ensures
        split(word + seq![' '] + rest, ascii) == seq![word] + split(rest, ascii),
{
    let s = word + seq![' '] + rest;
    let n = word.len() as int;
    assert forall|k: int| 0 <= k < n implies !is_blank(#[trigger] s[k], ascii) by {
        assert(s[k] == word[k]);
    }
    lemma_word_len_is(s, ascii, n);
    assert(s.take(n) == word);
    let tail = s.skip(n);
    assert(tail.drop_first() == rest);
    assert(split(tail, ascii) == split(rest, ascii));
}

/// Words joined by single spaces are the words of the joined text.
pub proof fn lemma_split_joined(words: Seq<Seq<char>>, ascii: bool)
    requires
        forall|i: int| 0 <= i < words.len() ==> is_word(#[trigger] words[i], ascii),
    ensures
        split(joined(words, seq![' ']), ascii) == words,
    decreases words.len(),
{
    if words.len() == 1 {
        lemma_split_word(words[0], ascii);
    } else if words.len() > 1 {
        let rest = words.drop_first();
        assert forall|i: int| 0 <= i < rest.len() implies is_word(#[trigger] rest[i], ascii) by {
            assert(rest[i] == words[i + 1]);
        }
        lemma_split_joined(rest, ascii);
        lemma_split_after_word(words[0], joined(rest, seq![' ']), ascii);
    }
}

/// Tests a character for `is_blank`.
pub fn char_is_blank(c: char, ascii: bool) -> (b: bool)
    ensures
        b == is_blank(c, ascii),
{
    if ascii {
        c == ' ' || c == '\u{9}' || c == '\u{a}' || c == '\u{c}' || c == '\u{d}'
    } else {
        c == ' ' || ('\u{9}' <= c && c <= '\u{d}') || c == '\u{85}' || c == '\u{a0}' || c
            == '\u{1680}' || ('\u{2000}' <= c && c <= '\u{200a}') || c == '\u{2028}' || c
            == '\u{2029}' || c == '\u{202f}' || c == '\u{205f}' || c == '\u{3000}'
    }
}

/// The characters of a text, one by one.
pub fn chars_of(s: &str) -> (v: Vec<char>)
    ensures
        v@ == s@,
{
    let mut v: Vec<char> = Vec::new();
    for c in it: s.chars()
        invariant
            it.seq() == s@,
            v@ == s@.take(it.index() as int),
    {
        v.push(c);
    }
    v
}

/// Whether two texts hold the same characters.
pub fn same_text(a: &str, b: &str) -> (same: bool)
    ensures
        same == (a@ == b@),
{
    let x = chars_of(a);
    let y = chars_of(b);
    if x.len() != y.len() {
        return false;
    }
    let mut i: usize = 0;
    while i < x.len()
        invariant
            x@ == a@,
            y@ == b@,
            x.len() == y.len(),
            i <= x.len(),
            forall|k: int| 0 <= k < i ==> x@[k] == y@[k],
        decreases x.len() - i,
    {
        if x[i] != y[i] {
            return false;
        }
        i = i + 1;
    }
    assert(x@ =~= y@);
    true
}

/// Cuts a text into its words.
fn split_text(s: &str, ascii: bool) -> (out: Vec<String>)
    ensures
        out.deep_view() == split(s@, ascii),
{
    let chars = chars_of(s);
    let n = chars.len();
    let mut out: Vec<String> = Vec::new();
    let mut i: usize = 0;
    assert(s@.skip(0) == s@);
    while i < n
        invariant
            chars@ == s@,
            n == chars.len(),
            i <= n,
            split(s@, ascii) == out.deep_view() + split(s@.skip(i as int), ascii),
        decreases n - i,
    {
        let ghost rest = s@.skip(i as int);
        if char_is_blank(chars[i], ascii) {
            assert(rest.drop_first() == s@.skip(i + 1));
            i = i + 1;
        } else {
            let start = i;
            while i < n && !char_is_blank(chars[i], ascii)
                invariant
                    chars@ == s@,
                    n == chars.len(),
                    start <= i <= n,
                    forall|k: int| start <= k < i ==> !is_blank(#[trigger] s@[k], ascii),
                decreases n - i,
            {
                i = i + 1;
            }
            let word = s.substring_char(start, i);
            let ghost before = out.deep_view();
            out.push(word.to_owned());
            proof {
                let len = i - start;
                assert forall|k: int| 0 <= k < len implies !is_blank(#[trigger] rest[k], ascii) by {
                    assert(rest[k] == s@[start + k]);
                }
                lemma_word_len_is(rest, ascii, len);
                assert(rest.take(len) == s@.subrange(start as int, i as int));
                assert(rest.skip(len) == s@.skip(i as int));
                assert(before.push(word@) + split(s@.skip(i as int), ascii) == before + (
                seq![word@] + split(s@.skip(i as int), ascii)));
            }
        }
    }
    out
}

/// The words of a configuration line: what Unicode whitespace separates.
pub fn split_whitespace(s: &str) -> (out: Vec<String>)
    ensures
        out.deep_view() == words(s@),
{
    split_text(s, false)
}

/// The words of a command line: what ASCII whitespace separates.
pub fn split_ascii_whitespace(s: &str) -> (out: Vec<String>)
    ensures
        out.deep_view() == ascii_words(s@),
{
    split_text(s, true)
}

/// `Itertools::join` over the words of a slice: the first word as it stands,
/// then the separator and the next word in turn, and the empty text for no
/// words. The separator is at most one character, so that the capacity which
/// the outside function computes from its length stays in range.
#[verifier::external_body]
pub(crate) fn join_words(words: &[String], sep: &str) -> (text: String)
    requires
        sep@.len() <= 1,
    ensures
        text@ == joined(words.deep_view(), sep@),
{
    itertools::Itertools::join(&mut words.iter(), sep)
}

} // verus!
