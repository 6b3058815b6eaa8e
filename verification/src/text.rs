//! Text primitives: the mathematical meaning of the string operations the crate
//! relies on, and the thin trusted layer over the standard library's `str`.
//!
//! Every contract in the crate speaks of strings through their view, a
//! `Seq<char>`. The functions marked `external_body` here are the only places
//! where the behaviour of a standard string routine is taken on trust; each one
//! documents the claim it makes.

use regex::Regex;
use vstd::prelude::*;
use vstd::string::StringExecFns;

verus! {

/// Whether `needle` occurs in `hay` as a contiguous run of characters.
pub open spec fn is_substring(needle: Seq<char>, hay: Seq<char>) -> bool {
    exists|i: int| occurs_at(needle, hay, i)
}

/// Whether `needle` occurs in `hay` starting at position `i`.
pub open spec fn occurs_at(needle: Seq<char>, hay: Seq<char>, i: int) -> bool {
    0 <= i && i + needle.len() <= hay.len() && hay.subrange(i, i + needle.len()) == needle
}

/// Whether `s` begins with `prefix`.
pub open spec fn has_prefix(s: Seq<char>, prefix: Seq<char>) -> bool {
    prefix.len() <= s.len() && s.subrange(0, prefix.len() as int) == prefix
}

/// The number of characters of `s` that stand before the first `sep`: the
/// position of the first `sep`, or the length of `s` where it holds none.
pub open spec fn until_first(s: Seq<char>, sep: char) -> int
    decreases s.len(),
{
    if s.len() == 0 || s[0] == sep {
        0
    } else {
        1 + until_first(s.skip(1), sep)
    }
}

/// How often `c` occurs in `s`.
pub open spec fn count_of(s: Seq<char>, c: char) -> nat
    decreases s.len(),
{
    if s.len() == 0 {
        0
    } else if s[0] == c {
        1 + count_of(s.skip(1), c)
    } else {
        count_of(s.skip(1), c)
    }
}

/// The pieces of `s` between occurrences of `sep`, from the left: the text
/// before the first `sep`, then the pieces of what follows it. There is
/// always at least one piece; two adjacent separators enclose an empty piece.
pub open spec fn split_on(s: Seq<char>, sep: char) -> Seq<Seq<char>>
    decreases s.len(),
{
    let i = until_first(s, sep);
    if 0 <= i < s.len() {
        seq![s.take(i)] + split_on(s.skip(i + 1), sep)
    } else {
        seq![s]
    }
}

/// `s` with every occurrence of the non-empty `from` replaced by `to`, scanning
/// from the left and never revisiting replaced text.
pub open spec fn replaced(s: Seq<char>, from: Seq<char>, to: Seq<char>) -> Seq<char>
    recommends
        from.len() > 0,
    decreases s.len(),
{
    if from.len() == 0 || s.len() < from.len() {
        s
    } else if has_prefix(s, from) {
        to + replaced(s.skip(from.len() as int), from, to)
    } else {
        seq![s[0]] + replaced(s.skip(1), from, to)
    }
}

/// The test "this character is not `c`".
pub open spec fn is_not(c: char) -> spec_fn(char) -> bool {
    |x: char| x != c
}

/// `s` without any occurrence of the character `c`.
pub open spec fn without_char(s: Seq<char>, c: char) -> Seq<char> {
    s.filter(is_not(c))
}

/// Strict lexicographic order on strings, character by character, each
/// character ranked by its code point.
pub open spec fn text_before(a: Seq<char>, b: Seq<char>) -> bool
    decreases a.len(),
{
    if b.len() == 0 {
        false
    } else if a.len() == 0 {
        true
    } else if a[0] != b[0] {
        a[0] < b[0]
    } else {
        text_before(a.skip(1), b.skip(1))
    }
}

/// The decimal digits of `n`, most significant first, with no leading zero
/// (and `"0"` for zero).
pub open spec fn decimal(n: nat) -> Seq<char>
    decreases n,
{
    if n < 10 {
        seq![digit_char(n)]
    } else {
        decimal(n / 10).push(digit_char(n % 10))
    }
}

/// The character for a single decimal digit.
pub open spec fn digit_char(d: nat) -> char
    recommends
        d < 10,
{
    if d == 0 {
        '0'
    } else if d == 1 {
        '1'
    } else if d == 2 {
        '2'
    } else if d == 3 {
        '3'
    } else if d == 4 {
        '4'
    } else if d == 5 {
        '5'
    } else if d == 6 {
        '6'
    } else if d == 7 {
        '7'
    } else if d == 8 {
        '8'
    } else {
        '9'
    }
}

/// Whether `c` is one of the ten ASCII decimal digits.
pub open spec fn is_ascii_digit(c: char) -> bool {
    '0' <= c && c <= '9'
}

/// Whether some character of `s` is an ASCII decimal digit.
pub open spec fn has_ascii_digit(s: Seq<char>) -> bool {
    exists|i: int| 0 <= i < s.len() && is_ascii_digit(#[trigger] s[i])
}

/// The Unicode lowercase form of a string, as `str::to_lowercase` computes it.
pub uninterp spec fn lowercase(s: Seq<char>) -> Seq<char>;

/// A string with leading and trailing Unicode whitespace removed, as
/// `str::trim` computes it.
pub uninterp spec fn trimmed(s: Seq<char>) -> Seq<char>;

/// The `Debug` rendering of a string: quoted, with special characters
/// escaped.
pub uninterp spec fn quoted(s: Seq<char>) -> Seq<char>;

/// Whether a regular expression finds a match somewhere in a text, as the
/// `regex` crate decides it; `None` where the pattern is not a valid
/// expression or compiles to a program beyond the crate's size limit.
pub uninterp spec fn regex_match(pattern: Seq<char>, text: Seq<char>) -> Option<bool>;

/// The value that `str::parse::<i64>` reads from a string, if it reads one.
pub uninterp spec fn parsed_i64(s: Seq<char>) -> Option<i64>;

/// `str::eq`: two string slices compare equal exactly when they hold the same
/// characters.
#[verifier::external_body]
pub(crate) fn text_eq(a: &str, b: &str) -> (same: bool)
    ensures
        same == (a@ == b@),
{
    a == b
}

/// `str::lt`: the standard order on string slices is lexicographic by code
/// point.
#[verifier::external_body]
pub(crate) fn text_lt(a: &str, b: &str) -> (before: bool)
    ensures
        before == text_before(a@, b@),
{
    a < b
}

/// `str::to_lowercase`: the result is a function of the characters alone.
#[verifier::external_body]
pub(crate) fn to_lowercase(s: &str) -> (lower: String)
    ensures
        lower@ == lowercase(s@),
{
    s.to_lowercase()
}

/// `str::trim`: the result is a function of the characters alone.
#[verifier::external_body]
pub(crate) fn trim(s: &str) -> (inner: &str)
    ensures
        inner@ == trimmed(s@),
{
    s.trim()
}

/// `str::contains` with a string pattern: true exactly when the pattern occurs
/// somewhere in the haystack.
#[verifier::external_body]
pub(crate) fn contains(hay: &str, needle: &str) -> (found: bool)
    ensures
        found == is_substring(needle@, hay@),
{
    hay.contains(needle)
}

/// `str::starts_with` with a string pattern.
#[verifier::external_body]
pub(crate) fn starts_with(s: &str, prefix: &str) -> (yes: bool)
    ensures
        yes == has_prefix(s@, prefix@),
{
    s.starts_with(prefix)
}

/// `str::split` on a single character, gathered into a vector: the pieces
/// between separators, in order, empty pieces included.
#[verifier::external_body]
pub(crate) fn split<'a>(s: &'a str, sep: char) -> (pieces: Vec<&'a str>)
    ensures
        pieces@.len() == split_on(s@, sep).len(),
        forall|i: int| 0 <= i < pieces@.len() ==> (#[trigger] pieces@[i])@ == split_on(s@, sep)[i],
{
    s.split(sep).collect()
}

/// `str::replace` with a non-empty string pattern: every non-overlapping
/// match, found from the left, is replaced.
#[verifier::external_body]
pub(crate) fn replace(s: &str, from: &str, to: &str) -> (out: String)
    requires
        from@.len() > 0,
    ensures
        out@ == replaced(s@, from@, to@),
{
    s.replace(from, to)
}

/// `str::parse::<i64>`: whether a number is read, and which, depends on the
/// characters alone.
#[verifier::external_body]
pub(crate) fn parse_i64(s: &str) -> (value: Option<i64>)
    ensures
        value == parsed_i64(s@),
{
    s.parse::<i64>().ok()
}

/// `<str as Debug>::fmt`: the rendering is a function of the characters
/// alone.
#[verifier::external_body]
pub(crate) fn debug_string(s: &str) -> (out: String)
    ensures
        out@ == quoted(s@),
{
    format!("{:?}", s)
}

/// `regex::Regex::new` followed by `Regex::is_match`: compiles `pattern` and
/// reports whether it matches anywhere in `text`, or `None` where the
/// pattern is refused. The outcome depends on the two strings alone. Of the
/// pattern language one fact is used: the class `[0-9]` is a valid
/// expression, and it matches any ASCII digit.
#[verifier::external_body]
pub(crate) fn regex_is_match(pattern: &str, text: &str) -> (found: Option<bool>)
    ensures
        found == regex_match(pattern@, text@),
        pattern@ == "[0-9]"@ ==> found == Some(has_ascii_digit(text@)),
{
    match Regex::new(pattern) {
        Ok(re) => Some(re.is_match(text)),
        Err(_) => None,
    }
}

/// `u64::to_string`: the usual decimal notation.
#[verifier::external_body]
pub(crate) fn decimal_string(n: u64) -> (digits: String)
    ensures
        digits@ == decimal(n as nat),
{
    n.to_string()
}

/// Replacing a one-character pattern by nothing removes exactly the
/// occurrences of that character.
pub proof fn lemma_replaced_char(s: Seq<char>, c: char)
    ensures
        replaced(s, seq![c], Seq::empty()) == without_char(s, c),
    decreases s.len(),
{
    reveal(Seq::filter);
    let keep = is_not(c);
    if s.len() > 0 {
        let rest = s.skip(1);
        lemma_replaced_char(rest, c);
        rest.lemma_filter_prepend(s[0], keep);
        assert(seq![s[0]] + rest =~= s);
        if s[0] == c {
            assert(s.subrange(0, 1) =~= seq![c]);
            assert(Seq::<char>::empty() + without_char(rest, c) =~= without_char(rest, c));
        } else {
            assert(s.subrange(0, 1)[0] == s[0]);
        }
    }
}

/// Joins two strings.
pub fn concat(a: &str, b: &str) -> (out: String)
    ensures
        out@ == a@ + b@,
{
    let mut out = a.to_owned();
    out.append(b);
    out
}

/// The first `sep` of `s` stands where `until_first` says: no `sep` stands
/// before that position, and one stands at it unless `s` holds none.
pub proof fn lemma_until_first(s: Seq<char>, sep: char)
    ensures
        0 <= until_first(s, sep) <= s.len(),
        until_first(s, sep) < s.len() ==> s[until_first(s, sep)] == sep,
        forall|j: int| 0 <= j < until_first(s, sep) ==> s[j] != sep,
        until_first(s, sep) == s.len() <==> count_of(s, sep) == 0,
        until_first(s, sep) < s.len() ==> count_of(s, sep) == 1 + count_of(
            s.skip(until_first(s, sep) + 1),
            sep,
        ),
    decreases s.len(),
{
    if s.len() > 0 && s[0] != sep {
        let rest = s.skip(1);
        lemma_until_first(rest, sep);
        let i = until_first(rest, sep);
        assert forall|j: int| 0 <= j < until_first(s, sep) implies s[j] != sep by {
            if j > 0 {
                assert(rest[j - 1] != sep);
            }
        }
        if i < rest.len() {
            assert(rest[i] == s[i + 1]);
            assert(rest.skip(i + 1) =~= s.skip(i + 2));
        }
    }
}

/// Splitting always yields at least one piece, and the first piece is the
/// text before the first separator.
pub proof fn lemma_split_on_nonempty(s: Seq<char>, sep: char)
    ensures
        split_on(s, sep).len() >= 1,
        split_on(s, sep)[0] == s.take(until_first(s, sep)),
{
    lemma_until_first(s, sep);
    let i = until_first(s, sep);
    if i == s.len() {
        assert(s.take(i) =~= s);
    }
}

/// There is one piece more than there are separators.
pub proof fn lemma_split_on_len(s: Seq<char>, sep: char)
    ensures
        split_on(s, sep).len() == count_of(s, sep) + 1,
    decreases s.len(),
{
    lemma_until_first(s, sep);
    let i = until_first(s, sep);
    if i < s.len() {
        lemma_split_on_len(s.skip(i + 1), sep);
    }
}

/// A text with exactly one separator splits into what stands before it and
/// what stands after it.
pub proof fn lemma_split_on_once(s: Seq<char>, sep: char)
    requires
        count_of(s, sep) == 1,
    ensures
        split_on(s, sep) == seq![
            s.take(until_first(s, sep)),
            s.skip(until_first(s, sep) + 1),
        ],
{
    lemma_until_first(s, sep);
    let i = until_first(s, sep);
    let rest = s.skip(i + 1);
    lemma_until_first(rest, sep);
    assert(split_on(rest, sep) =~= seq![rest]);
    assert(split_on(s, sep) =~= seq![s.take(i), rest]);
}

/// Each of `texts` without surrounding whitespace.
pub open spec fn trimmed_each(texts: Seq<Seq<char>>) -> Seq<Seq<char>> {
    Seq::new(texts.len(), |i: int| trimmed(texts[i]))
}

/// Trims every string of a list.
pub fn trim_all(texts: &Vec<String>) -> (out: Vec<String>)
    ensures
        out.deep_view() == trimmed_each(texts.deep_view()),
{
    let mut out: Vec<String> = Vec::new();
    let mut i: usize = 0;
    while i < texts.len()
        invariant
            i <= texts.len(),
            out.len() == i,
            forall|k: int| 0 <= k < i ==> (#[trigger] out[k])@ == trimmed(texts[k]@),
        decreases texts.len() - i,
    {
        out.push(trim(texts[i].as_str()).to_owned());
        i += 1;
    }
    assert(out.deep_view() =~= trimmed_each(texts.deep_view()));
    out
}

/// Whether one of `texts` is exactly `wanted`.
pub fn any_is(texts: &Vec<String>, wanted: &str) -> (found: bool)
    ensures
        found == texts.deep_view().contains(wanted@),
{
    let mut i: usize = 0;
    while i < texts.len()
        invariant
            i <= texts.len(),
            forall|k: int| 0 <= k < i ==> (#[trigger] texts[k])@ != wanted@,
        decreases texts.len() - i,
    {
        if text_eq(texts[i].as_str(), wanted) {
            assert(texts.deep_view()[i as int] == wanted@);
            return true;
        }
        i += 1;
    }
    assert forall|k: int| 0 <= k < texts.deep_view().len() implies texts.deep_view()[k]
        != wanted@ by {
        assert(texts.deep_view()[k] == texts[k]@);
    }
    false
}

} // verus!
