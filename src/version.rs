//! The version that curl reports of itself, as (major, minor).
use vstd::prelude::*;

use crate::text::{chars_of, copy_range};

verus! {

/// A curl version, as far as the flags depend on it.
#[derive(PartialEq, Eq, Structural, Clone, Copy, Debug)]
pub struct ToolVersion {
    pub major: u32,
    pub minor: u32,
}

/// Why curl's version report could not be read.
#[derive(PartialEq, Eq, Structural, Clone, Copy, Debug)]
pub enum VersionError {
    /// The report is empty.
    NoOutput,
    /// Its first line holds fewer than two words.
    TooFewFields,
    /// The second word holds no `.`.
    InvalidFormat,
    /// What precedes the first `.` is no number.
    InvalidMajor,
    /// What follows it, up to the next `.`, is no number.
    InvalidMinor,
}

impl VersionError {
    /// The sentence that reports this error.
    pub fn message(&self) -> (r: String)
        ensures
            r@ == match self {
                VersionError::NoOutput => "No version output"@,
                VersionError::TooFewFields => "Could not parse curl version"@,
                VersionError::InvalidFormat => "Invalid version format"@,
                VersionError::InvalidMajor => "Invalid major version"@,
                VersionError::InvalidMinor => "Invalid minor version"@,
            },
    {
        match self {
            VersionError::NoOutput => "No version output".to_string(),
            VersionError::TooFewFields => "Could not parse curl version".to_string(),
            VersionError::InvalidFormat => "Invalid version format".to_string(),
            VersionError::InvalidMajor => "Invalid major version".to_string(),
            VersionError::InvalidMinor => "Invalid minor version".to_string(),
        }
    }
}

/// Whether `c` is white space in Unicode's sense.
pub open spec fn is_white_space(c: char) -> bool {
    ('\t' <= c && c <= '\r') || c == ' ' || c == '\u{85}' || c == '\u{a0}' || c == '\u{1680}'
        || ('\u{2000}' <= c && c <= '\u{200a}') || c == '\u{2028}' || c == '\u{2029}' || c
        == '\u{202f}' || c == '\u{205f}' || c == '\u{3000}'
}

/// Whether `c` is white space in Unicode's sense.
pub fn white_space(c: char) -> (r: bool)
    ensures
        r == is_white_space(c),
{
    ('\t' <= c && c <= '\r') || c == ' ' || c == '\u{85}' || c == '\u{a0}' || c == '\u{1680}'
        || ('\u{2000}' <= c && c <= '\u{200a}') || c == '\u{2028}' || c == '\u{2029}' || c
        == '\u{202f}' || c == '\u{205f}' || c == '\u{3000}'
}

/// How many characters at the start of `s` are no white space.
pub open spec fn word_len(s: Seq<char>) -> int
    decreases s.len(),
{
    if s.len() == 0 || is_white_space(s[0]) {
        0
    } else {
        1 + word_len(s.drop_first())
    }
}

proof fn lemma_word_len_bounds(s: Seq<char>)
    ensures
        0 <= word_len(s) <= s.len(),
    decreases s.len(),
{
    if s.len() > 0 {
        lemma_word_len_bounds(s.drop_first());
    }
}

/// The words of `s`: its maximal runs of characters that are no white space.
pub open spec fn words(s: Seq<char>) -> Seq<Seq<char>>
    decreases s.len(),
    via words_decreases
{
    if s.len() == 0 {
        Seq::empty()
    } else if is_white_space(s[0]) {
        words(s.drop_first())
    } else {
        let n = word_len(s);
        seq![s.take(n)] + words(s.skip(n))
    }
}

#[via_fn]
proof fn words_decreases(s: Seq<char>) {
    lemma_word_len_bounds(s);
    if s.len() > 0 && !is_white_space(s[0]) {
        lemma_word_len_bounds(s.drop_first());
    }
}

/// The first position at or after `i` where `s` holds `c`, else its length.
pub open spec fn index_from(s: Seq<char>, c: char, i: int) -> int
    decreases s.len() - i,
{
    if i < 0 || i >= s.len() {
        s.len() as int
    } else if s[i] == c {
        i
    } else {
        index_from(s, c, i + 1)
    }
}

/// `s` up to its first line break.
pub open spec fn first_line(s: Seq<char>) -> Seq<char> {
    s.take(index_from(s, '\n', 0))
}

/// The number written by the decimal digits `d`.
pub open spec fn decimal_value(d: Seq<char>) -> int
    decreases d.len(),
{
    if d.len() == 0 {
        0
    } else {
        decimal_value(d.drop_last()) * 10 + (d.last() as int - '0' as int)
    }
}

/// `s` without one leading `+`.
pub open spec fn unsigned_part(s: Seq<char>) -> Seq<char> {
    if s.len() > 0 && s[0] == '+' {
        s.drop_first()
    } else {
        s
    }
}

/// Whether every character of `d` is a decimal digit.
pub open spec fn all_digits(d: Seq<char>) -> bool {
    forall|k: int| 0 <= k < d.len() ==> '0' <= #[trigger] d[k] && d[k] <= '9'
}

/// The `u32` that `s` writes: an optional `+`, then one or more decimal
/// digits, of a value that fits.
pub open spec fn parse_u32_spec(s: Seq<char>) -> Option<u32> {
    let d = unsigned_part(s);
    if d.len() > 0 && all_digits(d) && decimal_value(d) <= u32::MAX {
        Some(decimal_value(d) as u32)
    } else {
        None
    }
}

/// The version that curl's report `s` gives: the second word of its first
/// line, split at its first `.`; the major number before it, the minor number
/// after it up to any further `.`.
pub open spec fn version_of(s: Seq<char>) -> Result<ToolVersion, VersionError> {
    if s.len() == 0 {
        Err(VersionError::NoOutput)
    } else {
        let ws = words(first_line(s));
        if ws.len() < 2 {
            Err(VersionError::TooFewFields)
        } else {
            let v = ws[1];
            let dot = index_from(v, '.', 0);
            if dot >= v.len() {
                Err(VersionError::InvalidFormat)
            } else {
                let rest = v.skip(dot + 1);
                match parse_u32_spec(v.take(dot)) {
                    None => Err(VersionError::InvalidMajor),
                    Some(major) => match parse_u32_spec(rest.take(index_from(rest, '.', 0))) {
                        None => Err(VersionError::InvalidMinor),
                        Some(minor) => Ok(ToolVersion { major, minor }),
                    },
                }
            }
        }
    }
}

proof fn lemma_decimal_nonneg(d: Seq<char>)
    requires
        forall|k: int| 0 <= k < d.len() ==> '0' <= #[trigger] d[k] && d[k] <= '9',
    ensures
        0 <= decimal_value(d),
    decreases d.len(),
{
    if d.len() > 0 {
        assert(d[d.len() - 1] == d.last());
        lemma_decimal_nonneg(d.drop_last());
    }
}

proof fn lemma_decimal_prefix(d: Seq<char>, i: int)
    requires
        0 <= i <= d.len(),
        forall|k: int| 0 <= k < d.len() ==> '0' <= #[trigger] d[k] && d[k] <= '9',
    ensures
        decimal_value(d.take(i)) <= decimal_value(d),
    decreases d.len(),
{
    if i < d.len() {
        assert(d.drop_last().take(i) == d.take(i));
        assert(d[d.len() - 1] == d.last());
        lemma_decimal_prefix(d.drop_last(), i);
        lemma_decimal_nonneg(d.drop_last());
    } else {
        assert(d.take(i) == d);
    }
}

/// Reads a `u32` written in decimal, with an optional leading `+`.
pub fn parse_u32(s: &Vec<char>) -> (r: Option<u32>)
    ensures
        r == parse_u32_spec(s@),
{
    let start: usize = if s.len() > 0 && s[0] == '+' {
        1
    } else {
        0
    };
    let ghost d = s@.skip(start as int);
    assert(d == unsigned_part(s@));
    if start >= s.len() {
        return None;
    }
    let mut acc: u64 = 0;
    let mut i: usize = start;
    while i < s.len()
        invariant
            start <= i <= s@.len(),
            d == s@.skip(start as int),
            d == unsigned_part(s@),
            forall|k: int| 0 <= k < i - start ==> '0' <= #[trigger] d[k] && d[k] <= '9',
            acc == decimal_value(d.take(i - start)),
            acc <= u32::MAX,
        decreases s@.len() - i,
    {
        let c = s[i];
        if c < '0' || c > '9' {
            assert(d[i - start] == c);
            assert(!all_digits(d));
            return None;
        }
        let digit = (c as u32 - '0' as u32) as u64;
        let next = acc * 10 + digit;
        proof {
            let t = d.take(i + 1 - start);
            assert(t.drop_last() == d.take(i - start));
            assert(t.last() == c);
        }
        if next > u32::MAX as u64 {
            proof {
                if all_digits(d) {
                    lemma_decimal_prefix(d, i + 1 - start);
                }
            }
            return None;
        }
        acc = next;
        i = i + 1;
    }
    assert(d.take(i - start) == d);
    Some(acc as u32)
}

/// The character sequences of a list of character vectors.
pub open spec fn vecs_view(v: Seq<Vec<char>>) -> Seq<Seq<char>> {
    v.map_values(|w: Vec<char>| w@)
}

/// Splits `line` into its words.
pub fn split_words(line: &Vec<char>) -> (r: Vec<Vec<char>>)
    ensures
        vecs_view(r@) == words(line@),
{
    let mut out: Vec<Vec<char>> = Vec::new();
    let mut i: usize = 0;
    assert(line@.skip(0) == line@);
    assert(vecs_view(out@) + words(line@) == words(line@));
    while i < line.len()
        invariant
            i <= line@.len(),
            vecs_view(out@) + words(line@.skip(i as int)) == words(line@),
        decreases line@.len() - i,
    {
        let ghost rest = line@.skip(i as int);
        if white_space(line[i]) {
            assert(rest.drop_first() == line@.skip(i + 1));
            i = i + 1;
        } else {
            let mut j: usize = i + 1;
            assert(rest.drop_first() == line@.skip(j as int));
            while j < line.len() && !white_space(line[j])
                invariant
                    i < j <= line@.len(),
                    rest == line@.skip(i as int),
                    word_len(rest) == (j - i) + word_len(line@.skip(j as int)),
                decreases line@.len() - j,
            {
                assert(line@.skip(j as int).drop_first() == line@.skip(j + 1));
                j = j + 1;
            }
            assert(word_len(line@.skip(j as int)) == 0);
            let w = copy_range(line, i, j);
            assert(rest.take(j - i) == w@);
            assert(rest.skip(j - i) == line@.skip(j as int));
            let ghost prev = out@;
            out.push(w);
            assert(vecs_view(out@) == vecs_view(prev).push(w@));
            assert(vecs_view(out@) + words(line@.skip(j as int)) == vecs_view(prev) + (seq![w@]
                + words(line@.skip(j as int))));
            i = j;
        }
    }
    assert(vecs_view(out@) + Seq::<Seq<char>>::empty() == vecs_view(out@));
    out
}

/// The first position of `c` in `v`, or its length.
pub fn index_of(v: &Vec<char>, c: char) -> (r: usize)
    ensures
        r as int == index_from(v@, c, 0),
        r <= v@.len(),
{
    let mut i: usize = 0;
    while i < v.len()
        invariant
            i <= v@.len(),
            index_from(v@, c, 0) == index_from(v@, c, i as int),
        decreases v@.len() - i,
    {
        if v[i] == c {
            return i;
        }
        i = i + 1;
    }
    i
}

/// Reads the version out of curl's report of itself.
pub fn parse_version(report: &str) -> (r: Result<ToolVersion, VersionError>)
    ensures
        r == version_of(report@),
{
    let text = chars_of(report);
    if text.len() == 0 {
        return Err(VersionError::NoOutput);
    }
    let line = copy_range(&text, 0, index_of(&text, '\n'));
    let ws = split_words(&line);
    if ws.len() < 2 {
        return Err(VersionError::TooFewFields);
    }
    let v = &ws[1];
    assert(v@ == words(first_line(report@))[1]);
    let dot = index_of(v, '.');
    if dot >= v.len() {
        return Err(VersionError::InvalidFormat);
    }
    let major_text = copy_range(v, 0, dot);
    let rest = copy_range(v, dot + 1, v.len());
    assert(rest@ == v@.skip(dot + 1));
    let minor_text = copy_range(&rest, 0, index_of(&rest, '.'));
    match parse_u32(&major_text) {
        None => Err(VersionError::InvalidMajor),
        Some(major) => match parse_u32(&minor_text) {
            None => Err(VersionError::InvalidMinor),
            Some(minor) => Ok(ToolVersion { major, minor }),
        },
    }
}

} // verus!
