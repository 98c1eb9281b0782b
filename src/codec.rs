//! Whitespace encoding of URLs and the narrow percent-decoding used for file names.
use vstd::prelude::*;

use crate::text::{chars_of, string_of};

verus! {

/// What one character of a URL becomes: a space turns into `%20`.
pub open spec fn encode_char(c: char) -> Seq<char> {
    if c == ' ' {
        seq!['%', '2', '0']
    } else {
        seq![c]
    }
}

/// A URL with every space replaced by `%20` and nothing else touched.
pub open spec fn encode_ws(s: Seq<char>) -> Seq<char>
    decreases s.len(),
{
    if s.len() == 0 {
        Seq::empty()
    } else {
        encode_ws(s.drop_last()) + encode_char(s.last())
    }
}

/// Replaces each literal space of `url` by `%20`.
pub fn encode_whitespace(url: &str) -> (r: String)
    ensures
        r@ == encode_ws(url@),
{
    let v = chars_of(url);
    let mut out: Vec<char> = Vec::new();
    let mut i: usize = 0;
    while i < v.len()
        invariant
            i <= v@.len(),
            v@ == url@,
            out@ == encode_ws(v@.take(i as int)),
        decreases v@.len() - i,
    {
        let c = v[i];
        if c == ' ' {
            out.push('%');
            out.push('2');
            out.push('0');
        } else {
            out.push(c);
        }
        proof {
            let t = v@.take(i + 1);
            assert(t.drop_last() == v@.take(i as int));
            assert(t.last() == c);
        }
        i = i + 1;
        assert(out@ == encode_ws(v@.take(i as int)));
    }
    assert(v@.take(i as int) == v@);
    string_of(&out)
}

/// How many times `c` occurs in `s`.
pub open spec fn count_char(s: Seq<char>, c: char) -> nat
    decreases s.len(),
{
    if s.len() == 0 {
        0
    } else {
        count_char(s.drop_last(), c) + (if s.last() == c {
            1nat
        } else {
            0nat
        })
    }
}

/// Whether `s` ends with `%20`.
pub open spec fn ends_with_pct20(s: Seq<char>) -> bool {
    s.len() >= 3 && s[s.len() - 3] == '%' && s[s.len() - 2] == '2' && s[s.len() - 1] == '0'
}

/// How many times `%20` occurs in `s`.
pub open spec fn count_pct20(s: Seq<char>) -> nat
    decreases s.len(),
{
    if s.len() == 0 {
        0
    } else {
        count_pct20(s.drop_last()) + (if ends_with_pct20(s) {
            1nat
        } else {
            0nat
        })
    }
}

proof fn lemma_encoded_ends_pct2(s: Seq<char>)
    requires
        encode_ws(s).len() >= 2,
        encode_ws(s)[encode_ws(s).len() - 2] == '%',
        encode_ws(s)[encode_ws(s).len() - 1] == '2',
    ensures
        s.len() >= 2,
        s[s.len() - 2] == '%',
        s[s.len() - 1] == '2',
{
    let e = encode_ws(s);
    let p = s.drop_last();
    let ep = encode_ws(p);
    assert(s.len() > 0);
    assert(s.last() != ' ');
    assert(e == ep.push(s.last()));
    assert(ep.len() >= 1);
    assert(p.len() > 0);
    assert(p.last() != ' ');
    assert(ep == encode_ws(p.drop_last()).push(p.last()));
    assert(p[p.len() - 1] == s[s.len() - 2]);
}

proof fn lemma_count_append_pct20(e: Seq<char>)
    ensures
        count_pct20(e + seq!['%', '2', '0']) == count_pct20(e) + 1,
        count_char(e + seq!['%', '2', '0'], ' ') == count_char(e, ' '),
{
    let e1 = e + seq!['%'];
    let e2 = e + seq!['%', '2'];
    let e3 = e + seq!['%', '2', '0'];
    assert(e3.drop_last() == e2);
    assert(e2.drop_last() == e1);
    assert(e1.drop_last() == e);
    assert(e1.last() == '%' && e2.last() == '2' && e3.last() == '0');
    assert(e3[e3.len() - 3] == '%' && e3[e3.len() - 2] == '2');
    assert(count_pct20(e1) == count_pct20(e));
    assert(count_pct20(e2) == count_pct20(e1));
    assert(count_pct20(e3) == count_pct20(e2) + 1);
    assert(count_char(e1, ' ') == count_char(e, ' '));
    assert(count_char(e2, ' ') == count_char(e1, ' '));
    assert(count_char(e3, ' ') == count_char(e2, ' '));
}

/// Encoding leaves no literal space in a URL.
pub proof fn lemma_encode_leaves_no_space(s: Seq<char>)
    ensures
        count_char(encode_ws(s), ' ') == 0,
    decreases s.len(),
{
    if s.len() > 0 {
        let ep = encode_ws(s.drop_last());
        lemma_encode_leaves_no_space(s.drop_last());
        if s.last() == ' ' {
            lemma_count_append_pct20(ep);
        } else {
            assert(encode_ws(s) == ep.push(s.last()));
            assert(encode_ws(s).drop_last() == ep);
        }
    }
}

/// A URL that holds no `%20` of its own holds, once encoded, one `%20` for
/// each space it had.
pub proof fn lemma_encode_counts_spaces(s: Seq<char>)
    requires
        count_pct20(s) == 0,
    ensures
        count_pct20(encode_ws(s)) == count_char(s, ' '),
    decreases s.len(),
{
    if s.len() > 0 {
        let p = s.drop_last();
        let ep = encode_ws(p);
        lemma_encode_counts_spaces(p);
        if s.last() == ' ' {
            lemma_count_append_pct20(ep);
        } else {
            let e = encode_ws(s);
            assert(e == ep.push(s.last()));
            assert(e.drop_last() == ep);
            if ends_with_pct20(e) {
                assert(ep[ep.len() - 2] == e[e.len() - 3]);
                assert(ep[ep.len() - 1] == e[e.len() - 2]);
                lemma_encoded_ends_pct2(p);
                assert(p[p.len() - 2] == s[s.len() - 3]);
                assert(p[p.len() - 1] == s[s.len() - 2]);
                assert(ends_with_pct20(s));
            }
        }
    }
}

/// Encoding changes a URL exactly when it holds a space.
pub proof fn lemma_encode_fixed_point(s: Seq<char>)
    ensures
        encode_ws(s) == s <==> count_char(s, ' ') == 0,
    decreases s.len(),
{
    lemma_encode_len(s);
    if s.len() > 0 {
        lemma_encode_fixed_point(s.drop_last());
        if count_char(s, ' ') == 0 {
            assert(s.last() != ' ');
            assert(encode_ws(s) == s.drop_last().push(s.last()));
            assert(s.drop_last().push(s.last()) == s);
        }
    } else {
        assert(s == Seq::<char>::empty());
    }
}

proof fn lemma_encode_len(s: Seq<char>)
    ensures
        encode_ws(s).len() == s.len() + 2 * count_char(s, ' '),
    decreases s.len(),
{
    if s.len() > 0 {
        lemma_encode_len(s.drop_last());
    }
}

/// Encoding twice is encoding once.
pub proof fn lemma_encode_idempotent(s: Seq<char>)
    ensures
        encode_ws(encode_ws(s)) == encode_ws(s),
{
    lemma_encode_leaves_no_space(s);
    lemma_encode_fixed_point(encode_ws(s));
}

/// Whether `c` is an ASCII hexadecimal digit, of either case.
pub open spec fn is_hex_digit(c: char) -> bool {
    ('0' <= c && c <= '9') || ('a' <= c && c <= 'f') || ('A' <= c && c <= 'F')
}

/// The value of a hexadecimal digit.
pub open spec fn hex_value(c: char) -> int {
    if '0' <= c && c <= '9' {
        c as int - '0' as int
    } else if 'a' <= c && c <= 'f' {
        c as int - 'a' as int + 10
    } else {
        c as int - 'A' as int + 10
    }
}

/// The byte that the escape `%` `h1` `h2` stands for.
pub open spec fn escape_byte(h1: char, h2: char) -> int {
    16 * hex_value(h1) + hex_value(h2)
}

/// Bytes that are never decoded into a file name: the two path separators.
pub open spec fn is_unsafe_byte(b: int) -> bool {
    b == 0x2F || b == 0x5C
}

/// Whether the escape `%` `h1` `h2` is decoded: well formed, not a control
/// character and not a path separator.
pub open spec fn escape_decodes(h1: char, h2: char) -> bool {
    is_hex_digit(h1) && is_hex_digit(h2) && escape_byte(h1, h2) >= 0x20 && !is_unsafe_byte(
        escape_byte(h1, h2),
    )
}

/// `s` with each decodable escape replaced by the character of its byte; every
/// other character, unsafe and malformed escapes included, is kept.
pub open spec fn percent_decoded(s: Seq<char>) -> Seq<char>
    decreases s.len(),
{
    if s.len() == 0 {
        Seq::empty()
    } else if s.len() >= 3 && s[0] == '%' && escape_decodes(s[1], s[2]) {
        seq![(escape_byte(s[1], s[2]) as u8) as char] + percent_decoded(s.skip(3))
    } else {
        seq![s[0]] + percent_decoded(s.drop_first())
    }
}

/// Whether `byte` is a path separator, which a file name must not gain.
pub fn is_unsafe_char(byte: u8) -> (r: bool)
    ensures
        r == is_unsafe_byte(byte as int),
{
    byte == 0x2F || byte == 0x5C
}

/// The value of `c` as a hexadecimal digit, if it is one.
fn hex_digit(c: char) -> (r: Option<u8>)
    ensures
        r is Some <==> is_hex_digit(c),
        r matches Some(d) ==> d as int == hex_value(c) && d < 16,
{
    if '0' <= c && c <= '9' {
        Some((c as u32 - '0' as u32) as u8)
    } else if 'a' <= c && c <= 'f' {
        Some((c as u32 - 'a' as u32 + 10) as u8)
    } else if 'A' <= c && c <= 'F' {
        Some((c as u32 - 'A' as u32 + 10) as u8)
    } else {
        None
    }
}

/// Decodes the safe percent escapes of `s`; unsafe and malformed escapes stay as written.
pub fn percent_decode(s: &str) -> (r: String)
    ensures
        r@ == percent_decoded(s@),
{
    let v = chars_of(s);
    let mut out: Vec<char> = Vec::new();
    let mut i: usize = 0;
    assert(v@.skip(0) == v@);
    assert(out@ + v@ == v@);
    while i < v.len()
        invariant
            i <= v@.len(),
            v@ == s@,
            out@ + percent_decoded(v@.skip(i as int)) == percent_decoded(v@),
        decreases v@.len() - i,
    {
        let ghost rest = v@.skip(i as int);
        let c = v[i];
        let mut decoded: Option<char> = None;
        if c == '%' && v.len() - i > 2 {
            if let (Some(d1), Some(d2)) = (hex_digit(v[i + 1]), hex_digit(v[i + 2])) {
                let byte: u8 = d1 * 16 + d2;
                if byte >= 0x20 && !is_unsafe_char(byte) {
                    decoded = Some(byte as char);
                }
            }
        }
        match decoded {
            Some(d) => {
                out.push(d);
                assert(rest.skip(3) == v@.skip(i + 3));
                i = i + 3;
            },
            None => {
                out.push(c);
                assert(rest.drop_first() == v@.skip(i + 1));
                i = i + 1;
            },
        }
    }
    assert(out@ + Seq::<char>::empty() == out@);
    string_of(&out)
}

} // verus!
