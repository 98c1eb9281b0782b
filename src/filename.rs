//! The default output file name that a URL gives.
use vstd::prelude::*;

use crate::codec::{percent_decode, percent_decoded};
use crate::text::{chars_of, copy_range, string_of};

verus! {

broadcast use vstd::string::group_string_axioms;

/// Whether `s` holds `://` at position `i`.
pub open spec fn scheme_sep_at(s: Seq<char>, i: int) -> bool {
    0 <= i && i + 3 <= s.len() && s[i] == ':' && s[i + 1] == '/' && s[i + 2] == '/'
}

/// The first position at or after `i` where `s` holds `://`.
pub open spec fn scheme_sep_from(s: Seq<char>, i: int) -> Option<int>
    decreases s.len() - i,
{
    if i < 0 || i + 3 > s.len() {
        None
    } else if scheme_sep_at(s, i) {
        Some(i)
    } else {
        scheme_sep_from(s, i + 1)
    }
}

/// The URL without its scheme: what follows the first `://`, or all of it.
pub open spec fn after_scheme(s: Seq<char>) -> Seq<char> {
    match scheme_sep_from(s, 0) {
        Some(i) => s.skip(i + 3),
        None => s,
    }
}

/// Whether `c` starts a query string or a fragment.
pub open spec fn is_query_start(c: char) -> bool {
    c == '?' || c == '#'
}

/// The first position at or after `i` where a query or fragment starts, else the length.
pub open spec fn query_start_from(s: Seq<char>, i: int) -> int
    decreases s.len() - i,
{
    if i < 0 || i >= s.len() {
        s.len() as int
    } else if is_query_start(s[i]) {
        i
    } else {
        query_start_from(s, i + 1)
    }
}

/// `s` up to its first `?` or `#`.
pub open spec fn before_query(s: Seq<char>) -> Seq<char> {
    s.take(query_start_from(s, 0))
}

/// The position of the last `/` among the first `n` characters of `s`, or -1.
pub open spec fn last_slash_before(s: Seq<char>, n: int) -> int
    decreases n,
{
    if n <= 0 {
        -1
    } else if s[n - 1] == '/' {
        n - 1
    } else {
        last_slash_before(s, n - 1)
    }
}

/// What follows the last `/` of `s`; empty where `s` holds no `/`.
pub open spec fn last_segment(s: Seq<char>) -> Seq<char> {
    let k = last_slash_before(s, s.len() as int);
    if k < 0 {
        Seq::empty()
    } else {
        s.skip(k + 1)
    }
}

/// The name used when a URL ends in no file name.
pub open spec fn fallback_name() -> Seq<char> {
    seq!['i', 'n', 'd', 'e', 'x', '.', 'h', 't', 'm', 'l']
}

/// The default file name of `url`: the last path segment, without scheme,
/// query or fragment, percent-decoded when `decode` holds.
pub open spec fn url_filename(url: Seq<char>, decode: bool) -> Seq<char> {
    let seg = last_segment(before_query(after_scheme(url)));
    if seg.len() == 0 {
        fallback_name()
    } else if decode {
        percent_decoded(seg)
    } else {
        seg
    }
}

/// Position of the first `://` of `v`.
fn find_scheme_sep(v: &Vec<char>) -> (r: Option<usize>)
    ensures
        r matches Some(i) ==> scheme_sep_from(v@, 0) == Some(i as int) && i + 3 <= v@.len(),
        r is None ==> scheme_sep_from(v@, 0) is None,
{
    let mut i: usize = 0;
    while i < v.len() && v.len() - i >= 3
        invariant
            scheme_sep_from(v@, 0) == scheme_sep_from(v@, i as int),
        decreases v@.len() - i,
    {
        if v[i] == ':' && v[i + 1] == '/' && v[i + 2] == '/' {
            return Some(i);
        }
        i = i + 1;
    }
    None
}

/// Position of the first `?` or `#` of `v`, or its length.
fn find_query_start(v: &Vec<char>) -> (r: usize)
    ensures
        r as int == query_start_from(v@, 0),
        r <= v@.len(),
{
    let mut i: usize = 0;
    while i < v.len()
        invariant
            i <= v@.len(),
            query_start_from(v@, 0) == query_start_from(v@, i as int),
        decreases v@.len() - i,
    {
        if v[i] == '?' || v[i] == '#' {
            return i;
        }
        i = i + 1;
    }
    i
}

/// What follows the last `/` of `s`; empty where `s` holds no `/`.
pub fn last_segment_of(s: &Vec<char>) -> (r: Vec<char>)
    ensures
        r@ == last_segment(s@),
{
    let mut n: usize = s.len();
    while n > 0 && s[n - 1] != '/'
        invariant
            n <= s@.len(),
            last_slash_before(s@, s@.len() as int) == last_slash_before(s@, n as int),
        decreases n,
    {
        n = n - 1;
    }
    if n == 0 {
        Vec::new()
    } else {
        copy_range(s, n, s.len())
    }
}

/// The default output file name for `url`: what follows the last `/` once
/// scheme, query and fragment are gone, percent-decoded when `decode` holds;
/// `index.html` where nothing follows a `/` or there is none.
pub fn get_url_filename(url: &str, decode: bool) -> (r: String)
    ensures
        r@ == url_filename(url@, decode),
{
    let v = chars_of(url);
    let n = v.len();
    let path = match find_scheme_sep(&v) {
        Some(i) => {
            copy_range(&v, i + 3, n)
        },
        None => v,
    };
    assert(path@ == after_scheme(url@));
    let end = find_query_start(&path);
    let head = copy_range(&path, 0, end);
    let seg = last_segment_of(&head);
    if seg.len() == 0 {
        let r = "index.html".to_string();
        proof {
            reveal_strlit("index.html");
            assert(r@ == fallback_name());
        }
        r
    } else {
        let name = string_of(&seg);
        if decode {
            percent_decode(name.as_str())
        } else {
            name
        }
    }
}

} // verus!
