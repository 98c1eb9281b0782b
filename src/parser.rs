//! Reading the argument list, left to right, into a [`Config`].
use vstd::prelude::*;
use vstd::string::StringExecFns;

use crate::codec::{encode_whitespace, encode_ws};
use crate::config::{initial_config, strings_view, Config, ConfigView};
use crate::text::{chars_of, copy_range, has_prefix, is_exactly, string_of};

verus! {

broadcast use vstd::string::group_string_axioms;

/// What one argument is, outside the URL-only tail after `--`.
#[derive(PartialEq, Eq, Structural, Clone, Copy, Debug)]
pub enum ArgKind {
    /// `-h` or `--help`.
    Help,
    /// `-V` or `--version`.
    Version,
    /// `--dry-run`.
    DryRun,
    /// `--no-decode-filename`.
    NoDecode,
    /// `--`: every later argument is a URL.
    EndOfOptions,
    /// `--curl-options`, its value in the next argument.
    CurlOptions,
    /// `--curl-options=<value>`.
    CurlOptionsInline,
    /// `-o`, `-O` or `--output`, the path in the next argument.
    Output,
    /// `--output=<path>`.
    OutputInline,
    /// `-o<path>` or `-O<path>`.
    OutputGlued,
    /// Any other argument that starts with `-`.
    Unknown,
    /// Anything else.
    Url,
}

/// The text `--curl-options`.
pub open spec fn lit_curl_options() -> Seq<char> {
    seq!['-', '-', 'c', 'u', 'r', 'l', '-', 'o', 'p', 't', 'i', 'o', 'n', 's']
}

/// The text `--output`.
pub open spec fn lit_output() -> Seq<char> {
    seq!['-', '-', 'o', 'u', 't', 'p', 'u', 't']
}

/// How many characters precede the value of an option written with its value.
pub open spec fn inline_prefix_len(k: ArgKind) -> int {
    match k {
        ArgKind::CurlOptionsInline => 15,
        ArgKind::OutputInline => 9,
        _ => 2,
    }
}

/// The kind of the argument `t`.
pub open spec fn classify(t: Seq<char>) -> ArgKind {
    if t == seq!['-', 'h'] || t == seq!['-', '-', 'h', 'e', 'l', 'p'] {
        ArgKind::Help
    } else if t == seq!['-', 'V'] || t == seq!['-', '-', 'v', 'e', 'r', 's', 'i', 'o', 'n'] {
        ArgKind::Version
    } else if t == seq!['-', '-', 'd', 'r', 'y', '-', 'r', 'u', 'n'] {
        ArgKind::DryRun
    } else if t == seq![
        '-', '-', 'n', 'o', '-', 'd', 'e', 'c', 'o', 'd', 'e', '-', 'f', 'i', 'l', 'e', 'n', 'a', 'm', 'e',
    ] {
        ArgKind::NoDecode
    } else if t == seq!['-', '-'] {
        ArgKind::EndOfOptions
    } else if t == lit_curl_options() {
        ArgKind::CurlOptions
    } else if t == seq!['-', 'o'] || t == seq!['-', 'O'] || t == lit_output() {
        ArgKind::Output
    } else if t.len() >= 15 && t.take(15) == lit_curl_options().push('=') {
        ArgKind::CurlOptionsInline
    } else if t.len() >= 9 && t.take(9) == lit_output().push('=') {
        ArgKind::OutputInline
    } else if t.len() > 2 && (t.take(2) == seq!['-', 'o'] || t.take(2) == seq!['-', 'O']) {
        ArgKind::OutputGlued
    } else if t.len() > 0 && t[0] == '-' {
        ArgKind::Unknown
    } else {
        ArgKind::Url
    }
}

/// Sorts the argument `t` into its kind.
pub fn classify_arg(t: &Vec<char>) -> (r: ArgKind)
    ensures
        r == classify(t@),
{
    let curl_options = ['-', '-', 'c', 'u', 'r', 'l', '-', 'o', 'p', 't', 'i', 'o', 'n', 's'];
    let curl_options_eq = ['-', '-', 'c', 'u', 'r', 'l', '-', 'o', 'p', 't', 'i', 'o', 'n', 's', '='];
    let output = ['-', '-', 'o', 'u', 't', 'p', 'u', 't'];
    let output_eq = ['-', '-', 'o', 'u', 't', 'p', 'u', 't', '='];
    assert(curl_options@ == lit_curl_options());
    assert(curl_options_eq@ == lit_curl_options().push('='));
    assert(output@ == lit_output());
    assert(output_eq@ == lit_output().push('='));
    if is_exactly(t, &['-', 'h']) || is_exactly(t, &['-', '-', 'h', 'e', 'l', 'p']) {
        ArgKind::Help
    } else if is_exactly(t, &['-', 'V']) || is_exactly(
        t,
        &['-', '-', 'v', 'e', 'r', 's', 'i', 'o', 'n'],
    ) {
        ArgKind::Version
    } else if is_exactly(t, &['-', '-', 'd', 'r', 'y', '-', 'r', 'u', 'n']) {
        ArgKind::DryRun
    } else if is_exactly(
        t,
        &[
            '-', '-', 'n', 'o', '-', 'd', 'e', 'c', 'o', 'd', 'e', '-', 'f', 'i', 'l', 'e', 'n', 'a', 'm', 'e',
        ],
    ) {
        ArgKind::NoDecode
    } else if is_exactly(t, &['-', '-']) {
        ArgKind::EndOfOptions
    } else if is_exactly(t, &curl_options) {
        ArgKind::CurlOptions
    } else if is_exactly(t, &['-', 'o']) || is_exactly(t, &['-', 'O']) || is_exactly(t, &output) {
        ArgKind::Output
    } else if has_prefix(t, &curl_options_eq) {
        ArgKind::CurlOptionsInline
    } else if has_prefix(t, &output_eq) {
        ArgKind::OutputInline
    } else if t.len() > 2 && (has_prefix(t, &['-', 'o']) || has_prefix(t, &['-', 'O'])) {
        ArgKind::OutputGlued
    } else if t.len() > 0 && t[0] == '-' {
        ArgKind::Unknown
    } else {
        ArgKind::Url
    }
}

/// Why an argument list is refused.
#[derive(PartialEq, Eq, Clone, Debug)]
pub enum ParseError {
    /// `--curl-options` ended the list.
    MissingCurlOptionsValue,
    /// The output flag held here ended the list.
    MissingValue(String),
    /// An argument started with `-` and is no option.
    UnknownOption(String),
    /// No URL was given.
    NoUrls,
}

impl ParseError {
    /// The sentence that reports this error.
    pub fn message(&self) -> (r: String)
        ensures
            r@ == match self@ {
                ParseErrorView::MissingCurlOptionsValue => "--curl-options requires an argument"@,
                ParseErrorView::MissingValue(f) => f + " requires an argument"@,
                ParseErrorView::UnknownOption(t) => "Unknown option: '"@ + t + "'"@,
                ParseErrorView::NoUrls => "You must provide at least one URL to download."@,
            },
    {
        match self {
            ParseError::MissingCurlOptionsValue => "--curl-options requires an argument".to_string(),
            ParseError::MissingValue(f) => {
                let mut m = f.clone();
                m.append(" requires an argument");
                m
            },
            ParseError::UnknownOption(t) => {
                let mut m = "Unknown option: '".to_string();
                m.append(t.as_str());
                m.append("'");
                m
            },
            ParseError::NoUrls => "You must provide at least one URL to download.".to_string(),
        }
    }
}

/// The mathematical content of a [`ParseError`].
pub enum ParseErrorView {
    MissingCurlOptionsValue,
    MissingValue(Seq<char>),
    UnknownOption(Seq<char>),
    NoUrls,
}

impl View for ParseError {
    type V = ParseErrorView;

    open spec fn view(&self) -> ParseErrorView {
        match self {
            ParseError::MissingCurlOptionsValue => ParseErrorView::MissingCurlOptionsValue,
            ParseError::MissingValue(f) => ParseErrorView::MissingValue(f@),
            ParseError::UnknownOption(t) => ParseErrorView::UnknownOption(t@),
            ParseError::NoUrls => ParseErrorView::NoUrls,
        }
    }
}

/// What a valid argument list asks for.
pub enum Parsed {
    /// Fetch, with this configuration.
    Run(Config),
    /// Print the usage text and stop.
    Help,
    /// Print the program's version and stop.
    Version,
}

/// The mathematical content of a [`Parsed`].
pub enum ParsedView {
    Run(ConfigView),
    Help,
    Version,
}

impl View for Parsed {
    type V = ParsedView;

    open spec fn view(&self) -> ParsedView {
        match self {
            Parsed::Run(c) => ParsedView::Run(c@),
            Parsed::Help => ParsedView::Help,
            Parsed::Version => ParsedView::Version,
        }
    }
}

/// The mathematical content of a parse result.
pub open spec fn parse_result_view(r: Result<Parsed, ParseError>) -> Result<ParsedView, ParseErrorView> {
    match r {
        Ok(p) => Ok(p@),
        Err(e) => Err(e@),
    }
}

/// `c` with the URL `t` added, its spaces encoded.
pub open spec fn with_url(c: ConfigView, t: Seq<char>) -> ConfigView {
    ConfigView { urls: c.urls.push(encode_ws(t)), ..c }
}

/// `c` with the curl option `o` added.
pub open spec fn with_option(c: ConfigView, o: Seq<char>) -> ConfigView {
    ConfigView { curl_options: c.curl_options.push(o), ..c }
}

/// `c` with the output path `p`, in place of any earlier one.
pub open spec fn with_output(c: ConfigView, p: Seq<char>) -> ConfigView {
    ConfigView { output_path: Some(p), ..c }
}

/// The result of reading `args` from position `i` on, with `cfg` built so far
/// and `reading_urls` set once `--` was seen.
pub open spec fn parse_from(
    args: Seq<Seq<char>>,
    i: int,
    cfg: ConfigView,
    reading_urls: bool,
) -> Result<ParsedView, ParseErrorView>
    decreases args.len() - i,
{
    if i < 0 || i >= args.len() {
        if cfg.urls.len() == 0 {
            Err(ParseErrorView::NoUrls)
        } else {
            Ok(ParsedView::Run(cfg))
        }
    } else {
        let t = args[i];
        if reading_urls {
            parse_from(args, i + 1, with_url(cfg, t), true)
        } else {
            match classify(t) {
                ArgKind::Help => Ok(ParsedView::Help),
                ArgKind::Version => Ok(ParsedView::Version),
                ArgKind::DryRun => parse_from(args, i + 1, ConfigView { dry_run: true, ..cfg }, false),
                ArgKind::NoDecode => parse_from(
                    args,
                    i + 1,
                    ConfigView { decode_filename: false, ..cfg },
                    false,
                ),
                ArgKind::EndOfOptions => parse_from(args, i + 1, cfg, true),
                ArgKind::CurlOptions => if i + 1 < args.len() {
                    parse_from(args, i + 2, with_option(cfg, args[i + 1]), false)
                } else {
                    Err(ParseErrorView::MissingCurlOptionsValue)
                },
                ArgKind::Output => if i + 1 < args.len() {
                    parse_from(args, i + 2, with_output(cfg, args[i + 1]), false)
                } else {
                    Err(ParseErrorView::MissingValue(t))
                },
                ArgKind::CurlOptionsInline => parse_from(
                    args,
                    i + 1,
                    with_option(cfg, t.skip(inline_prefix_len(ArgKind::CurlOptionsInline))),
                    false,
                ),
                ArgKind::OutputInline => parse_from(
                    args,
                    i + 1,
                    with_output(cfg, t.skip(inline_prefix_len(ArgKind::OutputInline))),
                    false,
                ),
                ArgKind::OutputGlued => parse_from(
                    args,
                    i + 1,
                    with_output(cfg, t.skip(inline_prefix_len(ArgKind::OutputGlued))),
                    false,
                ),
                ArgKind::Unknown => Err(ParseErrorView::UnknownOption(t)),
                ArgKind::Url => parse_from(args, i + 1, with_url(cfg, t), false),
            }
        }
    }
}

proof fn lemma_parse_from_has_urls(
    args: Seq<Seq<char>>,
    i: int,
    cfg: ConfigView,
    reading_urls: bool,
)
    ensures
        parse_from(args, i, cfg, reading_urls) matches Ok(ParsedView::Run(c)) ==> c.urls.len() > 0,
    decreases args.len() - i,
{
    if 0 <= i < args.len() {
        let t = args[i];
        lemma_parse_from_has_urls(args, i + 1, with_url(cfg, t), true);
        lemma_parse_from_has_urls(args, i + 1, with_url(cfg, t), false);
        lemma_parse_from_has_urls(args, i + 1, ConfigView { dry_run: true, ..cfg }, false);
        lemma_parse_from_has_urls(args, i + 1, ConfigView { decode_filename: false, ..cfg }, false);
        lemma_parse_from_has_urls(args, i + 1, cfg, true);
        if i + 1 < args.len() {
            lemma_parse_from_has_urls(args, i + 2, with_option(cfg, args[i + 1]), false);
            lemma_parse_from_has_urls(args, i + 2, with_output(cfg, args[i + 1]), false);
        }
        lemma_parse_from_has_urls(args, i + 1, with_option(cfg, t.skip(15)), false);
        lemma_parse_from_has_urls(args, i + 1, with_output(cfg, t.skip(9)), false);
        lemma_parse_from_has_urls(args, i + 1, with_output(cfg, t.skip(2)), false);
    }
}

/// An argument list that gives no URL is refused: every configuration that
/// parsing yields holds at least one URL.
pub proof fn lemma_run_has_urls(args: Seq<Seq<char>>)
    ensures
        parse_command_line(args) matches Ok(ParsedView::Run(c)) ==> c.urls.len() > 0,
{
    lemma_parse_from_has_urls(args, 0, initial_config(), false);
}

/// The result of reading the whole argument list `args`.
pub open spec fn parse_command_line(args: Seq<Seq<char>>) -> Result<ParsedView, ParseErrorView> {
    parse_from(args, 0, initial_config(), false)
}

proof fn lemma_strings_view_push(v: Seq<String>, s: String)
    ensures
        strings_view(v.push(s)) == strings_view(v).push(s@),
{
    assert(strings_view(v.push(s)) =~= strings_view(v).push(s@));
}

/// The characters of `t` from position `k` on, as a string.
fn tail_string(t: &Vec<char>, k: usize) -> (r: String)
    requires
        k <= t@.len(),
    ensures
        r@ == t@.skip(k as int),
{
    let v = copy_range(t, k, t.len());
    string_of(&v)
}

/// Reads the argument list (the program's name excluded) into what it asks for.
pub fn parse_args(args: &Vec<String>) -> (r: Result<Parsed, ParseError>)
    ensures
        parse_result_view(r) == parse_command_line(strings_view(args@)),
{
    let ghost a = strings_view(args@);
    let mut cfg = Config::new();
    let mut reading_urls = false;
    let mut i: usize = 0;
    while i < args.len()
        invariant
            i <= args@.len(),
            a == strings_view(args@),
            parse_from(a, i as int, cfg@, reading_urls) == parse_command_line(a),
        decreases args@.len() - i,
    {
        let ghost before = cfg@;
        let t = &args[i];
        assert(a[i as int] == t@);
        if reading_urls {
            let u = encode_whitespace(t.as_str());
            proof { lemma_strings_view_push(cfg.urls@, u); }
            cfg.urls.push(u);
            assert(cfg@ == with_url(before, t@));
            i = i + 1;
        } else {
            let v = chars_of(t.as_str());
            let kind = classify_arg(&v);
            match kind {
                ArgKind::Help => {
                    return Ok(Parsed::Help);
                },
                ArgKind::Version => {
                    return Ok(Parsed::Version);
                },
                ArgKind::DryRun => {
                    cfg.dry_run = true;
                    i = i + 1;
                },
                ArgKind::NoDecode => {
                    cfg.decode_filename = false;
                    i = i + 1;
                },
                ArgKind::EndOfOptions => {
                    reading_urls = true;
                    i = i + 1;
                },
                ArgKind::CurlOptions => {
                    if i + 1 >= args.len() {
                        return Err(ParseError::MissingCurlOptionsValue);
                    }
                    let o = args[i + 1].clone();
                    assert(a[i + 1] == o@);
                    proof { lemma_strings_view_push(cfg.curl_options@, o); }
                    cfg.curl_options.push(o);
                    assert(cfg@ == with_option(before, a[i + 1]));
                    i = i + 2;
                },
                ArgKind::Output => {
                    if i + 1 >= args.len() {
                        return Err(ParseError::MissingValue(t.clone()));
                    }
                    let o = args[i + 1].clone();
                    assert(a[i + 1] == o@);
                    cfg.output_path = Some(o);
                    assert(cfg@ == with_output(before, a[i + 1]));
                    i = i + 2;
                },
                ArgKind::CurlOptionsInline => {
                    let o = tail_string(&v, 15);
                    proof { lemma_strings_view_push(cfg.curl_options@, o); }
                    cfg.curl_options.push(o);
                    assert(cfg@ == with_option(before, t@.skip(15)));
                    i = i + 1;
                },
                ArgKind::OutputInline => {
                    let o = tail_string(&v, 9);
                    cfg.output_path = Some(o);
                    assert(cfg@ == with_output(before, t@.skip(9)));
                    i = i + 1;
                },
                ArgKind::OutputGlued => {
                    let o = tail_string(&v, 2);
                    cfg.output_path = Some(o);
                    assert(cfg@ == with_output(before, t@.skip(2)));
                    i = i + 1;
                },
                ArgKind::Unknown => {
                    return Err(ParseError::UnknownOption(t.clone()));
                },
                ArgKind::Url => {
                    let u = encode_whitespace(t.as_str());
                    proof { lemma_strings_view_push(cfg.urls@, u); }
                    cfg.urls.push(u);
                    assert(cfg@ == with_url(before, t@));
                    i = i + 1;
                },
            }
        }
    }
    if cfg.urls.len() == 0 {
        return Err(ParseError::NoUrls);
    }
    Ok(Parsed::Run(cfg))
}

} // verus!
