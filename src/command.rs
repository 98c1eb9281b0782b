//! The argument list of the curl invocation: version-gated flags, then one
//! block of parameters per URL.
use vstd::prelude::*;
use vstd::string::StringExecFns;

use crate::config::{strings_view, Config, ConfigView};
use crate::filename::{get_url_filename, url_filename};
use crate::version::ToolVersion;

verus! {

broadcast use vstd::string::group_string_axioms;

/// A curl feature that the flags depend on.
#[derive(PartialEq, Eq, Structural, Clone, Copy, Debug)]
pub enum Feature {
    /// `--parallel`: the transfers of one invocation run at once.
    Parallel,
    /// `--parallel-max-host`: a cap on simultaneous connections per host.
    ParallelMaxHost,
    /// `--no-clobber`: an existing file is never overwritten.
    NoClobber,
}

/// The first curl version that has the feature `f`.
pub open spec fn min_version(f: Feature) -> ToolVersion {
    match f {
        Feature::Parallel => ToolVersion { major: 7, minor: 66 },
        Feature::ParallelMaxHost => ToolVersion { major: 8, minor: 16 },
        Feature::NoClobber => ToolVersion { major: 7, minor: 83 },
    }
}

/// Whether version `v` is `m` or later.
pub open spec fn at_least(v: ToolVersion, m: ToolVersion) -> bool {
    v.major > m.major || (v.major == m.major && v.minor >= m.minor)
}

/// Whether curl of version `v` has the feature `f`.
pub open spec fn has_feature(v: ToolVersion, f: Feature) -> bool {
    at_least(v, min_version(f))
}

/// The first curl version that has the feature `f`.
pub fn minimum_version(f: Feature) -> (r: ToolVersion)
    ensures
        r == min_version(f),
{
    match f {
        Feature::Parallel => ToolVersion { major: 7, minor: 66 },
        Feature::ParallelMaxHost => ToolVersion { major: 8, minor: 16 },
        Feature::NoClobber => ToolVersion { major: 7, minor: 83 },
    }
}

/// Whether curl of version `v` has the feature `f`.
pub fn supports(v: ToolVersion, f: Feature) -> (r: bool)
    ensures
        r == has_feature(v, f),
{
    let m = minimum_version(f);
    v.major > m.major || (v.major == m.major && v.minor >= m.minor)
}

/// The flags that come before the first URL's block: parallel transfers when
/// there are several URLs and curl has them, and then the per-host cap when
/// curl has that too.
pub open spec fn global_flags(c: ConfigView, v: ToolVersion) -> Seq<Seq<char>> {
    if c.urls.len() >= 2 && has_feature(v, Feature::Parallel) {
        if has_feature(v, Feature::ParallelMaxHost) {
            seq!["--parallel"@, "--parallel-max-host"@, "5"@]
        } else {
            seq!["--parallel"@]
        }
    } else {
        Seq::empty()
    }
}

/// The parameters that every transfer gets.
pub open spec fn per_url_params() -> Seq<Seq<char>> {
    seq![
        "--fail"@,
        "--globoff"@,
        "--location"@,
        "--proto-default"@,
        "https"@,
        "--remote-time"@,
        "--retry"@,
        "5"@,
    ]
}

/// Where the transfer of the `k`-th URL writes: the path given, else the URL's default file name.
pub open spec fn output_for(c: ConfigView, k: int) -> Seq<char> {
    match c.output_path {
        Some(p) => p,
        None => url_filename(c.urls[k], c.decode_filename),
    }
}

/// What starts a URL's block: `--next` for every URL but the first.
pub open spec fn separator(later: bool) -> Seq<Seq<char>> {
    if later {
        seq!["--next"@]
    } else {
        Seq::empty()
    }
}

/// `--no-clobber` where curl has it.
pub open spec fn no_clobber_flag(has_it: bool) -> Seq<Seq<char>> {
    if has_it {
        seq!["--no-clobber"@]
    } else {
        Seq::empty()
    }
}

/// The arguments of a URL's block that come before its output path.
pub open spec fn fixed_params(later: bool, no_clobber: bool) -> Seq<Seq<char>> {
    separator(later) + per_url_params() + no_clobber_flag(no_clobber)
}

/// The block of arguments of the `k`-th URL.
pub open spec fn url_block(c: ConfigView, v: ToolVersion, k: int) -> Seq<Seq<char>> {
    fixed_params(k > 0, has_feature(v, Feature::NoClobber)) + seq!["--output"@, output_for(c, k)]
        + c.curl_options + seq![c.urls[k]]
}

/// The blocks of the first `n` URLs, in order.
pub open spec fn url_blocks(c: ConfigView, v: ToolVersion, n: int) -> Seq<Seq<char>>
    decreases n,
{
    if n <= 0 {
        Seq::empty()
    } else {
        url_blocks(c, v, n - 1) + url_block(c, v, n - 1)
    }
}

/// The arguments of the curl invocation for `c` on curl of version `v`.
pub open spec fn command_args(c: ConfigView, v: ToolVersion) -> Seq<Seq<char>> {
    global_flags(c, v) + url_blocks(c, v, c.urls.len() as int)
}

/// With two URLs on a curl that caps connections per host, the invocation
/// starts with one `--parallel` and one `--parallel-max-host 5`, then the
/// first URL's block, which has no separator, then the second URL's block,
/// which starts with `--next`.
pub proof fn lemma_two_urls_command(c: ConfigView, v: ToolVersion)
    requires
        c.urls.len() == 2,
        has_feature(v, Feature::ParallelMaxHost),
    ensures
        command_args(c, v) == seq!["--parallel"@, "--parallel-max-host"@, "5"@] + url_block(c, v, 0)
            + url_block(c, v, 1),
        url_block(c, v, 0) == per_url_params() + no_clobber_flag(true) + seq![
            "--output"@,
            output_for(c, 0),
        ] + c.curl_options + seq![c.urls[0]],
        url_block(c, v, 1) == seq!["--next"@] + per_url_params() + no_clobber_flag(true) + seq![
            "--output"@,
            output_for(c, 1),
        ] + c.curl_options + seq![c.urls[1]],
{
    assert(has_feature(v, Feature::Parallel));
    assert(has_feature(v, Feature::NoClobber));
    assert(url_blocks(c, v, 0) == Seq::<Seq<char>>::empty());
    assert(url_blocks(c, v, 1) == url_block(c, v, 0)) by {
        assert(Seq::<Seq<char>>::empty() + url_block(c, v, 0) == url_block(c, v, 0));
    }
    assert(url_blocks(c, v, 2) == url_block(c, v, 0) + url_block(c, v, 1));
    assert(command_args(c, v) =~= seq!["--parallel"@, "--parallel-max-host"@, "5"@] + url_block(
        c,
        v,
        0,
    ) + url_block(c, v, 1));
    assert(separator(false) + per_url_params() == per_url_params());
}

/// Appends `s` to `out`.
fn push_arg(out: &mut Vec<String>, s: &str)
    ensures
        strings_view(final(out)@) == strings_view(old(out)@).push(s@),
{
    let ghost prev = out@;
    out.push(s.to_string());
    assert(strings_view(out@) =~= strings_view(prev).push(s@));
}

/// Appends every string of `items` to `out`, in order.
fn push_all(out: &mut Vec<String>, items: &Vec<String>)
    ensures
        strings_view(final(out)@) == strings_view(old(out)@) + strings_view(items@),
{
    let ghost start = strings_view(out@);
    let mut i: usize = 0;
    while i < items.len()
        invariant
            i <= items@.len(),
            strings_view(out@) == start + strings_view(items@.take(i as int)),
        decreases items@.len() - i,
    {
        push_arg(out, items[i].as_str());
        proof {
            assert(strings_view(items@.take(i + 1)) =~= strings_view(items@.take(i as int)).push(
                items@[i as int]@,
            ));
        }
        i = i + 1;
    }
    assert(items@.take(i as int) == items@);
}

/// Appends the arguments of a URL's block that come before its output path.
fn push_fixed_params(out: &mut Vec<String>, later: bool, no_clobber: bool)
    ensures
        strings_view(final(out)@) == strings_view(old(out)@) + fixed_params(later, no_clobber),
{
    let ghost start = strings_view(out@);
    if later {
        push_arg(out, "--next");
    }
    assert(strings_view(out@) =~= start + separator(later));
    push_arg(out, "--fail");
    push_arg(out, "--globoff");
    push_arg(out, "--location");
    push_arg(out, "--proto-default");
    push_arg(out, "https");
    push_arg(out, "--remote-time");
    push_arg(out, "--retry");
    push_arg(out, "5");
    assert(strings_view(out@) =~= start + separator(later) + per_url_params());
    let ghost mid = strings_view(out@);
    if no_clobber {
        push_arg(out, "--no-clobber");
    }
    assert(strings_view(out@) =~= mid + no_clobber_flag(no_clobber));
    assert(strings_view(out@) =~= start + fixed_params(later, no_clobber));
}

/// Appends the block of arguments of the `k`-th URL of `config`.
fn push_url_block(out: &mut Vec<String>, config: &Config, version: ToolVersion, k: usize)
    requires
        k < config.urls@.len(),
    ensures
        strings_view(final(out)@) == strings_view(old(out)@) + url_block(config@, version, k as int),
{
    let ghost c = config@;
    let ghost start = strings_view(out@);
    push_fixed_params(out, k > 0, supports(version, Feature::NoClobber));
    let ghost fixed = strings_view(out@);
    push_arg(out, "--output");
    let url = &config.urls[k];
    assert(c.urls[k as int] == url@);
    match &config.output_path {
        Some(p) => push_arg(out, p.as_str()),
        None => {
            let name = get_url_filename(url.as_str(), config.decode_filename);
            push_arg(out, name.as_str());
        },
    }
    assert(strings_view(out@) =~= fixed + seq!["--output"@, output_for(c, k as int)]);
    let ghost with_output = strings_view(out@);
    push_all(out, &config.curl_options);
    push_arg(out, url.as_str());
    assert(strings_view(out@) =~= with_output + c.curl_options + seq![c.urls[k as int]]);
    assert(strings_view(out@) =~= start + url_block(c, version, k as int));
}

/// The arguments of the curl invocation that carries out `config` on curl of
/// version `version`.
pub fn build_curl_args(config: &Config, version: ToolVersion) -> (r: Vec<String>)
    ensures
        strings_view(r@) == command_args(config@, version),
{
    let ghost c = config@;
    let mut out: Vec<String> = Vec::new();
    assert(strings_view(out@) =~= Seq::<Seq<char>>::empty());
    if config.urls.len() >= 2 && supports(version, Feature::Parallel) {
        push_arg(&mut out, "--parallel");
        if supports(version, Feature::ParallelMaxHost) {
            push_arg(&mut out, "--parallel-max-host");
            push_arg(&mut out, "5");
        }
    }
    assert(strings_view(out@) =~= global_flags(c, version));
    let mut k: usize = 0;
    while k < config.urls.len()
        invariant
            k <= config.urls@.len(),
            c == config@,
            strings_view(out@) == global_flags(c, version) + url_blocks(c, version, k as int),
        decreases config.urls@.len() - k,
    {
        let ghost before = strings_view(out@);
        push_url_block(&mut out, config, version, k);
        assert(url_blocks(c, version, k + 1) == url_blocks(c, version, k as int) + url_block(
            c,
            version,
            k as int,
        ));
        assert(strings_view(out@) =~= global_flags(c, version) + url_blocks(c, version, k + 1));
        k = k + 1;
    }
    out
}

/// The invocation as one line: `curl` and each argument after a space.
pub open spec fn command_line(args: Seq<Seq<char>>) -> Seq<char>
    decreases args.len(),
{
    if args.len() == 0 {
        "curl"@
    } else {
        command_line(args.drop_last()) + seq![' '] + args.last()
    }
}

/// The line that a dry run prints for the arguments `args`.
pub fn format_command(args: &Vec<String>) -> (r: String)
    ensures
        r@ == command_line(strings_view(args@)),
{
    let mut line = "curl".to_string();
    let mut i: usize = 0;
    while i < args.len()
        invariant
            i <= args@.len(),
            line@ == command_line(strings_view(args@.take(i as int))),
        decreases args@.len() - i,
    {
        proof {
            let t = strings_view(args@.take(i + 1));
            assert(t.drop_last() =~= strings_view(args@.take(i as int)));
            assert(t.last() == args@[i as int]@);
        }
        line.push(' ');
        line.append(args[i].as_str());
        i = i + 1;
    }
    assert(args@.take(i as int) == args@);
    line
}

} // verus!
