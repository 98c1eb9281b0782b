use wcurl::command::{build_curl_args, format_command, minimum_version, supports, Feature};
use wcurl::config::Config;
use wcurl::version::{parse_version, ToolVersion, VersionError};

fn v(major: u32, minor: u32) -> ToolVersion {
    ToolVersion { major, minor }
}

fn config(urls: &[&str]) -> Config {
    let mut c = Config::new();
    for u in urls {
        c.urls.push(u.to_string());
    }
    c
}

fn count(args: &[String], s: &str) -> usize {
    args.iter().filter(|a| a.as_str() == s).count()
}

#[test]
fn parallel_gate() {
    assert!(!supports(v(7, 65), Feature::Parallel));
    assert!(supports(v(7, 66), Feature::Parallel));
    assert!(supports(v(8, 15), Feature::Parallel));
    assert!(supports(v(8, 0), Feature::Parallel));
}

#[test]
fn max_host_gate() {
    assert!(!supports(v(8, 15), Feature::ParallelMaxHost));
    assert!(supports(v(8, 16), Feature::ParallelMaxHost));
    assert!(supports(v(9, 0), Feature::ParallelMaxHost));
    assert!(!supports(v(7, 99), Feature::ParallelMaxHost));
}

#[test]
fn no_clobber_gate() {
    assert!(!supports(v(7, 82), Feature::NoClobber));
    assert!(supports(v(7, 83), Feature::NoClobber));
    assert_eq!(minimum_version(Feature::NoClobber), v(7, 83));
}

#[test]
fn two_urls_recent_curl() {
    let a = build_curl_args(&config(&["http://a/x", "http://b/y"]), v(8, 16));
    assert_eq!(count(&a, "--parallel"), 1);
    assert_eq!(count(&a, "--parallel-max-host"), 1);
    assert_eq!(count(&a, "--next"), 1);
    assert_eq!(&a[0..3], &["--parallel", "--parallel-max-host", "5"]);
    let next = a.iter().position(|s| s == "--next").unwrap();
    assert!(next > a.iter().position(|s| s == "http://a/x").unwrap());
    assert!(next < a.iter().position(|s| s == "http://b/y").unwrap());
    assert_eq!(count(&a, "--no-clobber"), 2);
}

#[test]
fn two_urls_without_max_host() {
    let a = build_curl_args(&config(&["u1", "u2"]), v(8, 15));
    assert_eq!(a[0], "--parallel");
    assert_eq!(count(&a, "--parallel-max-host"), 0);
    let a = build_curl_args(&config(&["u1", "u2"]), v(7, 65));
    assert_eq!(count(&a, "--parallel"), 0);
    assert_eq!(count(&a, "--no-clobber"), 0);
}

#[test]
fn single_url_block() {
    let mut c = config(&["https://h/d/f%41.txt"]);
    c.curl_options.push("-k".to_string());
    let a = build_curl_args(&c, v(7, 83));
    let expected: Vec<String> = [
        "--fail", "--globoff", "--location", "--proto-default", "https", "--remote-time", "--retry",
        "5", "--no-clobber", "--output", "fA.txt", "-k", "https://h/d/f%41.txt",
    ]
    .iter()
    .map(|s| s.to_string())
    .collect();
    assert_eq!(a, expected);
}

#[test]
fn shared_output_path_and_no_decode() {
    let mut c = config(&["http://h/a%41", "http://h/"]);
    c.output_path = Some("out".to_string());
    let a = build_curl_args(&c, v(8, 0));
    assert_eq!(count(&a, "out"), 2);
    let mut c = config(&["http://h/a%41"]);
    c.decode_filename = false;
    let a = build_curl_args(&c, v(7, 0));
    assert!(a.contains(&"a%41".to_string()));
    assert_eq!(a.len(), 11);
}

#[test]
fn dry_run_line() {
    let a = build_curl_args(&config(&["http://h/"]), v(7, 82));
    assert_eq!(
        format_command(&a),
        "curl --fail --globoff --location --proto-default https --remote-time --retry 5 --output index.html http://h/"
    );
    assert_eq!(format_command(&Vec::new()), "curl");
}

#[test]
fn version_report_parsed() {
    let r = parse_version("curl 8.5.0 (x86_64-pc-linux-gnu) libcurl/8.5.0\nRelease-Date: 2023-12-06\n");
    assert_eq!(r, Ok(v(8, 5)));
    assert_eq!(parse_version("  curl\t7.66\r\n"), Ok(v(7, 66)));
    assert_eq!(parse_version("curl +8.+1-DEV"), Err(VersionError::InvalidMinor));
    assert_eq!(parse_version("curl +8.16"), Ok(v(8, 16)));
}

#[test]
fn version_report_errors() {
    assert_eq!(parse_version(""), Err(VersionError::NoOutput));
    assert_eq!(parse_version("curl\n8.5.0"), Err(VersionError::TooFewFields));
    assert_eq!(parse_version("curl 8"), Err(VersionError::InvalidFormat));
    assert_eq!(parse_version("curl x.5"), Err(VersionError::InvalidMajor));
    assert_eq!(parse_version("curl 99999999999.5"), Err(VersionError::InvalidMajor));
    assert_eq!(parse_version("curl 8.y"), Err(VersionError::InvalidMinor));
    assert_eq!(parse_version("curl 8."), Err(VersionError::InvalidMinor));
    assert_eq!(VersionError::InvalidFormat.message(), "Invalid version format");
    assert_eq!(VersionError::TooFewFields.message(), "Could not parse curl version");
}
