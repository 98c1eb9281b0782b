use wcurl::config::Config;
use wcurl::parser::{parse_args, ParseError, Parsed};

fn args(a: &[&str]) -> Vec<String> {
    a.iter().map(|s| s.to_string()).collect()
}

fn run_config(a: &[&str]) -> Config {
    match parse_args(&args(a)) {
        Ok(Parsed::Run(c)) => c,
        Ok(Parsed::Help) => panic!("help"),
        Ok(Parsed::Version) => panic!("version"),
        Err(e) => panic!("{}", e.message()),
    }
}

fn parse_error(a: &[&str]) -> ParseError {
    match parse_args(&args(a)) {
        Err(e) => e,
        Ok(_) => panic!("accepted"),
    }
}

#[test]
fn output_and_two_urls() {
    let c = run_config(&["-o", "out.bin", "http://a", "http://b"]);
    assert_eq!(c.output_path, Some("out.bin".to_string()));
    assert_eq!(c.urls, vec!["http://a".to_string(), "http://b".to_string()]);
    assert!(!c.dry_run);
    assert!(c.decode_filename);
    assert!(c.curl_options.is_empty());
}

#[test]
fn curl_options_accumulate_in_order() {
    let c = run_config(&["--curl-options", "-k", "--curl-options", "-v", "http://a"]);
    assert_eq!(c.curl_options, vec!["-k".to_string(), "-v".to_string()]);
    assert_eq!(c.urls, vec!["http://a".to_string()]);
}

#[test]
fn curl_options_inline() {
    let c = run_config(&["--curl-options=--insecure", "--curl-options=", "u"]);
    assert_eq!(c.curl_options, vec!["--insecure".to_string(), String::new()]);
}

#[test]
fn no_urls_is_an_error() {
    assert_eq!(parse_error(&[]), ParseError::NoUrls);
    assert_eq!(parse_error(&["--dry-run", "-o", "x"]), ParseError::NoUrls);
    assert_eq!(parse_error(&["--"]), ParseError::NoUrls);
    assert_eq!(
        parse_error(&["--dry-run"]).message(),
        "You must provide at least one URL to download."
    );
}

#[test]
fn missing_curl_options_value() {
    let e = parse_error(&["http://a", "--curl-options"]);
    assert_eq!(e, ParseError::MissingCurlOptionsValue);
    assert_eq!(e.message(), "--curl-options requires an argument");
}

#[test]
fn missing_output_value_names_flag() {
    let e = parse_error(&["http://a", "-O"]);
    assert_eq!(e, ParseError::MissingValue("-O".to_string()));
    assert_eq!(e.message(), "-O requires an argument");
    assert_eq!(
        parse_error(&["http://a", "--output"]),
        ParseError::MissingValue("--output".to_string())
    );
}

#[test]
fn unknown_option() {
    let e = parse_error(&["--bogus", "http://a"]);
    assert_eq!(e, ParseError::UnknownOption("--bogus".to_string()));
    assert_eq!(e.message(), "Unknown option: '--bogus'");
    assert_eq!(parse_error(&["-"]), ParseError::UnknownOption("-".to_string()));
    assert_eq!(
        parse_error(&["--outputx", "u"]),
        ParseError::UnknownOption("--outputx".to_string())
    );
}

#[test]
fn output_forms_last_wins() {
    let c = run_config(&["-oa", "--output=b", "-O", "c", "u"]);
    assert_eq!(c.output_path, Some("c".to_string()));
    let c = run_config(&["--output", "x", "-Oglued", "u"]);
    assert_eq!(c.output_path, Some("glued".to_string()));
    let c = run_config(&["u", "--output=p"]);
    assert_eq!(c.output_path, Some("p".to_string()));
}

#[test]
fn flags_set_fields() {
    let c = run_config(&["--dry-run", "--no-decode-filename", "u"]);
    assert!(c.dry_run);
    assert!(!c.decode_filename);
}

#[test]
fn double_dash_makes_urls() {
    let c = run_config(&["a", "--", "-h", "--dry-run", "x y"]);
    assert_eq!(
        c.urls,
        vec!["a".to_string(), "-h".to_string(), "--dry-run".to_string(), "x%20y".to_string()]
    );
    assert!(!c.dry_run);
}

#[test]
fn urls_get_spaces_encoded() {
    let c = run_config(&["http://h/a b"]);
    assert_eq!(c.urls, vec!["http://h/a%20b".to_string()]);
}

#[test]
fn help_and_version_stop_parsing() {
    assert!(matches!(parse_args(&args(&["-h", "--bogus"])), Ok(Parsed::Help)));
    assert!(matches!(parse_args(&args(&["u", "--help"])), Ok(Parsed::Help)));
    assert!(matches!(parse_args(&args(&["-V"])), Ok(Parsed::Version)));
    assert!(matches!(parse_args(&args(&["--version", "u"])), Ok(Parsed::Version)));
    assert!(matches!(parse_args(&args(&["--bogus", "-h"])), Err(ParseError::UnknownOption(_))));
}

#[test]
fn new_config_defaults() {
    let c = Config::new();
    assert!(c.urls.is_empty());
    assert!(c.curl_options.is_empty());
    assert_eq!(c.output_path, None);
    assert!(c.decode_filename);
    assert!(!c.dry_run);
}
