use wcurl::codec::{encode_whitespace, is_unsafe_char, percent_decode};
use wcurl::filename::get_url_filename;

#[test]
fn encode_replaces_each_space() {
    let r = encode_whitespace("http://a/b c d");
    assert_eq!(r, "http://a/b%20c%20d");
    assert_eq!(r.matches("%20").count(), 2);
    assert!(!r.contains(' '));
}

#[test]
fn encode_leaves_other_text() {
    assert_eq!(encode_whitespace("http://a/%41\t"), "http://a/%41\t");
    assert_eq!(encode_whitespace(""), "");
}

#[test]
fn encode_twice_is_encode_once() {
    let once = encode_whitespace("a b  c");
    assert_eq!(once, "a%20b%20%20c");
    assert_eq!(encode_whitespace(&once), once);
}

#[test]
fn encode_does_not_reencode_percent20() {
    assert_eq!(encode_whitespace("a%20b c"), "a%20b%20c");
}

#[test]
fn decode_safe_escape() {
    assert_eq!(percent_decode("%41"), "A");
    assert_eq!(percent_decode("my%20file.txt"), "my file.txt");
    assert_eq!(percent_decode("%7e%7E"), "~~");
}

#[test]
fn decode_keeps_path_separators() {
    assert_eq!(percent_decode("%2F"), "%2F");
    assert_eq!(percent_decode("%2f"), "%2f");
    assert_eq!(percent_decode("a%5Cb"), "a%5Cb");
    assert_eq!(percent_decode("%5c"), "%5c");
}

#[test]
fn decode_keeps_control_bytes() {
    assert_eq!(percent_decode("%00"), "%00");
    assert_eq!(percent_decode("%1F"), "%1F");
    assert_eq!(percent_decode("%0a"), "%0a");
    assert_eq!(percent_decode("%20"), " ");
}

#[test]
fn decode_keeps_malformed_escapes() {
    assert_eq!(percent_decode("%zz"), "%zz");
    assert_eq!(percent_decode("%4"), "%4");
    assert_eq!(percent_decode("%"), "%");
    assert_eq!(percent_decode("%%41"), "%A");
    assert_eq!(percent_decode("%+5"), "%+5");
}

#[test]
fn decode_high_byte_as_latin1() {
    assert_eq!(percent_decode("%E9"), "\u{e9}");
}

#[test]
fn unsafe_bytes() {
    assert!(is_unsafe_char(0x2F));
    assert!(is_unsafe_char(0x5C));
    assert!(!is_unsafe_char(0x41));
}

#[test]
fn filename_from_path_with_query() {
    assert_eq!(get_url_filename("https://example.com/path/file.txt?x=1", true), "file.txt");
}

#[test]
fn filename_of_root_is_index() {
    assert_eq!(get_url_filename("https://example.com/", true), "index.html");
    assert_eq!(get_url_filename("https://example.com", true), "index.html");
    assert_eq!(get_url_filename("file.txt", true), "index.html");
}

#[test]
fn filename_fragment_and_no_scheme() {
    assert_eq!(get_url_filename("example.com/a/b.tar.gz#top", true), "b.tar.gz");
    assert_eq!(get_url_filename("https://h/dir/?q=1", false), "index.html");
    assert_eq!(get_url_filename("", true), "index.html");
}

#[test]
fn filename_decoding_follows_flag() {
    assert_eq!(get_url_filename("https://h/my%20file%2Fx", true), "my file%2Fx");
    assert_eq!(get_url_filename("https://h/my%20file%2Fx", false), "my%20file%2Fx");
}

#[test]
fn filename_first_scheme_separator_only() {
    assert_eq!(get_url_filename("https://h/p?u=ftp://x/y", true), "p");
    assert_eq!(get_url_filename("a://b://c", true), "c");
}
