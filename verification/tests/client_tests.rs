use gdown::client::{
    absorb_limited, content_length, default_file_user_agent, default_folder_user_agent, lossy_text,
    sanitize_filename, MAX_RESPONSE_HTML_BYTES,
};

#[test]
fn client_test_sanitize_filename_normal() {
    assert_eq!(sanitize_filename("hello.txt"), "hello.txt");
}

#[test]
fn client_test_sanitize_filename_slashes() {
    assert_eq!(sanitize_filename("path/to\\file"), "path_to_file");
}

#[test]
fn client_test_sanitize_filename_traversal() {
    assert_eq!(
        sanitize_filename("../../../etc/passwd"),
        ".._.._.._etc_passwd"
    );
}

#[test]
fn client_test_sanitize_filename_dot() {
    assert_eq!(sanitize_filename("."), "_");
    assert_eq!(sanitize_filename(".."), "_");
}

#[test]
fn client_test_sanitize_filename_empty() {
    assert_eq!(sanitize_filename(""), "_");
    assert_eq!(sanitize_filename("   "), "_");
}

#[test]
fn client_test_sanitize_filename_quotes() {
    assert_eq!(sanitize_filename("'quoted'"), "quoted");
    assert_eq!(sanitize_filename("\"double\""), "double");
}

#[test]
fn client_test_sanitize_filename_nbsp() {
    assert_eq!(sanitize_filename("hello\u{00A0}world"), "hello world");
}

#[test]
fn client_test_sanitize_filename_whitespace_padding() {
    assert_eq!(sanitize_filename("  file.txt  "), "file.txt");
}

#[test]
fn sanitize_filename_strips_quotes_inside_whitespace() {
    assert_eq!(sanitize_filename(" \"'a b'\" "), "a b");
    assert_eq!(sanitize_filename("\u{2003}x\u{3000}"), "x");
}

#[test]
fn sanitize_filename_keeps_inner_quotes() {
    assert_eq!(sanitize_filename("' 'x"), "'x");
}

#[test]
fn user_agents_are_browser_strings() {
    assert!(default_file_user_agent().contains("Chrome/39.0.2171.95"));
    assert!(default_folder_user_agent().contains("Chrome/98.0.4758.102"));
}

#[test]
fn content_length_parses_unsigned_numbers() {
    assert_eq!(content_length(Some("1234")), Some(1234));
    assert_eq!(content_length(Some("+7")), Some(7));
    assert_eq!(content_length(Some("18446744073709551615")), Some(u64::MAX));
    assert_eq!(content_length(Some("18446744073709551616")), None);
    assert_eq!(content_length(Some("-1")), None);
    assert_eq!(content_length(Some("")), None);
    assert_eq!(content_length(Some("+")), None);
    assert_eq!(content_length(Some(" 5")), None);
    assert_eq!(content_length(None), None);
}

#[test]
fn absorb_limited_stops_at_the_limit() {
    let mut buf = Vec::new();
    assert!(absorb_limited(&mut buf, b"abc"));
    assert_eq!(buf, b"abc");
    let big = vec![b'x'; MAX_RESPONSE_HTML_BYTES];
    assert!(!absorb_limited(&mut buf, &big));
    assert_eq!(buf.len(), MAX_RESPONSE_HTML_BYTES);
    assert!(!absorb_limited(&mut buf, b"more"));
    assert_eq!(buf.len(), 524288);
    let mut exact = Vec::new();
    assert!(absorb_limited(&mut exact, &big));
    assert!(!absorb_limited(&mut exact, b"y"));
}

#[test]
fn lossy_text_replaces_invalid_sequences() {
    assert_eq!(lossy_text("héllo".as_bytes()), "héllo");
    assert_eq!(lossy_text(&[b'a', 0xff, b'b']), "a\u{fffd}b");
}

#[test]
fn sanitize_filename_result_is_trimmed_without_nbsp() {
    let r = sanitize_filename("'a\u{00A0}'");
    assert_eq!(r, "a");
    assert_eq!(r, r.trim());
    let r = sanitize_filename("  \"x\u{00A0}y\"\u{00A0}");
    assert_eq!(r, "x y");
    assert!(!r.contains('\u{00A0}'));
    assert_eq!(r, r.trim());
}

#[test]
fn sanitize_filename_keeps_safe_names() {
    for name in ["report 2024.pdf", "a", "...", "x'y\"z", "données.csv"] {
        assert_eq!(sanitize_filename(name), name);
    }
}
