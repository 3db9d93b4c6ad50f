use gdown::error::Error;
use gdown::types::resolve_url_or_id;

#[test]
fn resolve_url_or_id_uses_the_id() {
    let r = resolve_url_or_id(&None, &Some("abc".to_string()), |id| {
        format!("https://drive.google.com/uc?id={id}")
    });
    assert_eq!(r.unwrap(), "https://drive.google.com/uc?id=abc");
}

#[test]
fn resolve_url_or_id_keeps_the_url() {
    let r = resolve_url_or_id(&Some("https://example.com/x".to_string()), &None, |_| {
        unreachable!("the id function is not called when a URL is given")
    });
    assert_eq!(r.unwrap(), "https://example.com/x");
}

#[test]
fn resolve_url_or_id_needs_exactly_one() {
    for (url, id) in [
        (None, None),
        (Some("https://example.com".to_string()), Some("abc".to_string())),
    ] {
        match resolve_url_or_id(&url, &id, |id| id.clone()) {
            Err(Error::InvalidInput(msg)) => {
                assert_eq!(msg, "exactly one of url or id must be specified");
                assert!(msg.contains("exactly one"));
            }
            other => panic!("unexpected: {other:?}"),
        }
    }
}

#[test]
fn split_url_or_id_by_scheme() {
    use_split();
}

fn use_split() {
    assert_eq!(
        gdown::types::split_url_or_id("https://x/y"),
        (Some("https://x/y".to_string()), None)
    );
    assert_eq!(
        gdown::types::split_url_or_id("http://x"),
        (Some("http://x".to_string()), None)
    );
    assert_eq!(gdown::types::split_url_or_id("1AbC"), (None, Some("1AbC".to_string())));
    assert_eq!(gdown::types::split_url_or_id("ftp://x"), (None, Some("ftp://x".to_string())));
}

#[test]
fn test_download_either_url_or_id_required() {
    let result = resolve_url_or_id(&None, &None, gdown::download::file_url_for_id);
    assert!(result.is_err());
    if let Err(Error::InvalidInput(msg)) = result {
        assert!(msg.contains("exactly one"));
    }
}

#[test]
fn test_download_both_url_and_id_is_error() {
    let result = resolve_url_or_id(
        &Some("https://example.com".to_string()),
        &Some("abc".to_string()),
        gdown::download::file_url_for_id,
    );
    assert!(result.is_err());
}

#[test]
fn test_download_folder_either_url_or_id_required() {
    let result = resolve_url_or_id(&None, &None, gdown::download_folder::folder_url_for_id);
    assert!(result.is_err());
}

#[test]
fn test_download_folder_both_url_and_id_is_error() {
    let result = resolve_url_or_id(
        &Some("https://drive.google.com/drive/folders/abc".to_string()),
        &Some("abc".to_string()),
        gdown::download_folder::folder_url_for_id,
    );
    assert!(result.is_err());
}

#[test]
fn error_display_text_matches_variants() {
    assert_eq!(Error::Http("timeout".to_string()).display_text(), "HTTP error: timeout");
    assert_eq!(Error::Io("denied".to_string()).display_text(), "IO error: denied");
    assert_eq!(Error::UrlParse("bad".to_string()).display_text(), "URL parse error: bad");
    assert_eq!(Error::InvalidInput("empty path".to_string()).display_text(), "empty path");
    assert_eq!(Error::Parse("p".to_string()).display_text(), "p");
    assert_eq!(Error::HashMismatch("h".to_string()).display_text(), "h");
    let j = serde_json::from_str::<serde_json::Value>("{").unwrap_err();
    let expected = format!("JSON error: {j}");
    assert_eq!(Error::Json(j).display_text(), expected);
}
