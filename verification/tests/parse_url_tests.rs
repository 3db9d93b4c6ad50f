use gdown::parse_url;

#[test]
fn parse_url_test_parse_url() {
    let file_id = "0B_NiLAzvehC9R2stRmQyM3ZiVjQ";

    // (url, expected_file_id, expected_is_download_link, should_warn)
    let urls = vec![
        (
            format!("https://drive.google.com/open?id={file_id}"),
            Some(file_id.to_string()),
            false,
            true,
        ),
        (
            format!("https://drive.google.com/uc?id={file_id}"),
            Some(file_id.to_string()),
            true,
            false,
        ),
        (
            format!("https://drive.google.com/file/d/{file_id}/view?usp=sharing"),
            Some(file_id.to_string()),
            false,
            true,
        ),
        (
            format!(
                "https://drive.google.com/a/jsk.imi.i.u-tokyo.ac.jp/uc?id={file_id}&export=download"
            ),
            Some(file_id.to_string()),
            true,
            false,
        ),
    ];

    for (url, expected_id, expected_is_download, _should_warn) in urls {
        let (actual_id, actual_is_download) = parse_url::parse_url(&url, false);
        assert_eq!(actual_id, expected_id, "file_id mismatch for url: {url}");
        assert_eq!(
            actual_is_download, expected_is_download,
            "is_download_link mismatch for url: {url}"
        );
    }
}

#[test]
fn parse_url_test_is_google_drive_url() {
    assert!(parse_url::is_google_drive_url("https://drive.google.com/uc?id=abc"));
    assert!(parse_url::is_google_drive_url(
        "https://docs.google.com/document/d/abc/view"
    ));
    assert!(!parse_url::is_google_drive_url("https://example.com/file"));
}

#[test]
fn parse_url_tuple_ignores_warning_flag() {
    let url = "https://drive.google.com/file/d/XYZ/view";
    assert_eq!(parse_url::parse_url(url, true), parse_url::parse_url(url, false));
    assert_eq!(parse_url::parse_url(url, true), (Some("XYZ".to_string()), false));
}

#[test]
fn parse_url_tuple_other_host_keeps_download_flag() {
    assert_eq!(parse_url::parse_url("https://example.com/uc", false), (None, true));
    assert_eq!(parse_url::parse_url("not a url", false), (None, false));
}

#[test]
fn parse_url_tuple_repeated_id_names_no_file() {
    assert_eq!(
        parse_url::parse_url("https://drive.google.com/uc?id=a&id=b", false),
        (None, true)
    );
}
