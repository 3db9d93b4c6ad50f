use gdown::parse::{
    confirm_token_from_headers, confirm_token_from_html, decode_unicode_escapes,
    extract_resource_key, filename_from_content_disposition, is_google_drive_url, parse_url,
    title_from_html, url_from_gdrive_confirmation,
};
use gdown::error::Error;

#[test]
fn parse_test_parse_url() {
    let fid = "0B_NiLAzvehC9R2stRmQyM3ZiVjQ";

    let cases = vec![
        (format!("https://drive.google.com/open?id={fid}"), Some(fid), false),
        (format!("https://drive.google.com/uc?id={fid}"), Some(fid), true),
        (
            format!("https://drive.google.com/file/d/{fid}/view?usp=sharing"),
            Some(fid),
            false,
        ),
        (
            format!(
                "https://drive.google.com/a/jsk.imi.i.u-tokyo.ac.jp/uc?id={fid}&export=download"
            ),
            Some(fid),
            true,
        ),
        (format!("https://docs.google.com/document/d/{fid}/edit"), Some(fid), false),
        (format!("https://docs.google.com/spreadsheets/d/{fid}/view"), Some(fid), false),
        (format!("https://docs.google.com/presentation/d/{fid}/view"), Some(fid), false),
        (format!("https://drive.google.com/file/u/0/d/{fid}/view"), Some(fid), false),
        ("https://example.com/somefile.zip".to_string(), None, false),
    ];

    for (url, expected_id, expected_dl) in cases {
        let result = parse_url(&url);
        assert_eq!(result.file_id.as_deref(), expected_id, "file_id mismatch for {url}");
        assert_eq!(
            result.is_download_link, expected_dl,
            "is_download_link mismatch for {url}"
        );
    }
}

#[test]
fn parse_test_is_google_drive_url() {
    assert!(is_google_drive_url("https://drive.google.com/uc?id=abc"));
    assert!(is_google_drive_url("https://docs.google.com/document/d/abc/view"));
    assert!(!is_google_drive_url("https://example.com/file"));
    assert!(!is_google_drive_url("https://google.com/drive"));
}

#[test]
fn test_gdrive_confirmation_uc_export() {
    let html = r#"<a href="/uc?export=download&amp;id=ABCDEF&amp;confirm=t">Download</a>"#;
    let url = url_from_gdrive_confirmation(html).unwrap();
    assert!(url.starts_with("https://docs.google.com/uc?export=download"));
    assert!(url.contains("id=ABCDEF"));
    assert!(!url.contains("&amp;"));
}

#[test]
fn parse_test_gdrive_confirmation_download_url_json() {
    let html = r#"something "downloadUrl":"https://example.com/dl\u003did\u0026tok" else"#;
    let url = url_from_gdrive_confirmation(html).unwrap();
    assert_eq!(url, "https://example.com/dl=id&tok");
}

#[test]
fn parse_test_gdrive_confirmation_error_subcaption() {
    let html = r#"<p class="uc-error-subcaption">Sorry, quota exceeded</p>"#;
    let result = url_from_gdrive_confirmation(html);
    assert!(result.is_err());
    if let Err(Error::FileUrlRetrieval(msg)) = result {
        assert!(msg.contains("Sorry, quota exceeded"));
    }
}

#[test]
fn parse_test_gdrive_confirmation_empty_page() {
    let html = "<html><body>Nothing useful here</body></html>";
    let result = url_from_gdrive_confirmation(html);
    assert!(result.is_err());
    if let Err(Error::FileUrlRetrieval(msg)) = result {
        assert!(msg.contains("Cannot retrieve the public link"));
    }
}

#[test]
fn parse_test_gdrive_confirmation_download_form() {
    let html = [
        r#"<form id="download-form" action="https://drive.usercontent.google.com/download?id=FILEID&amp;export=download">"#,
        r#"<input type="hidden" name="confirm" value="t">"#,
        r#"<input type="hidden" name="uuid" value="abc-123">"#,
        r#"</form>"#,
    ]
    .concat();
    let html = html.as_str();
    let url = url_from_gdrive_confirmation(html).unwrap();
    assert!(url.contains("id=FILEID"));
    assert!(url.contains("confirm=t"));
    assert!(url.contains("uuid=abc-123"));
}

#[test]
fn parse_test_confirm_token_from_html_basic() {
    let html = r#"href="...&confirm=abc123&other=...""#;
    let token = confirm_token_from_html(html);
    assert_eq!(token, Some("abc123".to_string()));
}

#[test]
fn parse_test_confirm_token_from_html_filters_t() {
    let html = r"confirm=t&other confirm=realtoken&x";
    let token = confirm_token_from_html(html);
    assert_eq!(token, Some("realtoken".to_string()));
}

#[test]
fn parse_test_confirm_token_from_html_none() {
    let html = "no tokens here";
    assert!(confirm_token_from_html(html).is_none());
}

#[test]
fn test_decode_unicode_escapes_hex() {
    assert_eq!(decode_unicode_escapes(r"\x5b\x5d"), "[]");
    assert_eq!(decode_unicode_escapes(r"\x22hello\x22"), "\"hello\"");
}

#[test]
fn test_decode_unicode_escapes_unicode() {
    assert_eq!(decode_unicode_escapes(r"\u0041"), "A");
    assert_eq!(decode_unicode_escapes(r"\u00e9"), "é");
}

#[test]
fn test_decode_unicode_escapes_special() {
    assert_eq!(decode_unicode_escapes(r"\n"), "\n");
    assert_eq!(decode_unicode_escapes(r"\r"), "\r");
    assert_eq!(decode_unicode_escapes(r"\t"), "\t");
    assert_eq!(decode_unicode_escapes(r"\\"), "\\");
    assert_eq!(decode_unicode_escapes(r"\'"), "'");
    assert_eq!(decode_unicode_escapes(r#"\""#), "\"");
    assert_eq!(decode_unicode_escapes(r"\/"), "/");
}

#[test]
fn test_decode_unicode_escapes_passthrough() {
    assert_eq!(decode_unicode_escapes("plain text"), "plain text");
    assert_eq!(decode_unicode_escapes(r"\z"), "\\z");
}

#[test]
fn test_decode_unicode_escapes_malformed() {
    assert_eq!(decode_unicode_escapes(r"\xZZ"), "\\xZZ");
    assert_eq!(decode_unicode_escapes(r"\uZZZZ"), "\\uZZZZ");
}

#[test]
fn test_decode_unicode_escapes() {
    assert_eq!(decode_unicode_escapes(r"\x5b\x5b"), "[[");
    assert_eq!(decode_unicode_escapes(r"\x22hello\x22"), "\"hello\"");
}

#[test]
fn decode_unicode_escapes_edge_cases() {
    assert_eq!(decode_unicode_escapes("\\"), "\\");
    assert_eq!(decode_unicode_escapes(r"\x4"), "\u{4}");
    assert_eq!(decode_unicode_escapes(r"\x+5"), "\u{5}");
    assert_eq!(decode_unicode_escapes(r"\x-5"), "\\x-5");
    assert_eq!(decode_unicode_escapes(r"\ud800"), "");
    assert_eq!(decode_unicode_escapes(r"\u41"), "A");
    assert_eq!(decode_unicode_escapes(r"\x"), "\\x");
}

#[test]
fn test_extract_resource_key() {
    let url = "https://drive.google.com/drive/folders/abc?resourcekey=xyz";
    assert_eq!(extract_resource_key(url), Some("xyz".to_string()));

    let url = "https://drive.google.com/drive/folders/abc";
    assert_eq!(extract_resource_key(url), None);
}

#[test]
fn test_filename_from_content_disposition_utf8() {
    let cd = "attachment; filename*=UTF-8''my%20file.txt";
    assert_eq!(filename_from_content_disposition(cd), Some("my file.txt".to_string()));
}

#[test]
fn test_filename_from_content_disposition_quoted() {
    let cd = r#"attachment; filename="report.pdf""#;
    assert_eq!(filename_from_content_disposition(cd), Some("report.pdf".to_string()));
}

#[test]
fn test_filename_from_content_disposition_sanitizes() {
    let cd = r#"attachment; filename="../../etc/passwd""#;
    assert_eq!(
        filename_from_content_disposition(cd),
        Some(".._.._etc_passwd".to_string())
    );
}

#[test]
fn test_filename_from_content_disposition_none() {
    assert!(filename_from_content_disposition("inline").is_none());
    assert!(filename_from_content_disposition("").is_none());
}

#[test]
fn test_filename_from_content_disposition_url_encoded() {
    let cd = "attachment; filename*=UTF-8''hello%20world%21.txt";
    assert_eq!(
        filename_from_content_disposition(cd),
        Some("hello world!.txt".to_string())
    );
}

#[test]
fn filename_from_content_disposition_rejects_bad_utf8() {
    assert!(filename_from_content_disposition("attachment; filename*=UTF-8''%FF").is_none());
}

#[test]
fn title_from_html_takes_last_closing_tag_on_the_line() {
    assert_eq!(
        title_from_html("<title>a</title>b</title>\n</title>"),
        Some("a</title>b".to_string())
    );
    assert_eq!(title_from_html("<title></title>"), None);
    assert_eq!(title_from_html("<title>x\n</title>"), None);
    assert_eq!(
        title_from_html("<title>x\n<title>y - Google Docs</title>"),
        Some("y - Google Docs".to_string())
    );
}

#[test]
fn test_confirm_token_from_headers_empty() {
    let headers: Vec<String> = Vec::new();
    assert!(confirm_token_from_headers(&headers).is_none());
}

#[test]
fn test_confirm_token_from_headers_with_warning() {
    let headers = vec!["download_warning_abc=mytoken; path=/".to_string()];
    let token = confirm_token_from_headers(&headers);
    assert_eq!(token, Some("mytoken".to_string()));
}

#[test]
fn test_confirm_token_from_headers_ignores_other_cookies() {
    let headers = vec!["other_cookie=value; path=/".to_string()];
    assert!(confirm_token_from_headers(&headers).is_none());
}

#[test]
fn confirm_token_from_html_prefers_last_longest() {
    assert_eq!(
        confirm_token_from_html("confirm=ab confirm=cd confirm=e"),
        Some("cd".to_string())
    );
    assert_eq!(confirm_token_from_html("confirm=&amp;confirm=xyz"), Some("xyz".to_string()));
    assert_eq!(confirm_token_from_html("confirm=t"), None);
}

#[test]
fn filename_from_response_reads_the_header() {
    assert_eq!(gdown::parse::filename_from_response(None), None);
    assert_eq!(
        gdown::parse::filename_from_response(Some("attachment; filename=\"a/b.txt\"")),
        Some("a_b.txt".to_string())
    );
}

#[test]
fn confirm_token_from_html_compares_utf8_bytes() {
    assert_eq!(
        confirm_token_from_html("confirm=éé&confirm=abc"),
        Some("éé".to_string())
    );
    assert_eq!(
        confirm_token_from_html("confirm=abcd&confirm=éé"),
        Some("éé".to_string())
    );
    assert_eq!(
        confirm_token_from_html("confirm=éé&confirm=abcde"),
        Some("abcde".to_string())
    );
}

#[test]
fn decode_unicode_escapes_plain_prefix_is_kept() {
    let plain = "folder \"a\" <b>";
    assert_eq!(decode_unicode_escapes(plain), plain);
    let rest = r"\u0041\x42\n";
    let joined = format!("{plain}{rest}");
    assert_eq!(decode_unicode_escapes(&joined), format!("{plain}{}", decode_unicode_escapes(rest)));
    assert_eq!(decode_unicode_escapes(&joined), "folder \"a\" <b>AB\n");
}

#[test]
fn confirm_token_from_html_ties_go_to_the_last() {
    assert_eq!(
        confirm_token_from_html("confirm=ab&amp;confirm=cd&confirm=t&confirm=e"),
        Some("cd".to_string())
    );
    assert_eq!(confirm_token_from_html("confirm=t&confirm=&x"), None);
}
