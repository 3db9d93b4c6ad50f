use gdown::error::Error;
use gdown::parse::{
    confirm_token_from_html, is_google_drive_url, parse_url, url_from_gdrive_confirmation,
};

#[test]
fn test_parse_url_open_link() {
    let fid = "0B_NiLAzvehC9R2stRmQyM3ZiVjQ";
    let url = format!("https://drive.google.com/open?id={fid}");
    let result = parse_url(&url);
    assert_eq!(result.file_id.as_deref(), Some(fid));
    assert!(!result.is_download_link);
}

#[test]
fn test_parse_url_uc_link() {
    let fid = "0B_NiLAzvehC9R2stRmQyM3ZiVjQ";
    let url = format!("https://drive.google.com/uc?id={fid}");
    let result = parse_url(&url);
    assert_eq!(result.file_id.as_deref(), Some(fid));
    assert!(result.is_download_link);
}

#[test]
fn test_parse_url_file_view_link() {
    let fid = "0B_NiLAzvehC9R2stRmQyM3ZiVjQ";
    let url = format!("https://drive.google.com/file/d/{fid}/view?usp=sharing");
    let result = parse_url(&url);
    assert_eq!(result.file_id.as_deref(), Some(fid));
    assert!(!result.is_download_link);
}

#[test]
fn test_parse_url_subdomain_uc_link() {
    let fid = "0B_NiLAzvehC9R2stRmQyM3ZiVjQ";
    let url =
        format!("https://drive.google.com/a/jsk.imi.i.u-tokyo.ac.jp/uc?id={fid}&export=download");
    let result = parse_url(&url);
    assert_eq!(result.file_id.as_deref(), Some(fid));
    assert!(result.is_download_link);
}

#[test]
fn test_parse_url_non_gdrive() {
    let result = parse_url("https://example.com/somefile.zip");
    assert!(result.file_id.is_none());
    assert!(!result.is_download_link);
}

#[test]
fn test_parse_url_document_edit() {
    let fid = "abcdef123456";
    let url = format!("https://docs.google.com/document/d/{fid}/edit");
    let result = parse_url(&url);
    assert_eq!(result.file_id.as_deref(), Some(fid));
    assert!(!result.is_download_link);
}

#[test]
fn test_parse_url_spreadsheets_view() {
    let fid = "spreadsheet_id_xyz";
    let url = format!("https://docs.google.com/spreadsheets/d/{fid}/view");
    let result = parse_url(&url);
    assert_eq!(result.file_id.as_deref(), Some(fid));
}

#[test]
fn test_parse_url_presentation_view() {
    let fid = "slides_id_abc";
    let url = format!("https://docs.google.com/presentation/d/{fid}/view");
    let result = parse_url(&url);
    assert_eq!(result.file_id.as_deref(), Some(fid));
}

#[test]
fn test_parse_url_file_with_user_number() {
    let fid = "abcdef";
    let url = format!("https://drive.google.com/file/u/0/d/{fid}/view");
    let result = parse_url(&url);
    assert_eq!(result.file_id.as_deref(), Some(fid));
}

#[test]
fn test_is_google_drive_url_positive() {
    assert!(is_google_drive_url("https://drive.google.com/uc?id=abc"));
    assert!(is_google_drive_url(
        "https://docs.google.com/document/d/abc/view"
    ));
}

#[test]
fn test_is_google_drive_url_negative() {
    assert!(!is_google_drive_url("https://example.com/file"));
    assert!(!is_google_drive_url("https://google.com/drive"));
}

#[test]
fn test_gdrive_confirmation_uc_export_link() {
    let html = r#"<a href="/uc?export=download&amp;id=ABCDEF&amp;confirm=t">Download</a>"#;
    let url = url_from_gdrive_confirmation(html).unwrap();
    assert!(url.starts_with("https://docs.google.com/uc?export=download"));
    assert!(url.contains("id=ABCDEF"));
    assert!(!url.contains("&amp;"));
}

#[test]
fn integration_tests_test_gdrive_confirmation_download_url_json() {
    let html =
        "something \"downloadUrl\":\"https://example.com/download\\u003did\\u0026token\" else";
    let url = url_from_gdrive_confirmation(html).unwrap();
    assert_eq!(url, "https://example.com/download=id&token");
}

#[test]
fn integration_tests_test_gdrive_confirmation_error_subcaption() {
    let html = r#"<p class="uc-error-subcaption">Sorry, quota exceeded</p>"#;
    let result = url_from_gdrive_confirmation(html);
    assert!(result.is_err());
    if let Err(Error::FileUrlRetrieval(msg)) = result {
        assert!(msg.contains("Sorry, quota exceeded"));
    }
}

#[test]
fn integration_tests_test_gdrive_confirmation_empty_page() {
    let html = "<html><body>Nothing useful here</body></html>";
    let result = url_from_gdrive_confirmation(html);
    assert!(result.is_err());
    if let Err(Error::FileUrlRetrieval(msg)) = result {
        assert!(msg.contains("Cannot retrieve the public link"));
    }
}

#[test]
fn integration_tests_test_gdrive_confirmation_download_form() {
    let html = [
        r#"<form id="download-form" action="https://drive.usercontent.google.com/download?id=FILEID&amp;export=download">"#,
        r#"<input type="hidden" name="confirm" value="t">"#,
        r#"<input type="hidden" name="uuid" value="abc-123">"#,
        r#"</form>"#,
    ]
    .concat();
    let url = url_from_gdrive_confirmation(&html).unwrap();
    assert!(url.contains("id=FILEID"));
    assert!(url.contains("confirm=t"));
    assert!(url.contains("uuid=abc-123"));
}

#[test]
fn integration_tests_test_confirm_token_from_html_basic() {
    let html = r#"href="...&confirm=abc123&other=...""#;
    let token = confirm_token_from_html(html);
    assert_eq!(token, Some("abc123".to_string()));
}

#[test]
fn integration_tests_test_confirm_token_from_html_filters_t() {
    let html = r"confirm=t&other confirm=realtoken&x";
    let token = confirm_token_from_html(html);
    assert_eq!(token, Some("realtoken".to_string()));
}

#[test]
fn integration_tests_test_confirm_token_from_html_none() {
    let html = "no tokens here";
    assert!(confirm_token_from_html(html).is_none());
}
