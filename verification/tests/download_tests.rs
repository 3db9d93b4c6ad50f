use gdown::confirm::{get_filename_from_response, get_url_from_gdrive_confirmation};
use gdown::download::{
    append_resource_key, check_stdout_resume, choose_part_file, expected_total,
    file_url_for_id, file_url_or_id, is_part_file, output_target, path_file_name_text,
    range_header_value, restarts_after_range, ApiFlavor, DriveRequest, HeaderAction,
    OutputTarget, PartFile,
};
use gdown::error::Error;

#[test]
fn request_with_fuzzy_uses_download_link() {
    let r = DriveRequest::new(
        "https://drive.google.com/file/d/FID/view?usp=sharing&resourcekey=RK",
        true,
        None,
        ApiFlavor::Async,
    );
    assert_eq!(r.start_url(), "https://drive.google.com/uc?id=FID&resourcekey=RK");
    assert!(r.is_drive_download());
    assert!(!r.suggests_fuzzy());
    let r = DriveRequest::new(
        "https://drive.google.com/file/d/FID/view?resourcekey=RK",
        true,
        None,
        ApiFlavor::Blocking,
    );
    assert_eq!(r.start_url(), "https://drive.google.com/uc?id=FID");
}

#[test]
fn request_without_fuzzy_keeps_url() {
    let url = "https://drive.google.com/file/d/FID/view";
    let r = DriveRequest::new(url, false, None, ApiFlavor::Async);
    assert_eq!(r.start_url(), url);
    assert_eq!(r.url_origin(), url);
    assert!(!r.is_drive_download());
    assert!(r.suggests_fuzzy());
    let h = r.after_headers(url, 200, Some("text/html"), None);
    assert!(matches!(h, HeaderAction::Finish));
}

#[test]
fn headers_decide_the_next_request() {
    let url = "https://drive.google.com/uc?id=FID&resourcekey=RK";
    let r = DriveRequest::new(url, false, Some("pdf".to_string()), ApiFlavor::Async);
    match r.after_headers(url, 500, None, None) {
        HeaderAction::Fetch(u) => {
            assert_eq!(u, "https://drive.google.com/open?id=FID&resourcekey=RK")
        }
        other => panic!("unexpected: {other:?}"),
    }
    assert!(matches!(
        r.after_headers("https://other", 500, Some("text/html; charset=utf-8"), None),
        HeaderAction::ReadBody
    ));
    match r.after_headers(url, 200, Some("application/octet-stream"), Some("attachment; filename=\"x.pptx")) {
        HeaderAction::Fetch(u) => {
            assert_eq!(u, "https://docs.google.com/presentation/d/FID/export?format=pdf")
        }
        other => panic!("unexpected: {other:?}"),
    }
    assert!(matches!(
        r.after_headers(url, 200, Some("application/zip"), Some("attachment; filename=\"x.zip\"")),
        HeaderAction::Finish
    ));
}

#[test]
fn pages_lead_to_exports_confirmations_and_tokens() {
    let url = "https://drive.google.com/uc?id=FID";
    let r = DriveRequest::new(url, false, None, ApiFlavor::Async);
    assert_eq!(
        r.after_page("<title>Report - Google Docs</title>", &[]).unwrap(),
        "https://docs.google.com/document/d/FID/export?format=docx"
    );
    assert_eq!(
        r.after_page("<title>Data - Google Sheets</title>", &[]).unwrap(),
        "https://docs.google.com/spreadsheets/d/FID/export?format=xlsx"
    );
    assert_eq!(
        r.after_page("<title>Deck - Google Slides</title>", &[]).unwrap(),
        "https://docs.google.com/presentation/d/FID/export?format=pptx"
    );
    assert_eq!(
        r.after_page(r#"<a href="/uc?export=download&amp;id=FID&amp;confirm=t">x</a>"#, &[])
            .unwrap(),
        "https://docs.google.com/uc?export=download&id=FID&confirm=t"
    );
    let cookies = vec!["download_warning_1=TOKEN; path=/".to_string()];
    assert_eq!(
        r.after_page("<html>nothing</html>", &cookies).unwrap(),
        "https://drive.google.com/uc?export=download&id=FID&confirm=TOKEN"
    );
    match r.after_page("<html>nothing</html>", &[]) {
        Err(Error::FileUrlRetrieval(m)) => assert_eq!(
            m,
            "Failed to retrieve file url:\n\n\tCannot retrieve the public link of the file. \
             You may need to change the permission to 'Anyone with the link', or have had many \
             accesses.\n\nYou may still be able to access the file from the browser:\n\n\t\
             https://drive.google.com/uc?id=FID\n"
        ),
        other => panic!("unexpected: {other:?}"),
    }
}

#[test]
fn blocking_pages_read_lines() {
    let url = "https://drive.google.com/uc?id=FID";
    let r = DriveRequest::new(url, false, None, ApiFlavor::Blocking);
    let cookies = vec!["download_warning_1=TOKEN; path=/".to_string()];
    match r.after_page("<html>nothing</html>", &cookies) {
        Err(Error::FileUrlRetrieval(m)) => {
            assert!(m.ends_with("\n\nbut Gdown can't. Please check connections and permissions."));
            assert!(m.contains("Check FAQ in https://github.com/wkentaro/gdown?tab=readme-ov-file#faq."));
        }
        other => panic!("unexpected: {other:?}"),
    }
}

#[test]
fn filenames_from_headers_and_urls() {
    let url = "https://drive.google.com/uc?id=FID";
    let r = DriveRequest::new(url, false, None, ApiFlavor::Async);
    assert_eq!(r.filename(Some("attachment; filename=\"report.pdf\""), url), "report.pdf");
    assert_eq!(r.filename(None, "https://example.com/a/b/file.zip?x=1"), "file.zip");
    assert_eq!(r.filename(None, "https://example.com/"), "download");
    let other = DriveRequest::new("https://example.com/x/y.bin", false, None, ApiFlavor::Async);
    assert_eq!(other.filename(Some("attachment; filename=\"z\""), "https://example.com/x/y.bin"), "y.bin");
    let b = DriveRequest::new(url, false, None, ApiFlavor::Blocking);
    assert_eq!(b.filename(Some("attachment; filename*=UTF-8''a%2Fb.txt"), url), "a_b.txt");
}

#[test]
fn path_file_name_matches_std() {
    for p in ["/a/b", "/a/b/", "/a/./", "/a/..", "", "/", "a", "./x", "/uc"] {
        let expected = std::path::Path::new(p)
            .file_name()
            .map(|f| f.to_string_lossy().to_string());
        assert_eq!(path_file_name_text(p), expected, "file name of {p:?}");
    }
}

#[test]
fn output_targets() {
    assert!(matches!(output_target(ApiFlavor::Async, Some("-"), "f"), OutputTarget::Stdout));
    match output_target(ApiFlavor::Blocking, Some("-"), "f") {
        OutputTarget::File(p) => assert_eq!(p, "-"),
        other => panic!("unexpected: {other:?}"),
    }
    match output_target(ApiFlavor::Async, Some("dl/"), "f.bin") {
        OutputTarget::InDirectory { dir, path } => {
            assert_eq!(dir, "dl/");
            assert_eq!(path, "dl/f.bin");
        }
        other => panic!("unexpected: {other:?}"),
    }
    match output_target(ApiFlavor::Async, None, "f.bin") {
        OutputTarget::File(p) => assert_eq!(p, "f.bin"),
        other => panic!("unexpected: {other:?}"),
    }
    assert!(check_stdout_resume(false).is_ok());
    match check_stdout_resume(true) {
        Err(Error::InvalidInput(m)) => assert_eq!(m, "cannot use --continue when output is stdout"),
        other => panic!("unexpected: {other:?}"),
    }
}

#[test]
fn part_files() {
    assert!(is_part_file(ApiFlavor::Async, "f.bin", "f.bin.part"));
    assert!(is_part_file(ApiFlavor::Async, "f.bin", "f.bin.PART"));
    assert!(!is_part_file(ApiFlavor::Blocking, "f.bin", "f.bin.PART"));
    assert!(!is_part_file(ApiFlavor::Async, "f.bin", "g.bin.part"));
    assert!(!is_part_file(ApiFlavor::Async, "", ".part"));
    match choose_part_file(ApiFlavor::Async, true, "d", "f", &vec!["d/f.part".to_string()]) {
        Ok(PartFile::Resume(p)) => assert_eq!(p, "d/f.part"),
        other => panic!("unexpected: {other:?}"),
    }
    match choose_part_file(ApiFlavor::Async, false, "d", "f", &vec!["d/f.part".to_string()]) {
        Ok(PartFile::Fresh(p)) => assert_eq!(p, "d/f.part"),
        other => panic!("unexpected: {other:?}"),
    }
    let two = vec!["d/f.part".to_string(), "d/f2.part".to_string()];
    match choose_part_file(ApiFlavor::Async, true, "d", "f", &two) {
        Err(Error::InvalidInput(m)) => {
            assert_eq!(m, "multiple .part files found for f; remove all but one to resume")
        }
        other => panic!("unexpected: {other:?}"),
    }
    assert!(matches!(
        choose_part_file(ApiFlavor::Blocking, true, "d", "f", &two),
        Ok(PartFile::Ambiguous)
    ));
    match choose_part_file(ApiFlavor::Async, true, "", "f", &vec![]) {
        Ok(PartFile::Fresh(p)) => assert_eq!(p, "f.part"),
        other => panic!("unexpected: {other:?}"),
    }
}

#[test]
fn ranges_and_totals() {
    assert_eq!(range_header_value(0), "bytes=0-");
    assert_eq!(range_header_value(1234567), "bytes=1234567-");
    assert!(restarts_after_range(ApiFlavor::Async, 200));
    assert!(!restarts_after_range(ApiFlavor::Async, 206));
    assert!(!restarts_after_range(ApiFlavor::Blocking, 200));
    assert_eq!(expected_total(Some(10), 5), Some(15));
    assert_eq!(expected_total(None, 5), None);
    assert_eq!(expected_total(Some(u64::MAX), 1), None);
}

#[test]
fn resource_keys_are_added_once() {
    assert_eq!(append_resource_key("https://x/uc?id=1".to_string(), Some("K")), "https://x/uc?id=1&resourcekey=K");
    assert_eq!(append_resource_key("https://x/uc".to_string(), Some("K")), "https://x/uc?resourcekey=K");
    let once = append_resource_key("https://x/uc".to_string(), Some("K"));
    assert_eq!(append_resource_key(once.clone(), Some("K")), once);
    assert_eq!(append_resource_key("https://x/uc".to_string(), None), "https://x/uc");
}

#[test]
fn file_urls() {
    assert_eq!(file_url_for_id(&"ID".to_string()), "https://drive.google.com/uc?id=ID");
    assert_eq!(file_url_or_id(&None, &Some("ID".to_string())).unwrap(), "https://drive.google.com/uc?id=ID");
    match file_url_or_id(&Some("u".to_string()), &Some("i".to_string())) {
        Err(Error::InvalidInput(m)) => assert_eq!(m, "Either url or id has to be specified"),
        other => panic!("unexpected: {other:?}"),
    }
}

#[test]
fn line_confirmation_pages() {
    let page = "line one\n<a href=\"/uc?export=download&amp;id=X&amp;confirm=t\">dl</a>\n";
    assert_eq!(
        get_url_from_gdrive_confirmation(page).unwrap(),
        "https://docs.google.com/uc?export=download&id=X&confirm=t"
    );
    let page = "x \"downloadUrl\":\"https://e.com/d\\u003d1\\u0026t\"";
    assert_eq!(get_url_from_gdrive_confirmation(page).unwrap(), "https://e.com/d=1&t");
    match get_url_from_gdrive_confirmation("<p class=\"uc-error-subcaption\">Too many</p>\r\n") {
        Err(Error::FileUrlRetrieval(m)) => assert_eq!(m, "Too many"),
        other => panic!("unexpected: {other:?}"),
    }
    match get_url_from_gdrive_confirmation("nothing\nhere") {
        Err(Error::FileUrlRetrieval(m)) => assert_eq!(
            m,
            "Cannot retrieve the public link of the file. You may need to change the permission \
             to 'Anyone with the link', or have had many accesses. Check FAQ in \
             https://github.com/wkentaro/gdown?tab=readme-ov-file#faq."
        ),
        other => panic!("unexpected: {other:?}"),
    }
    let form = "<form id=\"download-form\" action=\"https://d.example.com/download?id=A&amp;x=1\"><input type=\"hidden\" name=\"x\" value=\"2\"></form>";
    assert_eq!(
        get_url_from_gdrive_confirmation(form).unwrap(),
        "https://d.example.com/download?id=A&x=2"
    );
}

#[test]
fn header_filenames() {
    assert_eq!(get_filename_from_response(None), None);
    assert_eq!(
        get_filename_from_response(Some("attachment; filename*=UTF-8''my%20file.txt")),
        Some("my file.txt".to_string())
    );
    assert_eq!(
        get_filename_from_response(Some("attachment; filename=\"a.pdf\"; size=1")),
        Some("a.pdf".to_string())
    );
    assert_eq!(get_filename_from_response(Some("inline")), None);
}
