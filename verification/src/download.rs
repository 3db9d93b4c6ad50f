//! Downloading one file: how a Google Drive URL is followed to the file itself,
//! how the local name is chosen, and how partial downloads are resumed.
//!
//! The caller performs each request; the functions here decide what to request
//! next from what came back.
use vstd::prelude::*;

use crate::client::{sanitize_filename, sanitized_filename};
use crate::error::{text_result, Error, ErrorKind};
use crate::parse::{
    confirm_token_from_headers, confirm_token_from_html, confirmation_download_url,
    content_disposition_filename, cookies_confirm_token, drive_download_link, drive_file_id,
    extract_resource_key, filename_from_content_disposition, html_confirm_token, html_title,
    option_text, parse_url, split_chars, split_on, title_from_html, url_from_gdrive_confirmation,
    url_resource_key,
};
use crate::confirm::{get_filename_from_response, header_filename};
use crate::text::{
    cat, chars_equal, chars_of, decimal_digits, decimal_text, ends_with, find, find_chars_from,
    has_suffix, slice_chars, starts_with, string_from_chars,
};
use crate::urls::{parse_url_parts, parsed_url};

verus! {

/// The text of an optional string slice.
pub open spec fn str_opt(o: Option<&str>) -> Option<Seq<char>> {
    match o {
        Some(s) => Some(s@),
        None => None,
    }
}

/// The download URL of a Google Drive file ID.
pub fn file_url_for_id(id: &String) -> (r: String)
    ensures
        r@ == "https://drive.google.com/uc?id="@ + id@,
{
    cat("https://drive.google.com/uc?id=", id.as_str())
}

/// `url` with `resourcekey=KEY` added to its query (with `&` when it has a `?`,
/// otherwise with `?`), unless there is no key or it already has one.
pub open spec fn with_resource_key(url: Seq<char>, key: Option<Seq<char>>) -> Seq<char> {
    match key {
        Some(k) => if find(url, "resourcekey="@) is Some {
            url
        } else if find(url, "?"@) is Some {
            url + "&resourcekey="@ + k
        } else {
            url + "?resourcekey="@ + k
        },
        None => url,
    }
}

/// Adds the resource key to a URL that has none.
pub fn append_resource_key(url: String, resource_key: Option<&str>) -> (r: String)
    ensures
        r@ == with_resource_key(url@, str_opt(resource_key)),
{
    match resource_key {
        Some(rk) => {
            let u = chars_of(url.as_str());
            if find_chars_from(u.as_slice(), chars_of("resourcekey=").as_slice(), 0).is_some() {
                url
            } else if find_chars_from(u.as_slice(), chars_of("?").as_slice(), 0).is_some() {
                cat(cat(url.as_str(), "&resourcekey=").as_str(), rk)
            } else {
                cat(cat(url.as_str(), "?resourcekey=").as_str(), rk)
            }
        },
        None => url,
    }
}

/// Which of the library's two download APIs a request follows.
///
/// They differ in small ways: the asynchronous API carries the `resourcekey` of
/// the URL as given into every redirect and falls back on confirmation tokens;
/// the blocking API reads confirmation pages line by line.
#[derive(Debug, Clone, Copy, PartialEq, Eq, Structural)]
pub enum ApiFlavor {
    Async,
    Blocking,
}

/// The URL a fuzzy request starts from: the file's `uc?id=` URL, with the
/// resource key when there is one.
pub open spec fn fuzzy_start(file_id: Seq<char>, key: Option<Seq<char>>) -> Seq<char> {
    match key {
        Some(k) => "https://drive.google.com/uc?id="@ + file_id + "&resourcekey="@ + k,
        None => "https://drive.google.com/uc?id="@ + file_id,
    }
}

/// A file download being resolved: the URL as given, the URL requested first,
/// the Google Drive file ID and whether the request follows Google Drive's
/// confirmation pages, the resource key, and the export format asked for.
pub struct DriveRequest {
    flavor: ApiFlavor,
    url_origin: String,
    start_url: String,
    file_id: Option<String>,
    download_link: bool,
    resource_key: Option<String>,
    format: Option<String>,
}

impl DriveRequest {
    pub closed spec fn flavor(&self) -> ApiFlavor {
        self.flavor
    }

    /// The URL as given.
    pub closed spec fn origin(&self) -> Seq<char> {
        self.url_origin@
    }

    /// The URL requested first.
    pub closed spec fn start(&self) -> Seq<char> {
        self.start_url@
    }

    /// The Google Drive file ID of the URL, if it names one.
    pub closed spec fn file_id(&self) -> Option<Seq<char>> {
        option_text(self.file_id)
    }

    /// Whether the URL is treated as a direct Google Drive download link.
    pub closed spec fn download_link(&self) -> bool {
        self.download_link
    }

    /// The resource key carried into redirects.
    pub closed spec fn key(&self) -> Option<Seq<char>> {
        option_text(self.resource_key)
    }

    /// The export format asked for, if any.
    pub closed spec fn format(&self) -> Option<Seq<char>> {
        option_text(self.format)
    }

    /// Whether responses are followed through Google Drive's confirmation pages:
    /// the URL names a file and is a download link.
    pub open spec fn follows_drive(&self) -> bool {
        self.file_id() is Some && self.download_link()
    }

    /// Prepares the download of `url`. With `fuzzy`, a URL that names a Google
    /// Drive file is replaced by that file's download link.
    pub fn new(url: &str, fuzzy: bool, format: Option<String>, flavor: ApiFlavor) -> (r: DriveRequest)
        ensures
            r.flavor() == flavor,
            r.origin() == url@,
            r.key() == (if flavor == ApiFlavor::Async {
                url_resource_key(url@)
            } else {
                None
            }),
            r.file_id() == drive_file_id(url@),
            r.download_link() == ((fuzzy && drive_file_id(url@) is Some) || drive_download_link(
                url@,
            )),
            r.start() == (if fuzzy && drive_file_id(url@) is Some {
                fuzzy_start(drive_file_id(url@)->0, r.key())
            } else {
                url@
            }),
            r.format() == option_text(format),
    {
        let resource_key = match flavor {
            ApiFlavor::Async => extract_resource_key(url),
            ApiFlavor::Blocking => None,
        };
        let parsed = parse_url(url);
        let mut start_url = url.to_string();
        let mut download_link = parsed.is_download_link;
        if fuzzy {
            match &parsed.file_id {
                Some(fid) => {
                    let base = file_url_for_id(fid);
                    start_url = match &resource_key {
                        Some(rk) => cat(cat(base.as_str(), "&resourcekey=").as_str(), rk.as_str()),
                        None => base,
                    };
                    download_link = true;
                },
                None => {},
            }
        }
        DriveRequest {
            flavor,
            url_origin: url.to_string(),
            start_url,
            file_id: parsed.file_id,
            download_link,
            resource_key,
            format,
        }
    }

    /// The URL to request first.
    pub fn start_url(&self) -> (r: &str)
        ensures
            r@ == self.start(),
    {
        self.start_url.as_str()
    }

    /// The URL as given.
    pub fn url_origin(&self) -> (r: &str)
        ensures
            r@ == self.origin(),
    {
        self.url_origin.as_str()
    }

    /// Whether the URL names a Google Drive file but is not a download link (a
    /// fuzzy request would have made it one).
    pub fn suggests_fuzzy(&self) -> (b: bool)
        ensures
            b == (self.file_id() is Some && !self.download_link()),
    {
        self.file_id.is_some() && !self.download_link
    }

    /// Whether responses are followed through Google Drive's confirmation pages.
    pub fn is_drive_download(&self) -> (b: bool)
        ensures
            b == self.follows_drive(),
    {
        self.file_id.is_some() && self.download_link
    }
}

/// What to do once the headers of a response are in.
#[derive(Debug)]
pub enum HeaderAction {
    /// This response is the file: download its body.
    Finish,
    /// Request this URL instead.
    Fetch(String),
    /// The response is an HTML page: read its body and decide with
    /// [`DriveRequest::after_page`].
    ReadBody,
}

/// [`HeaderAction`] seen through views.
pub enum HeaderView {
    Finish,
    Fetch(Seq<char>),
    ReadBody,
}

/// A header action seen through views.
pub open spec fn header_view(a: HeaderAction) -> HeaderView {
    match a {
        HeaderAction::Finish => HeaderView::Finish,
        HeaderAction::Fetch(u) => HeaderView::Fetch(u@),
        HeaderAction::ReadBody => HeaderView::ReadBody,
    }
}

/// The open link of a file, which a download link that failed with status 500
/// is retried as.
pub open spec fn open_url(file_id: Seq<char>, key: Option<Seq<char>>) -> Seq<char> {
    match key {
        Some(k) => "https://drive.google.com/open?id="@ + file_id + "&resourcekey="@ + k,
        None => "https://drive.google.com/open?id="@ + file_id,
    }
}

/// The export URL of a Google Docs, Sheets or Slides file.
pub open spec fn export_url(kind: Seq<char>, file_id: Seq<char>, format: Seq<char>) -> Seq<char> {
    "https://docs.google.com/"@ + kind + "/d/"@ + file_id + "/export?format="@ + format
}

/// Whether a `Content-Disposition` offers a `.pptx` while another format was
/// asked for.
pub open spec fn pptx_mismatch(content_disposition: Option<Seq<char>>, format: Option<Seq<char>>) -> bool {
    match (content_disposition, format) {
        (Some(cd), Some(f)) => ends_with(cd, "pptx"@) && f != "pptx"@,
        _ => false,
    }
}

/// What the headers of the response to `current` lead to: anything but a Google
/// Drive download is the file; a first request that failed with 500 is retried
/// as the open link; an HTML page is read; a `.pptx` offered when another
/// format was asked for is exported in that format; anything else is the file.
pub open spec fn header_decision(
    req: DriveRequest,
    current: Seq<char>,
    status: u16,
    content_type: Option<Seq<char>>,
    content_disposition: Option<Seq<char>>,
) -> HeaderView {
    if !req.follows_drive() {
        HeaderView::Finish
    } else if current == req.start() && status == 500 {
        HeaderView::Fetch(open_url(req.file_id()->0, req.key()))
    } else if starts_with(
        match content_type {
            Some(c) => c,
            None => Seq::empty(),
        },
        "text/html"@,
    ) {
        HeaderView::ReadBody
    } else if pptx_mismatch(content_disposition, req.format()) {
        HeaderView::Fetch(export_url("presentation"@, req.file_id()->0, req.format()->0))
    } else {
        HeaderView::Finish
    }
}

/// The title suffixes of Google Docs, Sheets and Slides pages, the path kind of
/// their export URLs, and the format they export to by default.
pub open spec fn docs_redirect(
    title: Seq<char>,
    file_id: Seq<char>,
    format: Option<Seq<char>>,
) -> Option<Seq<char>> {
    if ends_with(title, " - Google Docs"@) {
        Some(
            export_url(
                "document"@,
                file_id,
                match format {
                    Some(f) => f,
                    None => "docx"@,
                },
            ),
        )
    } else if ends_with(title, " - Google Sheets"@) {
        Some(
            export_url(
                "spreadsheets"@,
                file_id,
                match format {
                    Some(f) => f,
                    None => "xlsx"@,
                },
            ),
        )
    } else if ends_with(title, " - Google Slides"@) {
        Some(
            export_url(
                "presentation"@,
                file_id,
                match format {
                    Some(f) => f,
                    None => "pptx"@,
                },
            ),
        )
    } else {
        None
    }
}

/// The message of a download whose confirmation page yields no URL.
pub open spec fn retrieval_failure(flavor: ApiFlavor, cause: Seq<char>, origin: Seq<char>) -> Seq<char> {
    let base = "Failed to retrieve file url:\n\n\t"@ + cause
        + "\n\nYou may still be able to access the file from the browser:\n\n\t"@ + origin;
    if flavor == ApiFlavor::Async {
        base + "\n"@
    } else {
        base + "\n\nbut Gdown can't. Please check connections and permissions."@
    }
}

/// The URL a confirmation page leads to under `flavor`'s reading of such pages.
pub open spec fn page_confirmation(flavor: ApiFlavor, page: Seq<char>) -> Result<
    Seq<char>,
    (ErrorKind, Seq<char>),
> {
    if flavor == ApiFlavor::Async {
        confirmation_download_url(page)
    } else {
        crate::confirm::line_confirmation_url(page)
    }
}

/// The download URL with a confirmation token.
pub open spec fn token_url(file_id: Seq<char>, token: Seq<char>) -> Seq<char> {
    "https://drive.google.com/uc?export=download&id="@ + file_id + "&confirm="@ + token
}

/// What an HTML page in answer to a Google Drive download leads to: the export
/// of a Docs, Sheets or Slides file; the URL its confirmation offers; for the
/// asynchronous API, a URL with the confirmation token of a cookie or of the
/// page; or a failure.
pub open spec fn page_decision(
    req: DriveRequest,
    page: Seq<char>,
    set_cookies: Seq<Seq<char>>,
) -> Result<Seq<char>, (ErrorKind, Seq<char>)> {
    let redirect = match (html_title(page), req.file_id()) {
        (Some(t), Some(f)) => docs_redirect(t, f, req.format()),
        _ => None,
    };
    match redirect {
        Some(u) => Ok(u),
        None => match page_confirmation(req.flavor(), page) {
            Ok(u) => Ok(with_resource_key(u, req.key())),
            Err(e) => {
                let token = match cookies_confirm_token(set_cookies) {
                    Some(t) => Some(t),
                    None => html_confirm_token(page),
                };
                if req.flavor() == ApiFlavor::Async && req.file_id() is Some && token is Some {
                    Ok(with_resource_key(token_url(req.file_id()->0, token->0), req.key()))
                } else {
                    Err(
                        (
                            ErrorKind::FileUrlRetrieval,
                            retrieval_failure(req.flavor(), e.1, req.origin()),
                        ),
                    )
                }
            },
        },
    }
}

fn docs_redirect_exec(title: &str, file_id: &String, format: &Option<String>) -> (r: Option<String>)
    ensures
        option_text(r) == docs_redirect(title@, file_id@, option_text(*format)),
{
    let t = chars_of(title);
    let (kind, default_format) = if has_suffix(t.as_slice(), chars_of(" - Google Docs").as_slice()) {
        ("document", "docx")
    } else if has_suffix(t.as_slice(), chars_of(" - Google Sheets").as_slice()) {
        ("spreadsheets", "xlsx")
    } else if has_suffix(t.as_slice(), chars_of(" - Google Slides").as_slice()) {
        ("presentation", "pptx")
    } else {
        return None;
    };
    let fmt = match format {
        Some(f) => f.as_str(),
        None => default_format,
    };
    let a = cat(cat("https://docs.google.com/", kind).as_str(), "/d/");
    let b = cat(cat(a.as_str(), file_id.as_str()).as_str(), "/export?format=");
    Some(cat(b.as_str(), fmt))
}

impl DriveRequest {
    /// Decides what the headers of the response to `current_url` lead to: its
    /// status, its `Content-Type` and its `Content-Disposition` (`None` when a
    /// header is absent or not visible ASCII).
    pub fn after_headers(
        &self,
        current_url: &str,
        status: u16,
        content_type: Option<&str>,
        content_disposition: Option<&str>,
    ) -> (r: HeaderAction)
        ensures
            header_view(r) == header_decision(
                *self,
                current_url@,
                status,
                str_opt(content_type),
                str_opt(content_disposition),
            ),
    {
        if !self.is_drive_download() {
            return HeaderAction::Finish;
        }
        let fid = match &self.file_id {
            Some(f) => f,
            None => {
                return HeaderAction::Finish;
            },
        };
        let cur = chars_of(current_url);
        let start = chars_of(self.start_url.as_str());
        if crate::text::chars_equal(cur.as_slice(), start.as_slice()) && status == 500 {
            let base = cat("https://drive.google.com/open?id=", fid.as_str());
            let u = match &self.resource_key {
                Some(rk) => cat(cat(base.as_str(), "&resourcekey=").as_str(), rk.as_str()),
                None => base,
            };
            return HeaderAction::Fetch(u);
        }
        let ct = match content_type {
            Some(c) => chars_of(c),
            None => Vec::new(),
        };
        if crate::text::has_prefix(ct.as_slice(), chars_of("text/html").as_slice()) {
            return HeaderAction::ReadBody;
        }
        match (content_disposition, &self.format) {
            (Some(cd), Some(f)) => {
                let cdv = chars_of(cd);
                let fv = chars_of(f.as_str());
                if has_suffix(cdv.as_slice(), chars_of("pptx").as_slice())
                    && !crate::text::chars_equal(fv.as_slice(), chars_of("pptx").as_slice()) {
                    let a = cat(cat("https://docs.google.com/", "presentation").as_str(), "/d/");
                    let a = cat(a.as_str(), fid.as_str());
                    let b = cat(cat(a.as_str(), "/export?format=").as_str(), f.as_str());
                    return HeaderAction::Fetch(b);
                }
            },
            _ => {},
        }
        HeaderAction::Finish
    }

    /// Decides where an HTML page in answer to a Google Drive download leads,
    /// from the page and the values of its `Set-Cookie` headers.
    ///
    /// # Errors
    ///
    /// [`Error::FileUrlRetrieval`] when the page offers no way on.
    pub fn after_page(&self, page: &str, set_cookies: &[String]) -> (r: Result<String, Error>)
        ensures
            text_result(r) == page_decision(
                *self,
                page@,
                set_cookies@.map_values(|s: String| s@),
            ),
    {
        match (title_from_html(page), &self.file_id) {
            (Some(t), Some(f)) => match docs_redirect_exec(t.as_str(), f, &self.format) {
                Some(u) => {
                    return Ok(u);
                },
                None => {},
            },
            _ => {},
        }
        let confirmed = match self.flavor {
            ApiFlavor::Async => url_from_gdrive_confirmation(page),
            ApiFlavor::Blocking => crate::confirm::get_url_from_gdrive_confirmation(page),
        };
        let rk = match &self.resource_key {
            Some(k) => Some(k.as_str()),
            None => None,
        };
        match confirmed {
            Ok(u) => Ok(append_resource_key(u, rk)),
            Err(e) => {
                if self.flavor == ApiFlavor::Async {
                    match &self.file_id {
                        Some(fid) => {
                            let token = match confirm_token_from_headers(set_cookies) {
                                Some(t) => Some(t),
                                None => confirm_token_from_html(page),
                            };
                            match token {
                                Some(tok) => {
                                    let a = cat(
                                        "https://drive.google.com/uc?export=download&id=",
                                        fid.as_str(),
                                    );
                                    let b = cat(cat(a.as_str(), "&confirm=").as_str(), tok.as_str());
                                    return Ok(append_resource_key(b, rk));
                                },
                                None => {},
                            }
                        },
                        None => {},
                    }
                }
                let cause = e.message_text();
                let base = cat(
                    cat(
                        cat("Failed to retrieve file url:\n\n\t", cause.as_str()).as_str(),
                        "\n\nYou may still be able to access the file from the browser:\n\n\t",
                    ).as_str(),
                    self.url_origin.as_str(),
                );
                let m = if self.flavor == ApiFlavor::Async {
                    cat(base.as_str(), "\n")
                } else {
                    cat(base.as_str(), "\n\nbut Gdown can't. Please check connections and permissions.")
                };
                Err(Error::FileUrlRetrieval(m))
            },
        }
    }
}

// ── Naming the output ───────────────────────────────────────────────

/// The non-empty segments of a path other than `.`, in order.
pub open spec fn normal_segments(segs: Seq<Seq<char>>) -> Seq<Seq<char>>
    decreases segs.len(),
{
    if segs.len() == 0 {
        seq![]
    } else {
        let rest = normal_segments(segs.drop_last());
        let l = segs.last();
        if l.len() == 0 || l == "."@ {
            rest
        } else {
            rest.push(l)
        }
    }
}

/// The final component of a Unix path, as `Path::file_name` gives it: none when
/// there is no component or the last one is `..`.
pub open spec fn path_file_name(p: Seq<char>) -> Option<Seq<char>> {
    let c = normal_segments(split_on(p, '/'));
    if c.len() == 0 || c.last() == ".."@ {
        None
    } else {
        Some(c.last())
    }
}

/// The final component of a Unix path (`Path::file_name`).
pub fn path_file_name_text(p: &str) -> (r: Option<String>)
    ensures
        option_text(r) == path_file_name(p@),
{
    let segs = split_chars(chars_of(p).as_slice(), '/');
    let ghost sv = segs@.map_values(|v: Vec<char>| v@);
    let dot = chars_of(".");
    let mut last: Option<usize> = None;
    let mut i: usize = 0;
    while i < segs.len()
        invariant
            i <= segs@.len(),
            sv == segs@.map_values(|v: Vec<char>| v@),
            dot@ == "."@,
            match last {
                Some(k) => k < i && normal_segments(sv.take(i as int)).len() > 0 && normal_segments(
                    sv.take(i as int),
                ).last() == sv[k as int],
                None => normal_segments(sv.take(i as int)).len() == 0,
            },
        decreases segs.len() - i,
    {
        assert(sv.take(i + 1).drop_last() =~= sv.take(i as int));
        assert(sv.take(i + 1).last() == segs@[i as int]@);
        if segs[i].len() > 0 && !chars_equal(segs[i].as_slice(), dot.as_slice()) {
            last = Some(i);
        }
        i = i + 1;
    }
    assert(sv.take(sv.len() as int) =~= sv);
    match last {
        Some(k) => {
            assert(sv[k as int] == segs@[k as int]@);
            if chars_equal(segs[k].as_slice(), chars_of("..").as_slice()) {
                None
            } else {
                Some(string_from_chars(segs[k].as_slice()))
            }
        },
        None => None,
    }
}

/// The file name at the end of a URL's path (none when the URL does not parse
/// to a path with one).
pub open spec fn url_basename(url: Seq<char>) -> Option<Seq<char>> {
    path_file_name(
        match parsed_url(url) {
            Ok(p) => p.path@,
            Err(_) => Seq::empty(),
        },
    )
}

/// The local file name of a download: for a Google Drive download, the name
/// its `Content-Disposition` gives; otherwise the last component of the final
/// URL's path, or `download`. The asynchronous API sanitizes the latter.
pub open spec fn download_filename(
    req: DriveRequest,
    content_disposition: Option<Seq<char>>,
    current: Seq<char>,
) -> Seq<char> {
    let from_header = if req.follows_drive() {
        if req.flavor() == ApiFlavor::Async {
            match content_disposition {
                Some(c) => content_disposition_filename(c),
                None => None,
            }
        } else {
            header_filename(content_disposition)
        }
    } else {
        None
    };
    match from_header {
        Some(f) => f,
        None => {
            let base = match url_basename(current) {
                Some(b) => b,
                None => "download"@,
            };
            if req.flavor() == ApiFlavor::Async {
                sanitized_filename(base)
            } else {
                base
            }
        },
    }
}

impl DriveRequest {
    /// The local file name of the download, from the final response's
    /// `Content-Disposition` (`None` when absent or not visible ASCII) and the
    /// final URL.
    pub fn filename(&self, content_disposition: Option<&str>, current_url: &str) -> (r: String)
        ensures
            r@ == download_filename(*self, str_opt(content_disposition), current_url@),
    {
        if self.is_drive_download() {
            let from_header = match self.flavor {
                ApiFlavor::Async => match content_disposition {
                    Some(c) => filename_from_content_disposition(c),
                    None => None,
                },
                ApiFlavor::Blocking => get_filename_from_response(content_disposition),
            };
            match from_header {
                Some(f) => {
                    return f;
                },
                None => {},
            }
        }
        let path = match parse_url_parts(current_url) {
            Ok(p) => p.path,
            Err(_) => String::new(),
        };
        let base = match path_file_name_text(path.as_str()) {
            Some(b) => b,
            None => "download".to_string(),
        };
        match self.flavor {
            ApiFlavor::Async => sanitize_filename(base.as_str()),
            ApiFlavor::Blocking => base,
        }
    }
}

/// Where a download is written.
#[derive(Debug)]
pub enum OutputTarget {
    /// Standard output.
    Stdout,
    /// This file.
    File(String),
    /// A file in a directory that is created first if missing.
    InDirectory { dir: String, path: String },
}

/// [`OutputTarget`] seen through views.
pub enum OutputView {
    Stdout,
    File(Seq<char>),
    InDirectory(Seq<char>, Seq<char>),
}

/// An output target seen through views.
pub open spec fn output_view(t: OutputTarget) -> OutputView {
    match t {
        OutputTarget::Stdout => OutputView::Stdout,
        OutputTarget::File(p) => OutputView::File(p@),
        OutputTarget::InDirectory { dir, path } => OutputView::InDirectory(dir@, path@),
    }
}

/// Where a download named `filename` is written: the output asked for, or the
/// file name; `-` is standard output for the asynchronous API; an output that
/// ends with `/` is a directory, and the file goes inside it.
pub open spec fn output_decision(flavor: ApiFlavor, output: Option<Seq<char>>, filename: Seq<char>) -> OutputView {
    let out = match output {
        Some(o) => o,
        None => filename,
    };
    if flavor == ApiFlavor::Async && out == "-"@ {
        OutputView::Stdout
    } else if out.len() > 0 && out.last() == '/' {
        OutputView::InDirectory(out, crate::download_folder::join_path(out, filename))
    } else {
        OutputView::File(out)
    }
}

/// Decides where a download named `filename` is written.
pub fn output_target(flavor: ApiFlavor, output: Option<&str>, filename: &str) -> (r: OutputTarget)
    ensures
        output_view(r) == output_decision(flavor, str_opt(output), filename@),
{
    let out = match output {
        Some(o) => o,
        None => filename,
    };
    let v = chars_of(out);
    if flavor == ApiFlavor::Async && chars_equal(v.as_slice(), chars_of("-").as_slice()) {
        return OutputTarget::Stdout;
    }
    if v.len() > 0 && v[v.len() - 1] == '/' {
        return OutputTarget::InDirectory {
            dir: out.to_string(),
            path: crate::download_folder::join_path_text(out, filename),
        };
    }
    OutputTarget::File(out.to_string())
}

/// Checks that a download to standard output is not asked to resume.
///
/// # Errors
///
/// [`Error::InvalidInput`] when `resume` is set.
pub fn check_stdout_resume(resume: bool) -> (r: Result<(), Error>)
    ensures
        r is Ok <==> !resume,
        r matches Err(e) ==> e.kind() == ErrorKind::InvalidInput && e.message()
            == "cannot use --continue when output is stdout"@,
{
    if resume {
        Err(Error::InvalidInput("cannot use --continue when output is stdout".to_string()))
    } else {
        Ok(())
    }
}

// ── Partial downloads ───────────────────────────────────────────────

/// `c` in ASCII lower case.
pub open spec fn ascii_lower(c: char) -> char {
    if 'A' <= c <= 'Z' {
        ((c as u32) + 32) as char
    } else {
        c
    }
}

/// Whether `a` and `b` are equal up to ASCII case.
pub open spec fn eq_ignore_ascii_case(a: Seq<char>, b: Seq<char>) -> bool {
    a.len() == b.len() && forall|i: int| 0 <= i < a.len() ==> ascii_lower(#[trigger] a[i]) == ascii_lower(b[i])
}

/// The extension of a file name (`Path::extension`): the text after its last
/// `.`, unless that `.` starts the name or the name is `..`.
pub open spec fn file_extension(name: Seq<char>) -> Option<Seq<char>> {
    if name == ".."@ {
        None
    } else {
        match crate::text::rfind(name, "."@) {
            Some(i) => if i == 0 {
                None
            } else {
                Some(name.skip(i + 1))
            },
            None => None,
        }
    }
}

/// Whether a directory entry named `name` is a partial download of `basename`:
/// it starts with `basename` and has the extension `part` (in any ASCII case),
/// or, for the blocking API, ends with `.part`.
pub open spec fn is_part_name(flavor: ApiFlavor, basename: Seq<char>, name: Seq<char>) -> bool {
    starts_with(name, basename) && if flavor == ApiFlavor::Async {
        file_extension(name) matches Some(e) && eq_ignore_ascii_case(e, "part"@)
    } else {
        ends_with(name, ".part"@)
    }
}

fn lower(c: char) -> (r: char)
    ensures
        r == ascii_lower(c),
{
    if 'A' <= c && c <= 'Z' {
        match c {
            'A' => 'a', 'B' => 'b', 'C' => 'c', 'D' => 'd', 'E' => 'e', 'F' => 'f', 'G' => 'g',
            'H' => 'h', 'I' => 'i', 'J' => 'j', 'K' => 'k', 'L' => 'l', 'M' => 'm', 'N' => 'n',
            'O' => 'o', 'P' => 'p', 'Q' => 'q', 'R' => 'r', 'S' => 's', 'T' => 't', 'U' => 'u',
            'V' => 'v', 'W' => 'w', 'X' => 'x', 'Y' => 'y', _ => 'z',
        }
    } else {
        c
    }
}

pub(crate) fn equal_ignoring_case(a: &[char], b: &[char]) -> (r: bool)
    ensures
        r == eq_ignore_ascii_case(a@, b@),
{
    if a.len() != b.len() {
        return false;
    }
    let mut i: usize = 0;
    while i < a.len()
        invariant
            i <= a@.len(),
            a@.len() == b@.len(),
            forall|j: int| 0 <= j < i ==> ascii_lower(#[trigger] a@[j]) == ascii_lower(b@[j]),
        decreases a.len() - i,
    {
        if lower(a[i]) != lower(b[i]) {
            return false;
        }
        i = i + 1;
    }
    true
}

/// Whether the directory entry `name` is a partial download of `basename`.
pub fn is_part_file(flavor: ApiFlavor, basename: &str, name: &str) -> (b: bool)
    ensures
        b == is_part_name(flavor, basename@, name@),
{
    let n = chars_of(name);
    if !crate::text::has_prefix(n.as_slice(), chars_of(basename).as_slice()) {
        return false;
    }
    match flavor {
        ApiFlavor::Async => {
            if chars_equal(n.as_slice(), chars_of("..").as_slice()) {
                return false;
            }
            let dot = chars_of(".");
            match crate::text::rfind_chars(n.as_slice(), dot.as_slice()) {
                Some(i) => {
                    proof {
                        reveal_strlit(".");
                        crate::parse::lemma_rfind_occurs(n@, dot@);
                    }
                    let nn = n.len();
                    assert(i + 1 <= nn);
                    if i == 0 {
                        return false;
                    }
                    let ext = slice_chars(n.as_slice(), i + 1, n.len());
                    assert(ext@ =~= n@.skip(i + 1));
                    equal_ignoring_case(ext.as_slice(), chars_of("part").as_slice())
                },
                None => false,
            }
        },
        ApiFlavor::Blocking => has_suffix(n.as_slice(), chars_of(".part").as_slice()),
    }
}

/// The partial file a download writes to.
#[derive(Debug)]
pub enum PartFile {
    /// Resume this existing partial file.
    Resume(String),
    /// Start this partial file afresh.
    Fresh(String),
    /// Several partial files could be resumed; the blocking API lists them and
    /// gives up.
    Ambiguous,
}

/// [`PartFile`] and its errors seen through views.
pub enum PartView {
    Resume(Seq<char>),
    Fresh(Seq<char>),
    Ambiguous,
    Failed(ErrorKind, Seq<char>),
}

/// Which partial file a download of `basename` in `dir` writes to, given the
/// paths of the existing partial files: the only one when resuming, a fresh
/// `BASENAME.part` when not resuming or when there is none.
pub open spec fn part_decision(
    flavor: ApiFlavor,
    resume: bool,
    dir: Seq<char>,
    basename: Seq<char>,
    existing: Seq<Seq<char>>,
) -> PartView {
    if resume && existing.len() > 0 {
        if existing.len() == 1 {
            PartView::Resume(existing[0])
        } else if flavor == ApiFlavor::Async {
            PartView::Failed(
                ErrorKind::InvalidInput,
                "multiple .part files found for "@ + basename + "; remove all but one to resume"@,
            )
        } else {
            PartView::Ambiguous
        }
    } else {
        PartView::Fresh(crate::download_folder::join_path(dir, basename + ".part"@))
    }
}

/// A partial-file choice seen through views.
pub open spec fn part_view(r: Result<PartFile, Error>) -> PartView {
    match r {
        Ok(PartFile::Resume(p)) => PartView::Resume(p@),
        Ok(PartFile::Fresh(p)) => PartView::Fresh(p@),
        Ok(PartFile::Ambiguous) => PartView::Ambiguous,
        Err(e) => PartView::Failed(e.kind(), e.message()),
    }
}

/// Chooses the partial file of a download of `basename` in `dir`.
pub fn choose_part_file(
    flavor: ApiFlavor,
    resume: bool,
    dir: &str,
    basename: &str,
    existing: &Vec<String>,
) -> (r: Result<PartFile, Error>)
    ensures
        part_view(r) == part_decision(
            flavor,
            resume,
            dir@,
            basename@,
            existing@.map_values(|s: String| s@),
        ),
{
    if resume && existing.len() > 0 {
        if existing.len() == 1 {
            return Ok(PartFile::Resume(existing[0].clone()));
        }
        return match flavor {
            ApiFlavor::Async => Err(
                Error::InvalidInput(
                    cat(
                        cat("multiple .part files found for ", basename).as_str(),
                        "; remove all but one to resume",
                    ),
                ),
            ),
            ApiFlavor::Blocking => Ok(PartFile::Ambiguous),
        };
    }
    let part = cat(basename, ".part");
    Ok(PartFile::Fresh(crate::download_folder::join_path_text(dir, part.as_str())))
}

/// The `Range` header value that resumes a download after `start` bytes.
pub fn range_header_value(start: u64) -> (r: String)
    ensures
        r@ == "bytes="@ + decimal_digits(start as nat) + "-"@,
{
    cat(cat("bytes=", decimal_text(start).as_str()).as_str(), "-")
}

/// Whether the answer to a ranged request restarts the file: the asynchronous
/// API starts over when the server sends the whole file (status 200).
pub fn restarts_after_range(flavor: ApiFlavor, status: u16) -> (b: bool)
    ensures
        b == (flavor == ApiFlavor::Async && status == 200),
{
    flavor == ApiFlavor::Async && status == 200
}

/// The expected final size: the response's `Content-Length` plus the bytes
/// already on disk (none when unknown or too large for `u64`).
pub fn expected_total(content_length: Option<u64>, start: u64) -> (r: Option<u64>)
    ensures
        r == (match content_length {
            Some(n) => if n + start <= u64::MAX {
                Some((n + start) as u64)
            } else {
                None
            },
            None => None,
        }),
{
    match content_length {
        Some(n) => n.checked_add(start),
        None => None,
    }
}

/// Resolves a file URL-or-ID pair for the blocking API, requiring exactly one.
///
/// # Errors
///
/// [`Error::InvalidInput`] (`Either url or id has to be specified`) when both or
/// neither are given.
pub fn file_url_or_id(url: &Option<String>, id: &Option<String>) -> (r: Result<String, Error>)
    ensures
        (id is Some && url is None) ==> (r matches Ok(v) && v@ == "https://drive.google.com/uc?id="@
            + id->0@),
        (id is None && url is Some) ==> (r matches Ok(v) && v@ == url->0@),
        (id is Some) == (url is Some) ==> (r matches Err(e) && e.kind() == ErrorKind::InvalidInput
            && e.message() == "Either url or id has to be specified"@),
{
    match (id, url) {
        (Some(i), None) => Ok(file_url_for_id(i)),
        (None, Some(u)) => Ok(u.clone()),
        _ => Err(Error::InvalidInput("Either url or id has to be specified".to_string())),
    }
}

proof fn lemma_key_now_present(url: Seq<char>, sep: Seq<char>, k: Seq<char>)
    requires
        sep.len() == 1,
    ensures
        find(url + sep + "resourcekey="@ + k, "resourcekey="@) is Some,
{
    reveal_strlit("resourcekey=");
    let u = url + sep + "resourcekey="@ + k;
    let p = "resourcekey="@;
    let at = url.len() as int + 1;
    assert(u.subrange(at, at + p.len() as int) =~= p);
    assert(crate::text::occurs_at(u, at, p));
    crate::text::lemma_find_from(u, p, 0);
}

/// Adding the resource key twice adds it once: a URL that already carries a
/// `resourcekey` is left as it is.
pub proof fn lemma_resource_key_added_once(url: Seq<char>, key: Option<Seq<char>>)
    ensures
        with_resource_key(with_resource_key(url, key), key) == with_resource_key(url, key),
{
    reveal_strlit("&resourcekey=");
    reveal_strlit("?resourcekey=");
    reveal_strlit("resourcekey=");
    reveal_strlit("&");
    reveal_strlit("?");
    if let Some(k) = key {
        if find(url, "resourcekey="@) is None {
            if find(url, "?"@) is Some {
                assert(url + "&resourcekey="@ + k =~= url + "&"@ + "resourcekey="@ + k);
                lemma_key_now_present(url, "&"@, k);
            } else {
                assert(url + "?resourcekey="@ + k =~= url + "?"@ + "resourcekey="@ + k);
                lemma_key_now_present(url, "?"@, k);
            }
        }
    }
}

proof fn lemma_ends_with_char(s: Seq<char>, p: Seq<char>, k: int)
    requires
        ends_with(s, p),
        1 <= k <= p.len(),
    ensures
        s[s.len() - k] == p[p.len() - k],
{
    assert(s.subrange(s.len() - p.len(), s.len() as int)[p.len() - k] == s[s.len() - k]);
}

/// The export format asked for, or `default` when none was.
pub open spec fn format_or(format: Option<Seq<char>>, default: Seq<char>) -> Seq<char> {
    match format {
        Some(f) => f,
        None => default,
    }
}

/// A Google Docs, Sheets or Slides page is exported: when the page read for a
/// file is titled `... - Google Docs` (`Sheets`, `Slides`), the next URL is
/// that document's `/export?format=` URL, in the format asked for, and in
/// `docx` (`xlsx`, `pptx`) only when no format was asked for.
pub proof fn lemma_office_page_exported(
    req: DriveRequest,
    page: Seq<char>,
    set_cookies: Seq<Seq<char>>,
    title: Seq<char>,
)
    requires
        html_title(page) == Some(title),
        req.file_id() is Some,
    ensures
        ends_with(title, " - Google Docs"@) ==> page_decision(req, page, set_cookies) == Ok::<
            Seq<char>,
            (ErrorKind, Seq<char>),
        >(
            "https://docs.google.com/document/d/"@ + req.file_id()->0 + "/export?format="@
                + format_or(req.format(), "docx"@),
        ),
        ends_with(title, " - Google Sheets"@) ==> page_decision(req, page, set_cookies) == Ok::<
            Seq<char>,
            (ErrorKind, Seq<char>),
        >(
            "https://docs.google.com/spreadsheets/d/"@ + req.file_id()->0 + "/export?format="@
                + format_or(req.format(), "xlsx"@),
        ),
        ends_with(title, " - Google Slides"@) ==> page_decision(req, page, set_cookies) == Ok::<
            Seq<char>,
            (ErrorKind, Seq<char>),
        >(
            "https://docs.google.com/presentation/d/"@ + req.file_id()->0 + "/export?format="@
                + format_or(req.format(), "pptx"@),
        ),
{
    reveal_strlit(" - Google Docs");
    reveal_strlit(" - Google Sheets");
    reveal_strlit(" - Google Slides");
    reveal_strlit("https://docs.google.com/");
    reveal_strlit("https://docs.google.com/document/d/");
    reveal_strlit("https://docs.google.com/spreadsheets/d/");
    reveal_strlit("https://docs.google.com/presentation/d/");
    reveal_strlit("document");
    reveal_strlit("spreadsheets");
    reveal_strlit("presentation");
    reveal_strlit("/d/");
    let f = req.file_id()->0;
    if ends_with(title, " - Google Docs"@) {
        lemma_ends_with_char(title, " - Google Docs"@, 4);
    }
    if ends_with(title, " - Google Sheets"@) {
        lemma_ends_with_char(title, " - Google Sheets"@, 4);
    }
    if ends_with(title, " - Google Slides"@) {
        lemma_ends_with_char(title, " - Google Slides"@, 4);
    }
    assert("https://docs.google.com/"@ + "document"@ + "/d/"@ =~= "https://docs.google.com/document/d/"@);
    assert("https://docs.google.com/"@ + "spreadsheets"@ + "/d/"@
        =~= "https://docs.google.com/spreadsheets/d/"@);
    assert("https://docs.google.com/"@ + "presentation"@ + "/d/"@
        =~= "https://docs.google.com/presentation/d/"@);
}

} // verus!
