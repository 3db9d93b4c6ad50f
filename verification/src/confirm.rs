//! The blocking API's reading of Google Drive confirmation pages, line by line,
//! and of `Content-Disposition` headers.
use vstd::prelude::*;

use crate::error::{text_result, Error, ErrorKind};
use crate::html::{find_fragment_download_form, fragment_download_form, DownloadForm};
use crate::parse::{merge_inputs, merged_pairs, split_chars, split_on};
use crate::patterns::{capture_text, first_capture, Tail, TailRule};
use crate::text::{
    chars_of, joined, push_all, replace_all, replace_chars, slice_chars, string_from_chars,
};
use crate::urls::{pair_views, parse_url_parts, parsed_url, percent_decode, percent_decoded, replace_query, url_with_query};

verus! {

/// A line without the `\r` that ends it, if one does.
pub open spec fn strip_cr(l: Seq<char>) -> Seq<char> {
    if l.len() > 0 && l.last() == '\r' {
        l.drop_last()
    } else {
        l
    }
}

/// The lines of `s` as `str::lines` yields them: split at `\n`, each line that
/// a `\n` ends without a `\r` before it, and no empty line after a final `\n`.
pub open spec fn text_lines(s: Seq<char>) -> Seq<Seq<char>> {
    let p = split_on(s, '\n');
    let ended = p.take(p.len() - 1).map_values(|l: Seq<char>| strip_cr(l));
    if p.last().len() == 0 {
        ended
    } else {
        ended.push(p.last())
    }
}

/// The message reported when a confirmation page offers no download link.
pub open spec fn no_link_message() -> Seq<char> {
    "Cannot retrieve the public link of the file. You may need to change the permission to 'Anyone with the link', or have had many accesses. Check FAQ in https://github.com/wkentaro/gdown?tab=readme-ov-file#faq."@
}

/// The download URL a confirmation form in a line submits to: its action, with
/// `&amp;` unescaped, and with the hidden inputs merged into its query.
pub open spec fn line_form_url(f: DownloadForm) -> Result<Seq<char>, (ErrorKind, Seq<char>)> {
    let raw = match f.action {
        Some(a) => a@,
        None => Seq::<char>::empty(),
    };
    let action = replace_all(raw, "&amp;"@, "&"@);
    match parsed_url(action) {
        Err(e) => Err((ErrorKind::FileUrlRetrieval, "Failed to parse form action URL: "@ + e)),
        Ok(p) => match url_with_query(action, merged_pairs(pair_views(p.query@), f.inputs@)) {
            Some(u) => Ok(u),
            None => Err((ErrorKind::FileUrlRetrieval, "Failed to parse form action URL: "@)),
        },
    }
}

/// What one line of a confirmation page yields, if anything: a
/// `/uc?export=download` link, the target of a `#download-form`, a `downloadUrl`
/// value, or an error subcaption.
pub open spec fn line_outcome(line: Seq<char>) -> Option<Result<Seq<char>, (ErrorKind, Seq<char>)>> {
    match first_capture(
        line,
        "href=\"/uc?export=download"@,
        "href=\""@.len() as int,
        TailRule::StopRun('"', 1),
    ) {
        Some(m) => Some(Ok(replace_all("https://docs.google.com"@ + m, "&amp;"@, "&"@))),
        None => match fragment_download_form(line) {
            Some(f) => Some(line_form_url(f)),
            None => match first_capture(
                line,
                "\"downloadUrl\":\""@,
                "\"downloadUrl\":\""@.len() as int,
                TailRule::StopRun('"', 1),
            ) {
                Some(m) => Some(Ok(replace_all(replace_all(m, "\\u003d"@, "="@), "\\u0026"@, "&"@))),
                None => match first_capture(
                    line,
                    "<p class=\"uc-error-subcaption\">"@,
                    "<p class=\"uc-error-subcaption\">"@.len() as int,
                    TailRule::GreedyTo("</p>"@, 0),
                ) {
                    Some(m) => Some(Err((ErrorKind::FileUrlRetrieval, m))),
                    None => None,
                },
            },
        },
    }
}

/// The outcome of the first of `lines`, from `i` on, that yields one.
pub open spec fn lines_outcome(lines: Seq<Seq<char>>, i: int) -> Result<
    Seq<char>,
    (ErrorKind, Seq<char>),
>
    decreases lines.len() - i,
{
    if i < 0 || i >= lines.len() {
        Err((ErrorKind::FileUrlRetrieval, no_link_message()))
    } else {
        match line_outcome(lines[i]) {
            Some(r) => r,
            None => lines_outcome(lines, i + 1),
        }
    }
}

/// What a confirmation page leads to, read line by line.
pub open spec fn line_confirmation_url(page: Seq<char>) -> Result<Seq<char>, (ErrorKind, Seq<char>)> {
    lines_outcome(text_lines(page), 0)
}

fn strip_cr_exec(l: &Vec<char>) -> (r: Vec<char>)
    ensures
        r@ == strip_cr(l@),
{
    if l.len() > 0 && l[l.len() - 1] == '\r' {
        let r = slice_chars(l.as_slice(), 0, l.len() - 1);
        assert(r@ =~= l@.drop_last());
        r
    } else {
        slice_chars(l.as_slice(), 0, l.len())
    }
}

/// Splits text into lines as `str::lines` does.
pub fn lines_of(s: &[char]) -> (r: Vec<Vec<char>>)
    ensures
        r@.map_values(|v: Vec<char>| v@) == text_lines(s@),
{
    let parts = split_chars(s, '\n');
    let ghost pv = parts@.map_values(|v: Vec<char>| v@);
    assert(pv.len() > 0) by {
        assert(split_on(s@, '\n').len() > 0);
    }
    let n = parts.len();
    let mut r: Vec<Vec<char>> = Vec::new();
    let mut i: usize = 0;
    while i + 1 < n
        invariant
            n == parts@.len(),
            n > 0,
            i < n,
            pv == parts@.map_values(|v: Vec<char>| v@),
            r@.map_values(|v: Vec<char>| v@) == pv.take(i as int).map_values(
                |l: Seq<char>| strip_cr(l),
            ),
        decreases n - i,
    {
        let l = strip_cr_exec(&parts[i]);
        let ghost before = r@;
        r.push(l);
        assert(pv[i as int] == parts@[i as int]@);
        assert(r@.map_values(|v: Vec<char>| v@) =~= before.map_values(|v: Vec<char>| v@).push(l@));
        assert(pv.take(i + 1).map_values(|l: Seq<char>| strip_cr(l)) =~= pv.take(i as int).map_values(
            |l: Seq<char>| strip_cr(l),
        ).push(strip_cr(pv[i as int])));
        i = i + 1;
    }
    assert(pv.last() == parts@[n - 1]@);
    assert(i == n - 1);
    if parts[n - 1].len() > 0 {
        let last = slice_chars(parts[n - 1].as_slice(), 0, parts[n - 1].len());
        let ghost before = r@;
        r.push(last);
        assert(last@ =~= pv.last());
        assert(r@.map_values(|v: Vec<char>| v@) =~= before.map_values(|v: Vec<char>| v@).push(
            last@,
        ));
        assert(r@.map_values(|v: Vec<char>| v@) =~= text_lines(s@));
    } else {
        assert(r@.map_values(|v: Vec<char>| v@) =~= text_lines(s@));
    }
    r
}

fn line_form(f: &DownloadForm) -> (r: Result<String, Error>)
    ensures
        text_result(r) == line_form_url(*f),
{
    let raw = match &f.action {
        Some(a) => chars_of(a.as_str()),
        None => Vec::new(),
    };
    proof {
        reveal_strlit("&amp;");
    }
    let action = replace_chars(raw.as_slice(), chars_of("&amp;").as_slice(), chars_of("&").as_slice());
    let action_s = string_from_chars(action.as_slice());
    match parse_url_parts(action_s.as_str()) {
        Err(e) => Err(
            Error::FileUrlRetrieval(
                joined("Failed to parse form action URL: ", chars_of(e.as_str()).as_slice()),
            ),
        ),
        Ok(p) => {
            let pairs = merge_inputs(p.query, &f.inputs);
            match replace_query(action_s.as_str(), pairs.as_slice()) {
                Some(u) => Ok(u),
                None => Err(
                    Error::FileUrlRetrieval(
                        joined("Failed to parse form action URL: ", Vec::new().as_slice()),
                    ),
                ),
            }
        },
    }
}

fn line_result(line: &Vec<char>) -> (r: Option<Result<String, Error>>)
    ensures
        match r {
            Some(x) => line_outcome(line@) == Some(text_result(x)),
            None => line_outcome(line@) is None,
        },
{
    let uc_prefix = chars_of("href=\"/uc?export=download");
    let href = chars_of("href=\"");
    proof {
        reveal_strlit("href=\"/uc?export=download");
        reveal_strlit("href=\"");
    }
    let quoted_run = Tail::StopRun { stop: '"', min: 1 };
    match capture_text(line.as_slice(), uc_prefix.as_slice(), href.len(), &quoted_run) {
        Some(m) => {
            let mut u = chars_of("https://docs.google.com");
            push_all(&mut u, m.as_slice());
            proof {
                reveal_strlit("&amp;");
            }
            let u = replace_chars(u.as_slice(), chars_of("&amp;").as_slice(), chars_of("&").as_slice());
            return Some(Ok(string_from_chars(u.as_slice())));
        },
        None => {},
    }
    let text = string_from_chars(line.as_slice());
    match find_fragment_download_form(text.as_str()) {
        Some(f) => {
            return Some(line_form(&f));
        },
        None => {},
    }
    let dl_prefix = chars_of("\"downloadUrl\":\"");
    match capture_text(line.as_slice(), dl_prefix.as_slice(), dl_prefix.len(), &quoted_run) {
        Some(m) => {
            proof {
                reveal_strlit("\\u003d");
                reveal_strlit("\\u0026");
            }
            let a = replace_chars(m.as_slice(), chars_of("\\u003d").as_slice(), chars_of("=").as_slice());
            let b = replace_chars(a.as_slice(), chars_of("\\u0026").as_slice(), chars_of("&").as_slice());
            return Some(Ok(string_from_chars(b.as_slice())));
        },
        None => {},
    }
    let err_prefix = chars_of("<p class=\"uc-error-subcaption\">");
    let tail = Tail::GreedyTo { term: chars_of("</p>"), min: 0 };
    match capture_text(line.as_slice(), err_prefix.as_slice(), err_prefix.len(), &tail) {
        Some(m) => Some(Err(Error::FileUrlRetrieval(string_from_chars(m.as_slice())))),
        None => None,
    }
}

/// Extracts the download URL from a Google Drive confirmation page, reading it
/// line by line: the first line with a `/uc?export=download` link, a
/// `#download-form`, a `downloadUrl` value or an error subcaption decides.
///
/// # Errors
///
/// [`Error::FileUrlRetrieval`] with the page's error subcaption, when a form's
/// action does not parse, or when no line offers a link.
pub fn get_url_from_gdrive_confirmation(contents: &str) -> (r: Result<String, Error>)
    ensures
        text_result(r) == line_confirmation_url(contents@),
{
    let lines = lines_of(chars_of(contents).as_slice());
    let ghost lv = lines@.map_values(|v: Vec<char>| v@);
    let mut i: usize = 0;
    while i < lines.len()
        invariant
            i <= lines@.len(),
            lv == lines@.map_values(|v: Vec<char>| v@),
            lv == text_lines(contents@),
            lines_outcome(lv, 0) == lines_outcome(lv, i as int),
        decreases lines.len() - i,
    {
        assert(lv[i as int] == lines@[i as int]@);
        match line_result(&lines[i]) {
            Some(r) => {
                return r;
            },
            None => {},
        }
        i = i + 1;
    }
    Err(
        Error::FileUrlRetrieval(
            "Cannot retrieve the public link of the file. You may need to change the permission to 'Anyone with the link', or have had many accesses. Check FAQ in https://github.com/wkentaro/gdown?tab=readme-ov-file#faq.".to_string(),
        ),
    )
}

/// The filename a `Content-Disposition` value names, as the blocking API reads
/// it: after percent-decoding, the rest of the line after `filename*=UTF-8''`
/// with `/` replaced by `_`, or else the text up to the next `"` after
/// `attachment; filename="`.
pub open spec fn header_filename(content_disposition: Option<Seq<char>>) -> Option<Seq<char>> {
    match content_disposition {
        None => None,
        Some(raw) => match percent_decoded(raw) {
            None => None,
            Some(d) => match first_capture(
                d,
                "filename*=UTF-8''"@,
                "filename*=UTF-8''"@.len() as int,
                TailRule::StopRun('\n', 0),
            ) {
                Some(m) => Some(replace_all(m, "/"@, "_"@)),
                None => first_capture(
                    d,
                    "attachment; filename=\""@,
                    "attachment; filename=\""@.len() as int,
                    TailRule::LazyQuote,
                ),
            },
        },
    }
}

/// Extracts the filename from a response's `Content-Disposition` value (`None`
/// when the header is absent or not visible ASCII).
pub fn get_filename_from_response(content_disposition: Option<&str>) -> (r: Option<String>)
    ensures
        crate::parse::option_text(r) == header_filename(
            match content_disposition {
                Some(c) => Some(c@),
                None => None,
            },
        ),
{
    let raw = match content_disposition {
        Some(c) => c,
        None => {
            return None;
        },
    };
    let decoded = match percent_decode(raw) {
        Some(d) => d,
        None => {
            return None;
        },
    };
    let d = chars_of(decoded.as_str());
    let star = chars_of("filename*=UTF-8''");
    let rest_of_line = Tail::StopRun { stop: '\n', min: 0 };
    match capture_text(d.as_slice(), star.as_slice(), star.len(), &rest_of_line) {
        Some(m) => {
            proof {
                reveal_strlit("/");
            }
            let f = replace_chars(m.as_slice(), chars_of("/").as_slice(), chars_of("_").as_slice());
            return Some(string_from_chars(f.as_slice()));
        },
        None => {},
    }
    let quoted = chars_of("attachment; filename=\"");
    match capture_text(d.as_slice(), quoted.as_slice(), quoted.len(), &Tail::LazyQuote) {
        Some(m) => Some(string_from_chars(m.as_slice())),
        None => None,
    }
}

} // verus!
