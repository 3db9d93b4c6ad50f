//! Parsing of Google Drive URLs, confirmation pages, headers and folder pages.
use vstd::prelude::*;

use crate::client::{is_safe_component, sanitize_filename, sanitized_filename};
use crate::error::{text_result, Error, ErrorKind};
use crate::escapes::decoded_escapes;
use crate::html::{
    document_download_form, document_scripts, document_title, find_download_form, script_contents,
    title_text, DownloadForm,
};
use crate::json::{json_as_str, json_document, json_element, json_get, parse_json, JsonValue};
use crate::patterns::{capture_text, first_capture, first_stop, js_strings, js_strings_from, Tail, TailRule};
use crate::text::{
    chars_equal, chars_of, ends_with, joined, find, find_chars_from, find_from, has_prefix, has_suffix,
    is_unicode_whitespace, is_whitespace, lemma_find_from, utf8_len, utf8_len_of, occurs_at, push_all, replace_all,
    replace_chars, rfind, rfind_chars, slice_chars, starts_with, string_from_chars, trim_chars,
    trim_ws, CharClass,
};
use crate::urls::{
    pair_views, parse_url_parts, parsed_url, percent_decode, percent_decoded, replace_query,
    url_with_query,
};

pub use crate::escapes::decode_unicode_escapes;

verus! {

/// `s` split at every `c` (`str::split`): always at least one piece.
pub open spec fn split_on(s: Seq<char>, c: char) -> Seq<Seq<char>>
    decreases s.len(),
{
    let j = first_stop(s, 0, c);
    if j < 0 || j >= s.len() {
        seq![s]
    } else {
        seq![s.take(j)] + split_on(s.skip(j + 1), c)
    }
}

/// `Url::path_segments`: the path without its leading `/`, split at `/`; `None`
/// when the path does not start with `/`.
pub open spec fn path_segments(path: Seq<char>) -> Option<Seq<Seq<char>>> {
    if path.len() > 0 && path[0] == '/' {
        Some(split_on(path.drop_first(), '/'))
    } else {
        None
    }
}

proof fn lemma_first_stop_found(t: Seq<char>, k: int, m: int, c: char)
    requires
        0 <= k <= m < t.len(),
        t[m] == c,
        forall|j: int| k <= j < m ==> t[j] != c,
    ensures
        first_stop(t, k, c) == m,
    decreases m - k,
{
    if k < m {
        lemma_first_stop_found(t, k + 1, m, c);
    }
}

pub proof fn lemma_first_stop_absent(t: Seq<char>, k: int, c: char)
    requires
        0 <= k <= t.len(),
        forall|j: int| k <= j < t.len() ==> t[j] != c,
    ensures
        first_stop(t, k, c) == t.len(),
    decreases t.len() - k,
{
    if k < t.len() {
        lemma_first_stop_absent(t, k + 1, c);
    }
}

/// Splits `s` at every `c`.
pub fn split_chars(s: &[char], c: char) -> (r: Vec<Vec<char>>)
    ensures
        r@.map_values(|v: Vec<char>| v@) == split_on(s@, c),
{
    let n = s.len();
    let mut parts: Vec<Vec<char>> = Vec::new();
    let mut start: usize = 0;
    let mut i: usize = 0;
    assert(s@.skip(0) =~= s@);
    while i < n
        invariant
            start <= i <= n,
            n == s@.len(),
            forall|k: int| start <= k < i ==> s@[k] != c,
            parts@.map_values(|v: Vec<char>| v@) + split_on(s@.skip(start as int), c) == split_on(
                s@,
                c,
            ),
        decreases n - i,
    {
        if s[i] == c {
            let piece = slice_chars(s, start, i);
            let ghost t = s@.skip(start as int);
            proof {
                lemma_first_stop_found(t, 0, i - start, c);
                assert(t.take(i - start) =~= piece@);
                assert(t.skip(i - start + 1) =~= s@.skip(i + 1));
            }
            let ghost before = parts@.map_values(|v: Vec<char>| v@);
            parts.push(piece);
            assert(parts@.map_values(|v: Vec<char>| v@) =~= before.push(piece@));
            assert(before + split_on(t, c) =~= parts@.map_values(|v: Vec<char>| v@) + split_on(
                s@.skip(i + 1),
                c,
            ));
            start = i + 1;
        }
        i = i + 1;
    }
    let last = slice_chars(s, start, n);
    let ghost t = s@.skip(start as int);
    proof {
        lemma_first_stop_absent(t, 0, c);
        assert(t =~= last@);
    }
    let ghost before = parts@.map_values(|v: Vec<char>| v@);
    parts.push(last);
    assert(parts@.map_values(|v: Vec<char>| v@) =~= before + split_on(t, c));
    parts
}

/// Google Drive's own hosts.
pub open spec fn is_drive_host(h: Seq<char>) -> bool {
    h == "drive.google.com"@ || h == "docs.google.com"@
}

/// Whether `url` parses and its host is `drive.google.com` or `docs.google.com`.
pub open spec fn url_is_google_drive(url: Seq<char>) -> bool {
    match parsed_url(url) {
        Ok(p) => match p.host {
            Some(h) => is_drive_host(h@),
            None => false,
        },
        Err(_) => false,
    }
}

fn host_is_drive(h: &String) -> (b: bool)
    ensures
        b == is_drive_host(h@),
{
    let hv = chars_of(h.as_str());
    let a = chars_of("drive.google.com");
    let b = chars_of("docs.google.com");
    chars_equal(hv.as_slice(), a.as_slice()) || chars_equal(hv.as_slice(), b.as_slice())
}

/// Checks whether a URL points at Google Drive or Google Docs.
pub fn is_google_drive_url(url_str: &str) -> (b: bool)
    ensures
        b == url_is_google_drive(url_str@),
{
    match parse_url_parts(url_str) {
        Ok(p) => match &p.host {
            Some(h) => host_is_drive(h),
            None => false,
        },
        Err(_) => false,
    }
}

/// The values of the query pairs whose key is `key`, in order.
pub open spec fn query_values(q: Seq<(String, String)>, key: Seq<char>) -> Seq<Seq<char>>
    decreases q.len(),
{
    if q.len() == 0 {
        seq![]
    } else {
        let rest = query_values(q.drop_last(), key);
        if q.last().0@ == key {
            rest.push(q.last().1@)
        } else {
            rest
        }
    }
}

/// The values of the query pairs of `q` whose key is `key`.
pub fn query_values_of(q: &Vec<(String, String)>, key: &[char]) -> (r: Vec<String>)
    ensures
        r@.map_values(|s: String| s@) == query_values(q@, key@),
{
    let mut r: Vec<String> = Vec::new();
    let mut i: usize = 0;
    while i < q.len()
        invariant
            i <= q@.len(),
            r@.map_values(|s: String| s@) == query_values(q@.take(i as int), key@),
        decreases q.len() - i,
    {
        let k = chars_of(q[i].0.as_str());
        assert(q@.take(i + 1).drop_last() =~= q@.take(i as int));
        let ghost before = r@.map_values(|s: String| s@);
        if chars_equal(k.as_slice(), key) {
            r.push(q[i].1.clone());
            assert(r@.map_values(|s: String| s@) =~= before.push(q@[i as int].1@));
        }
        i = i + 1;
    }
    assert(q@.take(q@.len() as int) =~= q@);
    r
}

/// Whether `action` is allowed after a document of `kind` in a Google URL path.
pub open spec fn action_allowed(kind: Seq<char>, action: Seq<char>) -> bool {
    if kind == "file"@ {
        action == "edit"@ || action == "view"@
    } else if kind == "document"@ || kind == "presentation"@ || kind == "spreadsheets"@ {
        action == "edit"@ || action == "htmlview"@ || action == "view"@
    } else {
        false
    }
}

/// The file ID in path segments of the forms `KIND/d/ID/ACTION/...` and
/// `KIND/u/USER/d/ID/ACTION/...`.
pub open spec fn file_id_from_segments(seg: Seq<Seq<char>>) -> Option<Seq<char>> {
    if seg.len() >= 4 && seg[1] == "d"@ && action_allowed(seg[0], seg[3]) {
        Some(seg[2])
    } else if seg.len() >= 6 && seg[1] == "u"@ && seg[3] == "d"@ && action_allowed(
        seg[0],
        seg[5],
    ) {
        Some(seg[4])
    } else {
        None
    }
}

/// The Google Drive file ID of `url`: the single `id` query value, or, without
/// any `id`, the ID in the path; none for other hosts or repeated `id`s.
pub open spec fn drive_file_id(url: Seq<char>) -> Option<Seq<char>> {
    match parsed_url(url) {
        Err(_) => None,
        Ok(p) => if !url_is_google_drive(url) {
            None
        } else {
            let ids = query_values(p.query@, "id"@);
            if ids.len() >= 2 {
                None
            } else if ids.len() == 1 {
                Some(ids[0])
            } else {
                match path_segments(p.path@) {
                    Some(seg) => file_id_from_segments(seg),
                    None => None,
                }
            }
        },
    }
}

/// Whether `url` parses and its path ends with `/uc`.
pub open spec fn drive_download_link(url: Seq<char>) -> bool {
    match parsed_url(url) {
        Ok(p) => ends_with(p.path@, "/uc"@),
        Err(_) => false,
    }
}

fn action_ok(kind: &[char], action: &[char]) -> (b: bool)
    ensures
        b == action_allowed(kind@, action@),
{
    let edit = chars_of("edit");
    let view = chars_of("view");
    let htmlview = chars_of("htmlview");
    if chars_equal(kind, chars_of("file").as_slice()) {
        chars_equal(action, edit.as_slice()) || chars_equal(action, view.as_slice())
    } else if chars_equal(kind, chars_of("document").as_slice()) || chars_equal(
        kind,
        chars_of("presentation").as_slice(),
    ) || chars_equal(kind, chars_of("spreadsheets").as_slice()) {
        chars_equal(action, edit.as_slice()) || chars_equal(action, htmlview.as_slice())
            || chars_equal(action, view.as_slice())
    } else {
        false
    }
}

fn id_from_segments(seg: &Vec<Vec<char>>) -> (r: Option<Vec<char>>)
    ensures
        r matches Some(v) ==> file_id_from_segments(seg@.map_values(|x: Vec<char>| x@)) == Some(
            v@,
        ),
        r is None ==> file_id_from_segments(seg@.map_values(|x: Vec<char>| x@)) is None,
{
    let ghost sv = seg@.map_values(|x: Vec<char>| x@);
    let d = chars_of("d");
    let u = chars_of("u");
    if seg.len() >= 4 && chars_equal(seg[1].as_slice(), d.as_slice()) && action_ok(
        seg[0].as_slice(),
        seg[3].as_slice(),
    ) {
        assert(sv[1] == seg@[1]@ && sv[0] == seg@[0]@ && sv[3] == seg@[3]@ && sv[2] == seg@[2]@);
        return Some(seg[2].clone());
    }
    assert(seg@.len() >= 4 ==> sv[1] == seg@[1]@ && sv[0] == seg@[0]@ && sv[3] == seg@[3]@);
    if seg.len() >= 6 && chars_equal(seg[1].as_slice(), u.as_slice()) && chars_equal(
        seg[3].as_slice(),
        d.as_slice(),
    ) && action_ok(seg[0].as_slice(), seg[5].as_slice()) {
        assert(sv[5] == seg@[5]@ && sv[4] == seg@[4]@);
        return Some(seg[4].clone());
    }
    assert(seg@.len() >= 6 ==> sv[5] == seg@[5]@);
    None
}

/// Result of parsing a Google Drive URL.
#[derive(Debug, Clone, PartialEq, Eq)]
pub struct ParsedUrl {
    /// The Google Drive file ID, when the URL names one.
    pub file_id: Option<String>,
    /// Whether the URL is a direct download link (its path ends with `/uc`).
    pub is_download_link: bool,
}

/// The file ID as characters, when there is one.
pub open spec fn option_text(o: Option<String>) -> Option<Seq<char>> {
    match o {
        Some(s) => Some(s@),
        None => None,
    }
}

/// Parses a Google Drive URL, extracting the file ID and whether it is a direct
/// download link.
pub fn parse_url(url_str: &str) -> (r: ParsedUrl)
    ensures
        option_text(r.file_id) == drive_file_id(url_str@),
        r.is_download_link == drive_download_link(url_str@),
{
    let p = match parse_url_parts(url_str) {
        Ok(p) => p,
        Err(_) => {
            return ParsedUrl { file_id: None, is_download_link: false };
        },
    };
    let path = chars_of(p.path.as_str());
    let is_download_link = has_suffix(path.as_slice(), chars_of("/uc").as_slice());
    if !is_google_drive_url(url_str) {
        return ParsedUrl { file_id: None, is_download_link };
    }
    let ids = query_values_of(&p.query, chars_of("id").as_slice());
    let ghost idv = ids@.map_values(|s: String| s@);
    if ids.len() >= 2 {
        return ParsedUrl { file_id: None, is_download_link };
    }
    if ids.len() == 1 {
        assert(idv[0] == ids@[0]@);
        return ParsedUrl { file_id: Some(ids[0].clone()), is_download_link };
    }
    let file_id = if path.len() > 0 && path[0] == '/' {
        let rest = slice_chars(path.as_slice(), 1, path.len());
        assert(rest@ =~= path@.drop_first());
        let seg = split_chars(rest.as_slice(), '/');
        match id_from_segments(&seg) {
            Some(v) => Some(string_from_chars(v.as_slice())),
            None => None,
        }
    } else {
        None
    };
    ParsedUrl { file_id, is_download_link }
}

/// The first value of the query pairs whose key is `key`.
pub open spec fn query_first(q: Seq<(String, String)>, key: Seq<char>) -> Option<Seq<char>>
    decreases q.len(),
{
    if q.len() == 0 {
        None
    } else if q[0].0@ == key {
        Some(q[0].1@)
    } else {
        query_first(q.drop_first(), key)
    }
}

/// The `resourcekey` query value of `url`, when it parses and has one.
pub open spec fn url_resource_key(url: Seq<char>) -> Option<Seq<char>> {
    match parsed_url(url) {
        Ok(p) => query_first(p.query@, "resourcekey"@),
        Err(_) => None,
    }
}

/// The first value of the query pairs of `q` whose key is `key`.
pub fn query_first_of(q: &Vec<(String, String)>, key: &[char]) -> (r: Option<String>)
    ensures
        option_text(r) == query_first(q@, key@),
{
    let mut i: usize = 0;
    assert(q@.skip(0) =~= q@);
    while i < q.len()
        invariant
            i <= q@.len(),
            query_first(q@, key@) == query_first(q@.skip(i as int), key@),
        decreases q.len() - i,
    {
        let k = chars_of(q[i].0.as_str());
        assert(q@.skip(i as int)[0] == q@[i as int]);
        assert(q@.skip(i as int).drop_first() =~= q@.skip(i + 1));
        if chars_equal(k.as_slice(), key) {
            return Some(q[i].1.clone());
        }
        i = i + 1;
    }
    None
}

/// Extracts the `resourcekey` query parameter of a URL.
pub fn extract_resource_key(url: &str) -> (r: Option<String>)
    ensures
        option_text(r) == url_resource_key(url@),
{
    match parse_url_parts(url) {
        Ok(p) => query_first_of(&p.query, chars_of("resourcekey").as_slice()),
        Err(_) => None,
    }
}

/// A character that ends a confirmation token.
pub open spec fn is_token_delimiter(c: char) -> bool {
    c == '&' || c == '"' || c == '\'' || is_unicode_whitespace(c)
}

/// The first position at or after `k` that holds a token delimiter, or `s.len()`.
pub open spec fn first_delimiter(s: Seq<char>, k: int) -> int
    decreases s.len() - k,
{
    if k >= s.len() {
        s.len() as int
    } else if is_token_delimiter(s[k]) {
        k
    } else {
        first_delimiter(s, k + 1)
    }
}

/// The non-empty values after each `confirm=` in `h`, searching from `start`; the
/// search resumes right after each `confirm=`.
pub open spec fn confirm_tokens_from(h: Seq<char>, start: int) -> Seq<Seq<char>>
    decreases h.len() + 1 - start,
{
    if start < 0 || start > h.len() {
        seq![]
    } else {
        match find_from(h, "confirm="@, start) {
            None => seq![],
            Some(p) => {
                let st = p + "confirm="@.len();
                let tok = h.subrange(st, first_delimiter(h, st));
                let here = if tok.len() > 0 {
                    seq![tok]
                } else {
                    seq![]
                };
                if st >= h.len() || st <= start {
                    here
                } else {
                    here + confirm_tokens_from(h, st)
                }
            },
        }
    }
}

/// `ts` without the tokens equal to `t`.
pub open spec fn without_bare_t(ts: Seq<Seq<char>>) -> Seq<Seq<char>>
    decreases ts.len(),
{
    if ts.len() == 0 {
        ts
    } else {
        let r = without_bare_t(ts.drop_last());
        if ts.last() == seq!['t'] {
            r
        } else {
            r.push(ts.last())
        }
    }
}

/// The last of the longest strings of `ts`, by UTF-8 byte length (what a stable
/// sort by `String::len` followed by `pop` yields).
pub open spec fn last_longest(ts: Seq<Seq<char>>) -> Option<Seq<char>>
    decreases ts.len(),
{
    if ts.len() == 0 {
        None
    } else {
        match last_longest(ts.drop_last()) {
            None => Some(ts.last()),
            Some(b) => if utf8_len(ts.last()) >= utf8_len(b) {
                Some(ts.last())
            } else {
                Some(b)
            },
        }
    }
}

/// The confirmation token of a page: after `&amp;` is unescaped, the last of the
/// longest values (in UTF-8 bytes) after `confirm=`, ignoring the placeholder `t`.
pub open spec fn html_confirm_token(html: Seq<char>) -> Option<Seq<char>> {
    last_longest(without_bare_t(confirm_tokens_from(replace_all(html, "&amp;"@, "&"@), 0)))
}

fn first_delimiter_exec(s: &[char], k: usize) -> (j: usize)
    requires
        k <= s@.len(),
    ensures
        j == first_delimiter(s@, k as int),
        k <= j <= s@.len(),
        forall|m: int| k <= m < j ==> !is_token_delimiter(#[trigger] s@[m]),
{
    let mut j = k;
    while j < s.len()
        invariant
            k <= j <= s@.len(),
            first_delimiter(s@, k as int) == first_delimiter(s@, j as int),
            forall|m: int| k <= m < j ==> !is_token_delimiter(#[trigger] s@[m]),
        decreases s.len() - j,
    {
        let c = s[j];
        if c == '&' || c == '"' || c == '\'' || is_whitespace(c) {
            return j;
        }
        j = j + 1;
    }
    j
}

/// Finds the confirmation token in an HTML page, ignoring the placeholder `t`.
pub fn confirm_token_from_html(html: &str) -> (r: Option<String>)
    ensures
        option_text(r) == html_confirm_token(html@),
{
    let raw = chars_of(html);
    let amp = chars_of("&amp;");
    let plain = chars_of("&");
    proof {
        reveal_strlit("&amp;");
    }
    let h = replace_chars(raw.as_slice(), amp.as_slice(), plain.as_slice());
    let needle = chars_of("confirm=");
    proof {
        reveal_strlit("confirm=");
    }
    let mut tokens: Vec<Vec<char>> = Vec::new();
    let mut search_start: usize = 0;
    let hn = h.len();
    loop
        invariant
            search_start <= h@.len(),
            hn == h@.len(),
            needle@ == "confirm="@,
            needle@.len() == 8,
            tokens@.map_values(|v: Vec<char>| v@) + confirm_tokens_from(h@, search_start as int)
                == confirm_tokens_from(h@, 0),
        ensures
            find_from(h@, needle@, search_start as int) is None,
            search_start <= h@.len(),
            tokens@.map_values(|v: Vec<char>| v@) + confirm_tokens_from(h@, search_start as int)
                == confirm_tokens_from(h@, 0),
        decreases h@.len() + 1 - search_start,
    {
        match find_chars_from(h.as_slice(), needle.as_slice(), search_start) {
            None => {
                break;
            },
            Some(p) => {
                proof {
                    lemma_find_from(h@, needle@, search_start as int);
                }
                let start = p + 8;
                let end = first_delimiter_exec(h.as_slice(), start);
                let tok = slice_chars(h.as_slice(), start, end);
                let ghost before = tokens@.map_values(|v: Vec<char>| v@);
                if tok.len() > 0 {
                    tokens.push(tok);
                    assert(tokens@.map_values(|v: Vec<char>| v@) =~= before + seq![tok@]);
                } else {
                    assert(tokens@.map_values(|v: Vec<char>| v@) =~= before + Seq::<
                        Seq<char>,
                    >::empty());
                }
                if start >= hn {
                    assert(find_from(h@, needle@, start as int) is None);
                    assert(confirm_tokens_from(h@, start as int) =~= Seq::<Seq<char>>::empty());
                }
                search_start = start;
            },
        }
    }
    assert(confirm_tokens_from(h@, search_start as int) =~= Seq::<Seq<char>>::empty());
    let mut best: Option<usize> = None;
    let mut best_len: u128 = 0;
    let mut i: usize = 0;
    let ghost tv = tokens@.map_values(|v: Vec<char>| v@);
    assert(tv + Seq::<Seq<char>>::empty() =~= tv);
    while i < tokens.len()
        invariant
            i <= tokens@.len(),
            tv == tokens@.map_values(|v: Vec<char>| v@),
            match best {
                Some(b) => b < i && last_longest(without_bare_t(tv.take(i as int))) == Some(
                    tv[b as int],
                ) && best_len == utf8_len(tv[b as int]),
                None => last_longest(without_bare_t(tv.take(i as int))) is None,
            },
        decreases tokens.len() - i,
    {
        assert(tv.take(i + 1).drop_last() =~= tv.take(i as int));
        assert(tv.take(i + 1).last() == tokens@[i as int]@);
        let t = &tokens[i];
        let is_t = t.len() == 1 && t[0] == 't';
        assert(is_t == (t@ == seq!['t'])) by {
            if t@ == seq!['t'] {
                assert(t@[0] == 't');
            }
            if is_t {
                assert(t@ =~= seq!['t']);
            }
        }
        let ghost w = without_bare_t(tv.take(i as int));
        if !is_t {
            assert(without_bare_t(tv.take(i + 1)) == w.push(t@));
            assert(w.push(t@).drop_last() =~= w);
            let t_len = utf8_len_of(t.as_slice());
            let replace = match best {
                None => true,
                Some(b) => t_len >= best_len,
            };
            if replace {
                best = Some(i);
                best_len = t_len;
            }
        } else {
            assert(without_bare_t(tv.take(i + 1)) == w);
        }
        i = i + 1;
    }
    assert(tv.take(tokens@.len() as int) =~= tv);
    match best {
        Some(b) => Some(string_from_chars(tokens[b].as_slice())),
        None => None,
    }
}

/// The confirmation token that one `Set-Cookie` value carries: the text after the
/// first `=` up to `;`, trimmed, when the cookie's name starts with
/// `download_warning`.
pub open spec fn cookie_confirm_token(c: Seq<char>) -> Option<Seq<char>> {
    let eq = first_stop(c, 0, '=');
    if eq >= c.len() || !starts_with(c.take(eq), "download_warning"@) {
        None
    } else {
        let rest = c.skip(eq + 1);
        let tok = trim_ws(rest.take(first_stop(rest, 0, ';')));
        if tok.len() > 0 {
            Some(tok)
        } else {
            None
        }
    }
}

/// The token of the first `Set-Cookie` value that carries one.
pub open spec fn cookies_confirm_token(cs: Seq<Seq<char>>) -> Option<Seq<char>>
    decreases cs.len(),
{
    if cs.len() == 0 {
        None
    } else {
        match cookie_confirm_token(cs[0]) {
            Some(t) => Some(t),
            None => cookies_confirm_token(cs.drop_first()),
        }
    }
}

fn first_stop_chars(s: &[char], c: char) -> (j: usize)
    ensures
        j == first_stop(s@, 0, c),
        j <= s@.len(),
{
    let mut j: usize = 0;
    while j < s.len() && s[j] != c
        invariant
            j <= s@.len(),
            first_stop(s@, 0, c) == first_stop(s@, j as int, c),
        decreases s.len() - j,
    {
        j = j + 1;
    }
    j
}

/// Finds the `download_warning` confirmation token among the `Set-Cookie` values
/// of a response, in header order.
pub fn confirm_token_from_headers(set_cookies: &[String]) -> (r: Option<String>)
    ensures
        option_text(r) == cookies_confirm_token(set_cookies@.map_values(|s: String| s@)),
{
    let ghost cv = set_cookies@.map_values(|s: String| s@);
    let prefix = chars_of("download_warning");
    let mut i: usize = 0;
    assert(cv.skip(0) =~= cv);
    while i < set_cookies.len()
        invariant
            i <= set_cookies@.len(),
            cv == set_cookies@.map_values(|s: String| s@),
            prefix@ == "download_warning"@,
            cookies_confirm_token(cv) == cookies_confirm_token(cv.skip(i as int)),
        decreases set_cookies.len() - i,
    {
        let c = chars_of(set_cookies[i].as_str());
        assert(cv.skip(i as int)[0] == c@);
        assert(cv.skip(i as int).drop_first() =~= cv.skip(i + 1));
        let eq = first_stop_chars(c.as_slice(), '=');
        if eq < c.len() {
            let name = slice_chars(c.as_slice(), 0, eq);
            assert(name@ =~= c@.take(eq as int));
            if has_prefix(name.as_slice(), prefix.as_slice()) {
                let rest = slice_chars(c.as_slice(), eq + 1, c.len());
                assert(rest@ =~= c@.skip(eq + 1));
                let semi = first_stop_chars(rest.as_slice(), ';');
                let first = slice_chars(rest.as_slice(), 0, semi);
                assert(first@ =~= rest@.take(semi as int));
                let tok = trim_chars(first.as_slice(), CharClass::Whitespace);
                if tok.len() > 0 {
                    return Some(string_from_chars(tok.as_slice()));
                }
            }
        }
        i = i + 1;
    }
    None
}

/// The text of the first `<title>...</title>` on one line (`<title>(.+)</title>`).
pub open spec fn html_title(html: Seq<char>) -> Option<Seq<char>> {
    first_capture(html, "<title>"@, "<title>"@.len() as int, TailRule::GreedyTo("</title>"@, 1))
}

/// Extracts the text of the page title.
pub fn title_from_html(html: &str) -> (r: Option<String>)
    ensures
        option_text(r) == html_title(html@),
{
    let s = chars_of(html);
    let prefix = chars_of("<title>");
    let term = chars_of("</title>");
    let tail = Tail::GreedyTo { term, min: 1 };
    match capture_text(s.as_slice(), prefix.as_slice(), prefix.len(), &tail) {
        Some(v) => Some(string_from_chars(v.as_slice())),
        None => None,
    }
}

/// The filename that a `Content-Disposition` value names: after percent-decoding,
/// the sanitized text after `filename*=UTF-8''`, or else the sanitized quoted
/// text after `attachment; filename="`.
pub open spec fn content_disposition_filename(raw: Seq<char>) -> Option<Seq<char>> {
    match percent_decoded(raw) {
        None => None,
        Some(d) => match find(d, "filename*=UTF-8''"@) {
            Some(i) => Some(sanitized_filename(d.skip(i + "filename*=UTF-8''"@.len()))),
            None => match find(d, "attachment; filename=\""@) {
                Some(i) => {
                    let rest = d.skip(i + "attachment; filename=\""@.len());
                    let q = first_stop(rest, 0, '"');
                    if q < rest.len() {
                        Some(sanitized_filename(rest.take(q)))
                    } else {
                        None
                    }
                },
                None => None,
            },
        },
    }
}

/// Extracts a safe filename from a `Content-Disposition` header value.
pub fn filename_from_content_disposition(raw: &str) -> (r: Option<String>)
    ensures
        option_text(r) == content_disposition_filename(raw@),
        r matches Some(f) ==> is_safe_component(f@),
{
    let decoded = match percent_decode(raw) {
        Some(d) => d,
        None => return None,
    };
    let d = chars_of(decoded.as_str());
    let star = chars_of("filename*=UTF-8''");
    match find_chars_from(d.as_slice(), star.as_slice(), 0) {
        Some(i) => {
            proof {
                lemma_find_from(d@, star@, 0);
            }
            let dn = d.len();
            assert(i + star@.len() <= dn);
            let rest = slice_chars(d.as_slice(), i + star.len(), d.len());
            assert(rest@ =~= d@.skip(i + star@.len()));
            let f = sanitize_filename(string_from_chars(rest.as_slice()).as_str());
            if !f.as_str().is_empty() {
                return Some(f);
            }
            proof {
                assert(f@.len() > 0);
            }
        },
        None => {},
    }
    let quoted = chars_of("attachment; filename=\"");
    match find_chars_from(d.as_slice(), quoted.as_slice(), 0) {
        Some(i) => {
            proof {
                lemma_find_from(d@, quoted@, 0);
            }
            let dn = d.len();
            assert(i + quoted@.len() <= dn);
            let rest = slice_chars(d.as_slice(), i + quoted.len(), d.len());
            assert(rest@ =~= d@.skip(i + quoted@.len()));
            let q = first_stop_chars(rest.as_slice(), '"');
            if q < rest.len() {
                let name = slice_chars(rest.as_slice(), 0, q);
                assert(name@ =~= rest@.take(q as int));
                let f = sanitize_filename(string_from_chars(name.as_slice()).as_str());
                if !f.as_str().is_empty() {
                    return Some(f);
                }
            }
            None
        },
        None => None,
    }
}

/// The safe filename a response's `Content-Disposition` value names (`None`
/// when the header is absent or not visible ASCII).
pub fn filename_from_response(content_disposition: Option<&str>) -> (r: Option<String>)
    ensures
        option_text(r) == match content_disposition {
            Some(c) => content_disposition_filename(c@),
            None => None,
        },
{
    match content_disposition {
        Some(c) => filename_from_content_disposition(c),
        None => None,
    }
}

/// `q` without the pairs whose key is `k`.
pub open spec fn without_key(q: Seq<(Seq<char>, Seq<char>)>, k: Seq<char>) -> Seq<
    (Seq<char>, Seq<char>),
>
    decreases q.len(),
{
    if q.len() == 0 {
        q
    } else {
        let r = without_key(q.drop_last(), k);
        if q.last().0 == k {
            r
        } else {
            r.push(q.last())
        }
    }
}

/// The query pairs `q` after each hidden input with a name and a value, in order,
/// replaces the pairs of its name by its own pair at the end.
pub open spec fn merged_pairs(
    q: Seq<(Seq<char>, Seq<char>)>,
    inputs: Seq<(Option<String>, Option<String>)>,
) -> Seq<(Seq<char>, Seq<char>)>
    decreases inputs.len(),
{
    if inputs.len() == 0 {
        q
    } else {
        let m = merged_pairs(q, inputs.drop_last());
        match inputs.last() {
            (Some(n), Some(v)) => without_key(m, n@).push((n@, v@)),
            _ => m,
        }
    }
}

/// The URL a form action is resolved against: itself when it parses, otherwise
/// relative to `https://docs.google.com`.
pub open spec fn form_action_target(action: Seq<char>) -> Seq<char> {
    if parsed_url(action) is Ok {
        action
    } else if action.len() > 0 && action[0] == '/' {
        "https://docs.google.com"@ + action
    } else {
        "https://docs.google.com/"@ + action
    }
}

/// The download URL that a confirmation form submits to: its action, with `&amp;`
/// unescaped and resolved, and with the hidden inputs merged into its query.
pub open spec fn form_download_url(f: DownloadForm) -> Result<Seq<char>, (ErrorKind, Seq<char>)> {
    let raw = match f.action {
        Some(a) => a@,
        None => Seq::<char>::empty(),
    };
    let target = form_action_target(replace_all(raw, "&amp;"@, "&"@));
    match parsed_url(target) {
        Err(e) => Err((ErrorKind::FileUrlRetrieval, "failed to parse form action URL: "@ + e)),
        Ok(p) => match url_with_query(target, merged_pairs(pair_views(p.query@), f.inputs@)) {
            Some(u) => Ok(u),
            None => Err((ErrorKind::FileUrlRetrieval, "failed to parse form action URL: "@)),
        },
    }
}

/// The message reported when a confirmation page offers no download link.
pub open spec fn no_public_link_message() -> Seq<char> {
    "Cannot retrieve the public link of the file. You may need to change the permission to 'Anyone with the link', or have had many accesses."@
}

/// What a Google Drive confirmation page leads to: the first of a
/// `/uc?export=download` link, the `#download-form` target, a `downloadUrl` JSON
/// value; or the page's error subcaption, or a generic error.
pub open spec fn confirmation_download_url(contents: Seq<char>) -> Result<
    Seq<char>,
    (ErrorKind, Seq<char>),
> {
    match document_download_form(contents) {
        Err(e) => Err((ErrorKind::Parse, "failed to parse selector: "@ + e)),
        Ok(form) => match first_capture(
            contents,
            "href=\"/uc?export=download"@,
            "href=\""@.len() as int,
            TailRule::QuotedRun,
        ) {
            Some(m) => Ok(replace_all("https://docs.google.com"@ + m, "&amp;"@, "&"@)),
            None => match form {
                Some(f) => form_download_url(f),
                None => match first_capture(
                    contents,
                    "\"downloadUrl\":\""@,
                    "\"downloadUrl\":\""@.len() as int,
                    TailRule::QuotedRun,
                ) {
                    Some(m) => Ok(replace_all(replace_all(m, "\\u003d"@, "="@), "\\u0026"@, "&"@)),
                    None => match first_capture(
                        contents,
                        "<p class=\"uc-error-subcaption\">"@,
                        "<p class=\"uc-error-subcaption\">"@.len() as int,
                        TailRule::GreedyTo("</p>"@, 0),
                    ) {
                        Some(m) => Err((ErrorKind::FileUrlRetrieval, m)),
                        None => Err((ErrorKind::FileUrlRetrieval, no_public_link_message())),
                    },
                },
            },
        },
    }
}

proof fn lemma_pair_views_push(s: Seq<(String, String)>, x: (String, String))
    ensures
        pair_views(s.push(x)) == pair_views(s).push((x.0@, x.1@)),
{
    let l = pair_views(s.push(x));
    let r = pair_views(s).push((x.0@, x.1@));
    assert(l.len() == r.len());
    assert forall|j: int| 0 <= j < l.len() implies l[j] == r[j] by {
        if j < s.len() {
            assert(s.push(x)[j] == s[j]);
        }
    }
    assert(l =~= r);
}

proof fn lemma_pair_views_take(s: Seq<(String, String)>, i: int)
    requires
        0 <= i < s.len(),
    ensures
        pair_views(s.take(i + 1)) == pair_views(s.take(i)).push((s[i].0@, s[i].1@)),
{
    assert(s.take(i + 1) =~= s.take(i).push(s[i]));
    lemma_pair_views_push(s.take(i), s[i]);
}

/// Removes the pairs whose key is `k`.
fn remove_key(q: Vec<(String, String)>, k: &[char]) -> (r: Vec<(String, String)>)
    ensures
        pair_views(r@) == without_key(pair_views(q@), k@),
{
    let mut r: Vec<(String, String)> = Vec::new();
    let mut i: usize = 0;
    while i < q.len()
        invariant
            i <= q@.len(),
            pair_views(r@) == without_key(pair_views(q@.take(i as int)), k@),
        decreases q.len() - i,
    {
        proof {
            lemma_pair_views_take(q@, i as int);
            assert(pair_views(q@.take(i as int)).push((q@[i as int].0@, q@[i as int].1@)).drop_last()
                =~= pair_views(q@.take(i as int)));
        }
        let key = chars_of(q[i].0.as_str());
        if !chars_equal(key.as_slice(), k) {
            let a = q[i].0.clone();
            let b = q[i].1.clone();
            let ghost before = r@;
            r.push((a, b));
            proof {
                lemma_pair_views_push(before, (a, b));
            }
        }
        i = i + 1;
    }
    assert(q@.take(q@.len() as int) =~= q@);
    r
}

/// Merges the hidden inputs of a form into the query pairs of its action.
pub(crate) fn merge_inputs(
    q: Vec<(String, String)>,
    inputs: &Vec<(Option<String>, Option<String>)>,
) -> (r: Vec<(String, String)>)
    ensures
        pair_views(r@) == merged_pairs(pair_views(q@), inputs@),
{
    let ghost q0 = q@;
    let mut r = q;
    let mut i: usize = 0;
    while i < inputs.len()
        invariant
            i <= inputs@.len(),
            pair_views(r@) == merged_pairs(pair_views(q0), inputs@.take(i as int)),
        decreases inputs.len() - i,
    {
        assert(inputs@.take(i + 1).drop_last() =~= inputs@.take(i as int));
        assert(inputs@.take(i + 1).last() == inputs@[i as int]);
        match (&inputs[i].0, &inputs[i].1) {
            (Some(n), Some(v)) => {
                let nk = chars_of(n.as_str());
                let ghost m = pair_views(r@);
                r = remove_key(r, nk.as_slice());
                let a = n.clone();
                let b = v.clone();
                let ghost before = r@;
                r.push((a, b));
                proof {
                    lemma_pair_views_push(before, (a, b));
                }
            },
            _ => {},
        }
        i = i + 1;
    }
    assert(inputs@.take(inputs@.len() as int) =~= inputs@);
    r
}

/// Resolves the download URL of a confirmation form.
fn form_url(f: &DownloadForm) -> (r: Result<String, Error>)
    ensures
        text_result(r) == form_download_url(*f),
{
    let raw = match &f.action {
        Some(a) => chars_of(a.as_str()),
        None => Vec::new(),
    };
    proof {
        reveal_strlit("&amp;");
    }
    let action = replace_chars(raw.as_slice(), chars_of("&amp;").as_slice(), chars_of("&").as_slice());
    let action_s = string_from_chars(action.as_slice());
    let target = match parse_url_parts(action_s.as_str()) {
        Ok(_) => action_s,
        Err(_) => if action.len() > 0 && action[0] == '/' {
            joined("https://docs.google.com", action.as_slice())
        } else {
            joined("https://docs.google.com/", action.as_slice())
        },
    };
    match parse_url_parts(target.as_str()) {
        Err(e) => Err(
            Error::FileUrlRetrieval(joined("failed to parse form action URL: ", chars_of(e.as_str()).as_slice())),
        ),
        Ok(p) => {
            let pairs = merge_inputs(p.query, &f.inputs);
            match replace_query(target.as_str(), pairs.as_slice()) {
                Some(u) => Ok(u),
                None => Err(
                    Error::FileUrlRetrieval(joined("failed to parse form action URL: ", Vec::new().as_slice())),
                ),
            }
        },
    }
}

/// Extracts the download URL from a Google Drive confirmation page.
///
/// Fails when the page shows an error subcaption or offers no download link.
pub fn url_from_gdrive_confirmation(contents: &str) -> (r: Result<String, Error>)
    ensures
        text_result(r) == confirmation_download_url(contents@),
{
    let form = match find_download_form(contents) {
        Err(e) => {
            return Err(Error::Parse(joined("failed to parse selector: ", chars_of(e.as_str()).as_slice())));
        },
        Ok(f) => f,
    };
    let s = chars_of(contents);
    let uc_prefix = chars_of("href=\"/uc?export=download");
    let href = chars_of("href=\"");
    proof {
        reveal_strlit("href=\"/uc?export=download");
        reveal_strlit("href=\"");
    }
    match capture_text(s.as_slice(), uc_prefix.as_slice(), href.len(), &Tail::QuotedRun) {
        Some(m) => {
            let mut u = chars_of("https://docs.google.com");
            push_all(&mut u, m.as_slice());
            proof {
                reveal_strlit("&amp;");
            }
            let u = replace_chars(u.as_slice(), chars_of("&amp;").as_slice(), chars_of("&").as_slice());
            return Ok(string_from_chars(u.as_slice()));
        },
        None => {},
    }
    match &form {
        Some(f) => {
            return form_url(f);
        },
        None => {},
    }
    let dl_prefix = chars_of("\"downloadUrl\":\"");
    match capture_text(s.as_slice(), dl_prefix.as_slice(), dl_prefix.len(), &Tail::QuotedRun) {
        Some(m) => {
            proof {
                reveal_strlit("\\u003d");
                reveal_strlit("\\u0026");
            }
            let a = replace_chars(m.as_slice(), chars_of("\\u003d").as_slice(), chars_of("=").as_slice());
            let b = replace_chars(a.as_slice(), chars_of("\\u0026").as_slice(), chars_of("&").as_slice());
            return Ok(string_from_chars(b.as_slice()));
        },
        None => {},
    }
    let err_prefix = chars_of("<p class=\"uc-error-subcaption\">");
    let tail = Tail::GreedyTo { term: chars_of("</p>"), min: 0 };
    match capture_text(s.as_slice(), err_prefix.as_slice(), err_prefix.len(), &tail) {
        Some(m) => Err(Error::FileUrlRetrieval(string_from_chars(m.as_slice()))),
        None => Err(
            Error::FileUrlRetrieval(
                "Cannot retrieve the public link of the file. You may need to change the permission to 'Anyone with the link', or have had many accesses.".to_string(),
            ),
        ),
    }
}

/// A direct child entry parsed from a Google Drive folder page.
#[derive(Debug, Clone)]
pub struct FolderChild {
    pub id: String,
    pub name: String,
    pub mime_type: String,
}

/// Result of parsing a Google Drive folder page.
#[derive(Debug, Clone)]
pub struct ParsedFolderPage {
    pub folder_id: String,
    pub folder_name: String,
    pub children: Vec<FolderChild>,
}

/// A folder child as `(id, name, mime type)`.
pub open spec fn child_view(c: FolderChild) -> (Seq<char>, Seq<char>, Seq<char>) {
    (c.id@, c.name@, c.mime_type@)
}

/// A parsed folder page as `(folder id, folder name, children)`.
pub open spec fn page_view(p: ParsedFolderPage) -> (Seq<char>, Seq<char>, Seq<(Seq<char>, Seq<char>, Seq<char>)>) {
    (p.folder_id@, p.folder_name@, p.children@.map_values(|c: FolderChild| child_view(c)))
}

/// Whether a JavaScript string holds the folder listing: decoded, it is JSON whose
/// first element is an array.
pub open spec fn is_listing_data(c: Seq<char>) -> bool {
    match json_document(decoded_escapes(c)) {
        Some(v) => json_element(v, 0) matches Some(JsonValue::Array(_)),
        None => false,
    }
}

/// The first listing among `strings` at or after `j`.
pub open spec fn first_listing_after(strings: Seq<Seq<char>>, j: int) -> Option<Seq<char>>
    decreases strings.len() - j,
{
    if j < 0 || j >= strings.len() {
        None
    } else if is_listing_data(strings[j]) {
        Some(strings[j])
    } else {
        first_listing_after(strings, j + 1)
    }
}

/// The listing that follows a `_DRIVE_ivd` marker among `strings`, searching the
/// markers from `idx` on.
pub open spec fn listing_after_marker(strings: Seq<Seq<char>>, idx: int) -> Option<Seq<char>>
    decreases strings.len() - idx,
{
    if idx < 0 || idx >= strings.len() {
        None
    } else if strings[idx] == "_DRIVE_ivd"@ && first_listing_after(strings, idx + 1) is Some {
        first_listing_after(strings, idx + 1)
    } else {
        listing_after_marker(strings, idx + 1)
    }
}

/// The listing in the first script, from `i` on, that mentions `_DRIVE_ivd` and
/// holds one.
pub open spec fn listing_in_scripts(scripts: Seq<String>, i: int) -> Option<Seq<char>>
    decreases scripts.len() - i,
{
    if i < 0 || i >= scripts.len() {
        None
    } else if find(scripts[i]@, "_DRIVE_ivd"@) is Some && listing_after_marker(
        js_strings_from(scripts[i]@, 0),
        0,
    ) is Some {
        listing_after_marker(js_strings_from(scripts[i]@, 0), 0)
    } else {
        listing_in_scripts(scripts, i + 1)
    }
}

/// The message reported when a folder page holds no listing.
pub open spec fn no_folder_information_message() -> Seq<char> {
    "Cannot retrieve the folder information from the link. You may need to change the permission to 'Anyone with the link', or have had many accesses."@
}

/// The encoded folder listing of a page, with the given wording of its errors: the
/// prefix of a selector error and the message for a page without a listing.
pub open spec fn drive_ivd_data_with(content: Seq<char>, selector: Seq<char>, no_listing: Seq<char>) -> Result<
    Seq<char>,
    (ErrorKind, Seq<char>),
> {
    match document_scripts(content) {
        Err(e) => Err((ErrorKind::Parse, selector + e)),
        Ok(scripts) => match listing_in_scripts(scripts, 0) {
            Some(c) => Ok(c),
            None => Err((ErrorKind::Parse, no_listing)),
        },
    }
}

/// The encoded folder listing of a page.
pub open spec fn drive_ivd_data(content: Seq<char>) -> Result<Seq<char>, (ErrorKind, Seq<char>)> {
    drive_ivd_data_with(content, "invalid selector: "@, no_folder_information_message())
}

fn is_listing(c: &Vec<char>) -> (b: bool)
    ensures
        b == is_listing_data(c@),
{
    let decoded = decode_unicode_escapes(string_from_chars(c.as_slice()).as_str());
    match parse_json(decoded.as_str()) {
        Ok(v) => match json_get(&v, 0) {
            Some(JsonValue::Array(_)) => true,
            _ => false,
        },
        Err(_) => false,
    }
}

fn listing_in(strings: &Vec<Vec<char>>) -> (r: Option<usize>)
    ensures
        r matches Some(k) ==> k < strings@.len() && listing_after_marker(
            strings@.map_values(|v: Vec<char>| v@),
            0,
        ) == Some(strings@[k as int]@),
        r is None ==> listing_after_marker(strings@.map_values(|v: Vec<char>| v@), 0) is None,
{
    let ghost sv = strings@.map_values(|v: Vec<char>| v@);
    let marker = chars_of("_DRIVE_ivd");
    let mut idx: usize = 0;
    while idx < strings.len()
        invariant
            idx <= strings@.len(),
            sv == strings@.map_values(|v: Vec<char>| v@),
            marker@ == "_DRIVE_ivd"@,
            listing_after_marker(sv, 0) == listing_after_marker(sv, idx as int),
        decreases strings.len() - idx,
    {
        if chars_equal(strings[idx].as_slice(), marker.as_slice()) {
            assert(sv[idx as int] == strings@[idx as int]@);
            let mut j = idx + 1;
            while j < strings.len()
                invariant
                    idx < j <= strings@.len(),
                    sv == strings@.map_values(|v: Vec<char>| v@),
                    sv[idx as int] == "_DRIVE_ivd"@,
                    listing_after_marker(sv, 0) == listing_after_marker(sv, idx as int),
                    first_listing_after(sv, idx + 1) == first_listing_after(sv, j as int),
                decreases strings.len() - j,
            {
                if is_listing(&strings[j]) {
                    assert(sv[j as int] == strings@[j as int]@);
                    return Some(j);
                }
                j = j + 1;
            }
        }
        idx = idx + 1;
    }
    None
}

/// The message `prefix` followed by `rest`.
fn message(prefix: &str, rest: &str) -> (r: String)
    ensures
        r@ == prefix@ + rest@,
{
    joined(prefix, chars_of(rest).as_slice())
}

/// Finds the encoded folder listing that follows `_DRIVE_ivd` in a page's scripts.
pub fn extract_drive_ivd(content: &str) -> (r: Result<String, Error>)
    ensures
        text_result(r) == drive_ivd_data(content@),
{
    extract_drive_ivd_with(
        content,
        "invalid selector: ",
        "Cannot retrieve the folder information from the link. You may need to change the permission to 'Anyone with the link', or have had many accesses.",
    )
}

fn extract_drive_ivd_with(content: &str, selector: &str, no_listing: &str) -> (r: Result<String, Error>)
    ensures
        text_result(r) == drive_ivd_data_with(content@, selector@, no_listing@),
{
    let scripts = match script_contents(content) {
        Ok(s) => s,
        Err(e) => {
            return Err(Error::Parse(message(selector, e.as_str())));
        },
    };
    let marker = chars_of("_DRIVE_ivd");
    let mut i: usize = 0;
    while i < scripts.len()
        invariant
            i <= scripts@.len(),
            marker@ == "_DRIVE_ivd"@,
            document_scripts(content@) == Ok::<Seq<String>, Seq<char>>(scripts@),
            listing_in_scripts(scripts@, 0) == listing_in_scripts(scripts@, i as int),
        decreases scripts.len() - i,
    {
        let inner = chars_of(scripts[i].as_str());
        if find_chars_from(inner.as_slice(), marker.as_slice(), 0).is_some() {
            let strings = js_strings(inner.as_slice());
            match listing_in(&strings) {
                Some(k) => {
                    return Ok(string_from_chars(strings[k].as_slice()));
                },
                None => {},
            }
        }
        i = i + 1;
    }
    Err(Error::Parse(no_listing.to_string()))
}

/// The entries of a folder listing: the first element of the document when it is
/// an array, otherwise none.
pub open spec fn listing_entries(doc: JsonValue) -> Seq<JsonValue> {
    match json_element(doc, 0) {
        Some(JsonValue::Array(items)) => items@,
        _ => seq![],
    }
}

/// The child that a listing entry describes: an array whose elements 0, 2 and 3
/// are strings (id, name, MIME type).
pub open spec fn entry_child(e: JsonValue) -> Option<(Seq<char>, Seq<char>, Seq<char>)> {
    match (json_element(e, 0), json_element(e, 2), json_element(e, 3)) {
        (Some(JsonValue::Str(id)), Some(JsonValue::Str(name)), Some(JsonValue::Str(mime))) => Some(
            (id@, name@, mime@),
        ),
        _ => None,
    }
}

/// The children that the entries describe, in order.
pub open spec fn entries_children(es: Seq<JsonValue>) -> Seq<(Seq<char>, Seq<char>, Seq<char>)>
    decreases es.len(),
{
    if es.len() == 0 {
        seq![]
    } else {
        let r = entries_children(es.drop_last());
        match entry_child(es.last()) {
            Some(c) => r.push(c),
            None => r,
        }
    }
}

/// The folder name in a page title: the text before the last `NBSP-NBSP`, or
/// else before the last ` - `.
pub open spec fn folder_name_from_title(t: Seq<char>) -> Option<Seq<char>> {
    match rfind(t, "\u{a0}-\u{a0}"@) {
        Some(p) => Some(t.take(p)),
        None => match rfind(t, " - "@) {
            Some(p) => Some(t.take(p)),
            None => None,
        },
    }
}

/// The folder ID of a folder URL: its last path segment when the URL parses and
/// that segment is not empty; otherwise the text after the last `/`, up to `?`.
pub open spec fn folder_id_from_url(url: Seq<char>) -> Seq<char> {
    let last = match parsed_url(url) {
        Ok(p) => match path_segments(p.path@) {
            Some(seg) => Some(seg.last()),
            None => None,
        },
        Err(_) => None,
    };
    match last {
        Some(s) if s.len() > 0 => s,
        _ => {
            let tail = match rfind(url, "/"@) {
                Some(i) => url.skip(i + 1),
                None => url,
            };
            tail.take(first_stop(tail, 0, '?'))
        },
    }
}

/// The text of the errors that reading a folder page reports: the prefix of a
/// selector error, the message for a page without a listing, and the prefix of
/// the message for a title without a folder name.
pub struct PageWording {
    pub selector: Seq<char>,
    pub no_listing: Seq<char>,
    pub no_name: Seq<char>,
}

/// The wording of [`parse_folder_page`].
pub open spec fn folder_page_wording() -> PageWording {
    PageWording {
        selector: "invalid selector: "@,
        no_listing: no_folder_information_message(),
        no_name: "folder name cannot be extracted from: "@,
    }
}

/// What parsing a folder page yields: its ID, its name from the title, and its
/// children from the embedded listing.
pub open spec fn folder_page(url: Seq<char>, content: Seq<char>) -> Result<
    (Seq<char>, Seq<char>, Seq<(Seq<char>, Seq<char>, Seq<char>)>),
    (ErrorKind, Seq<char>),
> {
    folder_page_with(url, content, folder_page_wording())
}

/// What parsing a folder page yields, with the errors worded by `w`.
pub open spec fn folder_page_with(url: Seq<char>, content: Seq<char>, w: PageWording) -> Result<
    (Seq<char>, Seq<char>, Seq<(Seq<char>, Seq<char>, Seq<char>)>),
    (ErrorKind, Seq<char>),
> {
    match drive_ivd_data_with(content, w.selector, w.no_listing) {
        Err(e) => Err(e),
        Ok(data) => match json_document(decoded_escapes(data)) {
            None => Err((ErrorKind::Json, Seq::empty())),
            Some(doc) => match document_title(content) {
                Err(e) => Err((ErrorKind::Parse, w.selector + e)),
                Ok(title) => {
                    let t = match title {
                        Some(t) => t,
                        None => Seq::<char>::empty(),
                    };
                    match folder_name_from_title(t) {
                        None => Err((ErrorKind::Parse, w.no_name + t)),
                        Some(name) => Ok(
                            (
                                folder_id_from_url(url),
                                name,
                                entries_children(listing_entries(doc)),
                            ),
                        ),
                    }
                },
            },
        },
    }
}

fn children_from(entries: &Vec<JsonValue>) -> (r: Vec<FolderChild>)
    ensures
        r@.map_values(|c: FolderChild| child_view(c)) == entries_children(entries@),
{
    let mut r: Vec<FolderChild> = Vec::new();
    let mut i: usize = 0;
    while i < entries.len()
        invariant
            i <= entries@.len(),
            r@.map_values(|c: FolderChild| child_view(c)) == entries_children(entries@.take(i as int)),
        decreases entries.len() - i,
    {
        assert(entries@.take(i + 1).drop_last() =~= entries@.take(i as int));
        assert(entries@.take(i + 1).last() == entries@[i as int]);
        let e = &entries[i];
        let ghost before = r@.map_values(|c: FolderChild| child_view(c));
        match (json_get(e, 0), json_get(e, 2), json_get(e, 3)) {
            (Some(a), Some(b), Some(c)) => match (json_as_str(a), json_as_str(b), json_as_str(c)) {
                (Some(id), Some(name), Some(mime)) => {
                    let child = FolderChild { id: id.clone(), name: name.clone(), mime_type: mime.clone() };
                    r.push(child);
                    assert(r@.map_values(|c: FolderChild| child_view(c)) =~= before.push(
                        (id@, name@, mime@),
                    ));
                },
                _ => {},
            },
            _ => {},
        }
        i = i + 1;
    }
    assert(entries@.take(entries@.len() as int) =~= entries@);
    r
}

fn folder_id_of(url: &str) -> (r: String)
    ensures
        r@ == folder_id_from_url(url@),
{
    let from_parse: Option<Vec<char>> = match parse_url_parts(url) {
        Ok(p) => {
            let path = chars_of(p.path.as_str());
            if path.len() > 0 && path[0] == '/' {
                let rest = slice_chars(path.as_slice(), 1, path.len());
                assert(rest@ =~= path@.drop_first());
                let seg = split_chars(rest.as_slice(), '/');
                let ghost sv = seg@.map_values(|v: Vec<char>| v@);
                if seg.len() > 0 {
                    let k = seg.len() - 1;
                    assert(sv.last() == seg@[k as int]@);
                    Some(slice_chars(seg[k].as_slice(), 0, seg[k].len()))
                } else {
                    assert(false) by {
                        assert(split_on(rest@, '/').len() > 0);
                    }
                    None
                }
            } else {
                None
            }
        },
        Err(_) => None,
    };
    match from_parse {
        Some(v) => if v.len() > 0 {
            assert(v@ =~= v@.subrange(0, v@.len() as int));
            return string_from_chars(v.as_slice());
        },
        None => {},
    }
    let u = chars_of(url);
    let un = u.len();
    let slash = chars_of("/");
    let tail = match rfind_chars(u.as_slice(), slash.as_slice()) {
        Some(i) => {
            proof {
                reveal_strlit("/");
                lemma_rfind_occurs(u@, slash@);
            }
            let t = slice_chars(u.as_slice(), i + 1, u.len());
            assert(t@ =~= u@.skip(i + 1));
            t
        },
        None => u,
    };
    let q = first_stop_chars(tail.as_slice(), '?');
    let id = slice_chars(tail.as_slice(), 0, q);
    assert(id@ =~= tail@.take(q as int));
    string_from_chars(id.as_slice())
}

pub proof fn lemma_rfind_occurs(s: Seq<char>, p: Seq<char>)
    ensures
        rfind(s, p) matches Some(i) ==> occurs_at(s, i, p) && 0 <= i,
{
    lemma_rfind_before_occurs(s, p, s.len() + 1int);
}

proof fn lemma_rfind_before_occurs(s: Seq<char>, p: Seq<char>, end: int)
    ensures
        crate::text::rfind_before(s, p, end) matches Some(i) ==> occurs_at(s, i, p) && 0 <= i,
    decreases end,
{
    if end > 0 && !occurs_at(s, end - 1, p) {
        lemma_rfind_before_occurs(s, p, end - 1);
    }
}

/// Parses a Google Drive folder page: the folder's ID from its URL, its name from
/// the page title, and its direct children from the embedded listing.
pub fn parse_folder_page(url: &str, content: &str) -> (r: Result<ParsedFolderPage, Error>)
    ensures
        match r {
            Ok(p) => folder_page(url@, content@) == Ok::<
                (Seq<char>, Seq<char>, Seq<(Seq<char>, Seq<char>, Seq<char>)>),
                (ErrorKind, Seq<char>),
            >(page_view(p)),
            Err(e) => folder_page(url@, content@) == Err::<
                (Seq<char>, Seq<char>, Seq<(Seq<char>, Seq<char>, Seq<char>)>),
                (ErrorKind, Seq<char>),
            >((e.kind(), e.message())),
        },
{
    read_folder_page(
        url,
        content,
        "invalid selector: ",
        "Cannot retrieve the folder information from the link. You may need to change the permission to 'Anyone with the link', or have had many accesses.",
        "folder name cannot be extracted from: ",
    )
}

/// Reads a folder page as [`parse_folder_page`] does, with the errors worded by
/// the given selector prefix, missing-listing message and missing-name prefix.
pub(crate) fn read_folder_page(
    url: &str,
    content: &str,
    selector: &str,
    no_listing: &str,
    no_name: &str,
) -> (r: Result<ParsedFolderPage, Error>)
    ensures
        match r {
            Ok(p) => folder_page_with(
                url@,
                content@,
                PageWording { selector: selector@, no_listing: no_listing@, no_name: no_name@ },
            ) == Ok::<
                (Seq<char>, Seq<char>, Seq<(Seq<char>, Seq<char>, Seq<char>)>),
                (ErrorKind, Seq<char>),
            >(page_view(p)),
            Err(e) => folder_page_with(
                url@,
                content@,
                PageWording { selector: selector@, no_listing: no_listing@, no_name: no_name@ },
            ) == Err::<
                (Seq<char>, Seq<char>, Seq<(Seq<char>, Seq<char>, Seq<char>)>),
                (ErrorKind, Seq<char>),
            >((e.kind(), e.message())),
        },
{
    let encoded = extract_drive_ivd_with(content, selector, no_listing)?;
    let decoded = decode_unicode_escapes(encoded.as_str());
    let doc = match parse_json(decoded.as_str()) {
        Ok(v) => v,
        Err(e) => {
            return Err(Error::Json(e));
        },
    };
    let title = match title_text(content) {
        Ok(t) => match t {
            Some(t) => chars_of(t.as_str()),
            None => Vec::new(),
        },
        Err(e) => {
            return Err(Error::Parse(message(selector, e.as_str())));
        },
    };
    let sep = chars_of("\u{a0}-\u{a0}");
    let dash = chars_of(" - ");
    let name = match rfind_chars(title.as_slice(), sep.as_slice()) {
        Some(pos) => {
            proof {
                lemma_rfind_occurs(title@, sep@);
            }
            slice_chars(title.as_slice(), 0, pos)
        },
        None => match rfind_chars(title.as_slice(), dash.as_slice()) {
            Some(pos) => {
                proof {
                    lemma_rfind_occurs(title@, dash@);
                }
                slice_chars(title.as_slice(), 0, pos)
            },
            None => {
                return Err(Error::Parse(joined(no_name, title.as_slice())));
            },
        },
    };
    let folder_id = folder_id_of(url);
    let children = match json_get(&doc, 0) {
        Some(JsonValue::Array(items)) => children_from(items),
        _ => {
            assert(entries_children(Seq::<JsonValue>::empty()) =~= Seq::<(Seq<char>, Seq<char>, Seq<char>)>::empty());
            Vec::new()
        },
    };
    let page = ParsedFolderPage { folder_id, folder_name: string_from_chars(name.as_slice()), children };
    assert(page_view(page).2 =~= entries_children(listing_entries(doc)));
    Ok(page)
}

proof fn lemma_without_bare_t_has_no_t(ts: Seq<Seq<char>>)
    ensures
        forall|i: int| 0 <= i < without_bare_t(ts).len() ==> without_bare_t(ts)[i] != seq!['t'],
    decreases ts.len(),
{
    if ts.len() > 0 {
        lemma_without_bare_t_has_no_t(ts.drop_last());
        let r = without_bare_t(ts.drop_last());
        if ts.last() != seq!['t'] {
            let w = r.push(ts.last());
            assert forall|i: int| 0 <= i < w.len() implies w[i] != seq!['t'] by {
                if i < r.len() {
                    assert(w[i] == r[i]);
                }
            }
        }
    }
}

proof fn lemma_last_longest_member(ts: Seq<Seq<char>>)
    ensures
        last_longest(ts) matches Some(x) ==> exists|i: int| 0 <= i < ts.len() && ts[i] == x,
    decreases ts.len(),
{
    if ts.len() > 0 {
        lemma_last_longest_member(ts.drop_last());
        let d = ts.drop_last();
        if let Some(b) = last_longest(d) {
            let i = choose|i: int| 0 <= i < d.len() && d[i] == b;
            assert(ts[i] == b);
        }
        assert(ts[ts.len() - 1] == ts.last());
    }
}

/// `ts[i]` is the last of the longest strings of `ts`, lengths counted in
/// UTF-8 bytes: none is longer, and every one after it is shorter.
pub open spec fn is_last_longest_at(ts: Seq<Seq<char>>, i: int) -> bool {
    &&& 0 <= i < ts.len()
    &&& forall|j: int| 0 <= j < ts.len() ==> utf8_len(#[trigger] ts[j]) <= utf8_len(ts[i])
    &&& forall|j: int| i < j < ts.len() ==> utf8_len(#[trigger] ts[j]) < utf8_len(ts[i])
}

/// The choice among confirmation tokens keeps one of them, the longest in
/// UTF-8 bytes, the last one among equally long ones; there is none only when
/// there are no tokens.
pub proof fn lemma_last_longest_choice(ts: Seq<Seq<char>>)
    ensures
        last_longest(ts) is None <==> ts.len() == 0,
        last_longest(ts) matches Some(x) ==> exists|i: int| #[trigger]
            is_last_longest_at(ts, i) && ts[i] == x,
    decreases ts.len(),
{
    if ts.len() > 0 {
        let d = ts.drop_last();
        let n = ts.len() - 1;
        lemma_last_longest_choice(d);
        assert forall|j: int| 0 <= j < n implies ts[j] == d[j] by {}
        match last_longest(d) {
            None => {
                assert(is_last_longest_at(ts, n));
            },
            Some(b) => {
                let k = choose|i: int| #[trigger] is_last_longest_at(d, i) && d[i] == b;
                assert(ts[k] == d[k]);
                if utf8_len(ts.last()) >= utf8_len(b) {
                    assert forall|j: int| 0 <= j < ts.len() implies utf8_len(#[trigger] ts[j])
                        <= utf8_len(ts[n]) by {
                        if j < n {
                            assert(utf8_len(d[j]) <= utf8_len(d[k]));
                        }
                    }
                    assert(is_last_longest_at(ts, n));
                } else {
                    assert forall|j: int| 0 <= j < ts.len() implies utf8_len(#[trigger] ts[j])
                        <= utf8_len(ts[k]) by {
                        if j < n {
                            assert(utf8_len(d[j]) <= utf8_len(d[k]));
                        }
                    }
                    assert forall|j: int| k < j < ts.len() implies utf8_len(#[trigger] ts[j])
                        < utf8_len(ts[k]) by {
                        if j < n {
                            assert(utf8_len(d[j]) < utf8_len(d[k]));
                        }
                    }
                    assert(is_last_longest_at(ts, k));
                }
            },
        }
    }
}

/// The confirmation token read from a page is never the placeholder `t`.
pub proof fn lemma_html_token_not_placeholder(html: Seq<char>)
    ensures
        html_confirm_token(html) != Some(seq!['t']),
{
    let ts = without_bare_t(confirm_tokens_from(replace_all(html, "&amp;"@, "&"@), 0));
    lemma_without_bare_t_has_no_t(confirm_tokens_from(replace_all(html, "&amp;"@, "&"@), 0));
    lemma_last_longest_member(ts);
}

/// A URL that is not a Google Drive URL names no Google Drive file.
pub proof fn lemma_other_hosts_have_no_file_id(url: Seq<char>)
    requires
        !url_is_google_drive(url),
    ensures
        drive_file_id(url) is None,
{
}

proof fn lemma_rfind_before_last(s: Seq<char>, p: Seq<char>, i: int, end: int)
    requires
        occurs_at(s, i, p),
        i < end,
        forall|j: int| i < j < end ==> !occurs_at(s, j, p),
    ensures
        crate::text::rfind_before(s, p, end) == Some(i),
    decreases end,
{
    if end - 1 > i {
        lemma_rfind_before_last(s, p, i, end - 1);
    }
}

/// `str::rfind` finds the last occurrence.
pub proof fn lemma_rfind_last(s: Seq<char>, p: Seq<char>, i: int)
    requires
        occurs_at(s, i, p),
        forall|j: int| i < j ==> !occurs_at(s, j, p),
    ensures
        rfind(s, p) == Some(i),
{
    lemma_rfind_before_last(s, p, i, s.len() + 1int);
}

/// The name read from a folder page's title is the title up to its last ` - `
/// (when the title holds no `NBSP-NBSP`), however many ` - ` the name itself
/// holds.
pub proof fn lemma_folder_name_last_separator(t: Seq<char>, i: int)
    requires
        forall|j: int| !occurs_at(t, j, "\u{a0}-\u{a0}"@),
        occurs_at(t, i, " - "@),
        forall|j: int| i < j ==> !occurs_at(t, j, " - "@),
    ensures
        folder_name_from_title(t) == Some(t.take(i)),
{
    lemma_rfind_last(t, " - "@, i);
    if let Some(q) = rfind(t, "\u{a0}-\u{a0}"@) {
        lemma_rfind_occurs(t, "\u{a0}-\u{a0}"@);
        assert(occurs_at(t, q, "\u{a0}-\u{a0}"@));
    }
}

/// The other cases of the folder name in a title: a title holding `NBSP-NBSP`
/// is cut at the last of them, and a title holding neither separator names no
/// folder.
pub proof fn lemma_folder_name_other_separators(t: Seq<char>, i: int)
    ensures
        occurs_at(t, i, "\u{a0}-\u{a0}"@) && (forall|j: int| i < j ==> !occurs_at(
            t,
            j,
            "\u{a0}-\u{a0}"@,
        )) ==> folder_name_from_title(t) == Some(t.take(i)),
        (forall|j: int| !occurs_at(t, j, "\u{a0}-\u{a0}"@)) && (forall|j: int| !occurs_at(
            t,
            j,
            " - "@,
        )) ==> folder_name_from_title(t) is None,
{
    if occurs_at(t, i, "\u{a0}-\u{a0}"@) && (forall|j: int| i < j ==> !occurs_at(
        t,
        j,
        "\u{a0}-\u{a0}"@,
    )) {
        lemma_rfind_last(t, "\u{a0}-\u{a0}"@, i);
    }
    lemma_rfind_occurs(t, "\u{a0}-\u{a0}"@);
    lemma_rfind_occurs(t, " - "@);
}

/// A folder page titled `NAME - Google Drive` (with no `NBSP-NBSP` in it) names
/// the folder `NAME`, whatever ` - ` `NAME` holds: parsing the page, when it
/// succeeds, gives the folder that name.
pub proof fn lemma_folder_page_name(url: Seq<char>, content: Seq<char>, w: PageWording, name: Seq<char>)
    requires
        document_title(content) == Ok::<Option<Seq<char>>, Seq<char>>(Some(name + " - Google Drive"@)),
        forall|j: int| !occurs_at(name + " - Google Drive"@, j, "\u{a0}-\u{a0}"@),
    ensures
        folder_name_from_title(name + " - Google Drive"@) == Some(name),
        folder_page_with(url, content, w) matches Ok(r) ==> r.1 == name,
{
    let sfx = " - Google Drive"@;
    let t = name + sfx;
    let n = name.len() as int;
    reveal_strlit(" - Google Drive");
    reveal_strlit(" - ");
    assert(t.subrange(n, n + 3) =~= " - "@);
    assert forall|j: int| n < j implies !occurs_at(t, j, " - "@) by {
        if occurs_at(t, j, " - "@) {
            assert(t.subrange(j, j + 3)[0] == t[j]);
            assert(t.subrange(j, j + 3)[1] == t[j + 1]);
            assert(t[j] == sfx[j - n]);
            assert(t[j + 1] == sfx[j + 1 - n]);
        }
    }
    lemma_folder_name_last_separator(t, n);
    assert(t.take(n) =~= name);
}

/// The file ID in a Google URL path: `KIND/d/ID/ACTION/...` (or
/// `KIND/u/USER/d/ID/ACTION/...`) names the file `ID` exactly when `KIND` and
/// `ACTION` are in this table: `document`, `presentation` or `spreadsheets` with
/// `edit`, `htmlview` or `view`, and `file` with `edit` or `view`; so a Google Drive URL
/// with such a path and no `id` query value names that file.
pub proof fn lemma_file_id_by_path(
    kind: Seq<char>,
    user: Seq<char>,
    id: Seq<char>,
    action: Seq<char>,
    rest: Seq<Seq<char>>,
    url: Seq<char>,
)
    ensures
        file_id_from_segments(seq![kind, "d"@, id, action] + rest) == (if (kind == "document"@
            || kind == "presentation"@ || kind == "spreadsheets"@) && (action == "edit"@
            || action == "htmlview"@ || action == "view"@) || kind == "file"@ && (action
            == "edit"@ || action == "view"@) {
            Some(id)
        } else {
            None
        }),
        file_id_from_segments(seq![kind, "u"@, user, "d"@, id, action] + rest) == (if (kind
            == "document"@ || kind == "presentation"@ || kind == "spreadsheets"@) && (action
            == "edit"@ || action == "htmlview"@ || action == "view"@) || kind == "file"@ && (action
            == "edit"@ || action == "view"@) {
            Some(id)
        } else {
            None
        }),
        ((kind == "document"@ || kind == "presentation"@ || kind == "spreadsheets"@) && (action
            == "edit"@ || action == "htmlview"@ || action == "view"@) || kind == "file"@ && (action
            == "edit"@ || action == "view"@)) && url_is_google_drive(url) ==> (parsed_url(
            url,
        ) matches Ok(p) && query_values(p.query@, "id"@).len() == 0 && path_segments(p.path@)
            == Some(seq![kind, "d"@, id, action] + rest) ==> drive_file_id(url) == Some(id)),
{
    reveal_strlit("d");
    reveal_strlit("u");
    reveal_strlit("file");
    reveal_strlit("document");
    reveal_strlit("presentation");
    reveal_strlit("spreadsheets");
    reveal_strlit("edit");
    reveal_strlit("view");
    reveal_strlit("htmlview");
    let a = seq![kind, "d"@, id, action] + rest;
    let b = seq![kind, "u"@, user, "d"@, id, action] + rest;
    assert(a[0] == kind && a[1] == "d"@ && a[2] == id && a[3] == action);
    assert(b[0] == kind && b[1] == "u"@ && b[2] == user && b[3] == "d"@ && b[4] == id && b[5]
        == action);
    assert("d"@ != "u"@) by {
        assert("d"@[0] != "u"@[0]);
    }
}

} // verus!
