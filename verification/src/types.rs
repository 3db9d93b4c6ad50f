//! Shared helpers for download options.
use vstd::prelude::*;

use crate::error::Error;

verus! {

/// Callback for reporting download progress.
///
/// Implement this trait to receive progress updates during downloads.
pub trait Progress: Send + Sync {
    /// Reports the cumulative byte position after a response chunk is written.
    ///
    /// `downloaded` includes any resume offset; `total` is the expected final
    /// size in bytes when the server provides enough information to compute it.
    fn on_progress(&self, downloaded: u64, total: Option<u64>);

    /// Reports that the response body was written and flushed successfully.
    fn on_finish(&self);
}

/// The message of the error for a URL-or-ID pair that is not exactly one of them.
pub open spec fn url_or_id_message() -> Seq<char> {
    "exactly one of url or id must be specified"@
}

/// Resolves a URL-or-ID pair into a single URL.
///
/// Exactly one of `url` and `id` must be `Some`. `base_url_fn` turns an ID into
/// a full URL and is not called when `url` is supplied.
///
/// # Errors
///
/// Returns [`Error::InvalidInput`] if both or neither of `url` / `id` are given.
pub fn resolve_url_or_id(
    url: &Option<String>,
    id: &Option<String>,
    base_url_fn: impl FnOnce(&String) -> String,
) -> (r: Result<String, Error>)
    requires
        forall|s: &String| #[trigger] call_requires(base_url_fn, (s,)),
    ensures
        (id is Some && url is None) ==> r is Ok,
        (id is Some && url is None) ==> call_ensures(base_url_fn, (&id->0,), r->Ok_0),
        (id is None && url is Some) ==> (r matches Ok(v) && v@ == url->0@),
        (id is Some) == (url is Some) ==> (r matches Err(e) && e.kind()
            == crate::error::ErrorKind::InvalidInput && e.message() == url_or_id_message()),
{
    match (id, url) {
        (Some(i), None) => {
            let v = base_url_fn(i);
            Ok(v)
        },
        (None, Some(u)) => Ok(u.clone()),
        _ => Err(Error::InvalidInput("exactly one of url or id must be specified".to_string())),
    }
}

/// Whether a command-line source is a URL (`http://` or `https://`) rather than
/// a Google Drive ID.
pub open spec fn is_http_url(s: Seq<char>) -> bool {
    crate::text::starts_with(s, "http://"@) || crate::text::starts_with(s, "https://"@)
}

/// Splits a command-line source into `(url, id)`: a URL when it starts with
/// `http://` or `https://`, otherwise a Google Drive ID.
pub fn split_url_or_id(source: &str) -> (r: (Option<String>, Option<String>))
    ensures
        is_http_url(source@) ==> (r.0 matches Some(u) && u@ == source@ && r.1 is None),
        !is_http_url(source@) ==> (r.1 matches Some(i) && i@ == source@ && r.0 is None),
{
    let v = crate::text::chars_of(source);
    if crate::text::has_prefix(v.as_slice(), crate::text::chars_of("http://").as_slice())
        || crate::text::has_prefix(v.as_slice(), crate::text::chars_of("https://").as_slice()) {
        (Some(source.to_string()), None)
    } else {
        (None, Some(source.to_string()))
    }
}

} // verus!
