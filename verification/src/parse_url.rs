//! URL classification in the tuple form: `(file_id, is_download_link)`.
use vstd::prelude::*;

use crate::parse::{drive_download_link, drive_file_id, option_text, url_is_google_drive};

verus! {

/// Checks whether a URL points at Google Drive (`drive.google.com`) or Google
/// Docs (`docs.google.com`).
pub fn is_google_drive_url(url_str: &str) -> (b: bool)
    ensures
        b == url_is_google_drive(url_str@),
{
    crate::parse::is_google_drive_url(url_str)
}

/// Parses URLs, especially Google Drive links.
///
/// Returns `(file_id, is_download_link)`: the Google Drive file ID (none for
/// other hosts, for URLs that do not parse, or when the URL names no single ID),
/// and whether the URL's path ends with `/uc`. `warning` asks for a notice about
/// a Drive link that is not a direct download link; it does not change the result.
pub fn parse_url(url_str: &str, warning: bool) -> (r: (Option<String>, bool))
    ensures
        option_text(r.0) == drive_file_id(url_str@),
        r.1 == drive_download_link(url_str@),
{
    let p = crate::parse::parse_url(url_str);
    (p.file_id, p.is_download_link)
}

} // verus!
