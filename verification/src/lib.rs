//! Verified core of a downloader for public Google Drive files and folders.
//!
//! The modules here hold the parsing, naming and decision logic; network and
//! filesystem work is driven from outside through the step functions they
//! expose.
use vstd::prelude::*;

pub mod cached_download;
pub mod client;
pub mod confirm;
pub mod download;
pub mod download_folder;
pub mod error;
pub mod escapes;
pub mod extract;
pub mod html;
pub mod json;
pub mod parse;
pub mod parse_url;
pub mod patterns;
pub mod text;
pub mod types;
pub mod urls;

verus! {

} // verus!
