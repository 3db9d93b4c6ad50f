//! HTML queries delegated to the `scraper` crate.
use vstd::prelude::*;

verus! {

/// The `#download-form` element of a confirmation page: its `action` attribute and
/// the `(name, value)` attributes of the hidden inputs it selects.
#[derive(Clone, Debug)]
pub struct DownloadForm {
    pub action: Option<String>,
    pub inputs: Vec<(Option<String>, Option<String>)>,
}

/// What `scraper` finds for the first `#download-form` of `doc` parsed as a
/// document, with the hidden inputs inside it (`Err` carries a selector error).
pub uninterp spec fn document_download_form(doc: Seq<char>) -> Result<Option<DownloadForm>, Seq<char>>;

/// Parses `doc` with `Html::parse_document`, selects the first `#download-form`,
/// and reads its `action` and the `name`/`value` of its `input[type="hidden"]`
/// descendants.
///
/// Trusted: the result is the named [`document_download_form`].
#[verifier::external_body]
pub fn find_download_form(doc: &str) -> (r: Result<Option<DownloadForm>, String>)
    ensures
        match r {
            Ok(f) => document_download_form(doc@) == Ok::<Option<DownloadForm>, Seq<char>>(f),
            Err(e) => document_download_form(doc@) == Err::<Option<DownloadForm>, Seq<char>>(e@),
        },
{
    let form_sel = scraper::Selector::parse("#download-form").map_err(|e| e.to_string())?;
    let input_sel = scraper::Selector::parse(r#"input[type="hidden"]"#).map_err(|e| e.to_string())?;
    let document = scraper::Html::parse_document(doc);
    Ok(document.select(&form_sel).next().map(|form| DownloadForm {
        action: form.value().attr("action").map(|a| a.to_string()),
        inputs: form.select(&input_sel).map(|i| (
            i.value().attr("name").map(|n| n.to_string()),
            i.value().attr("value").map(|v| v.to_string()),
        )).collect(),
    }))
}

/// What `scraper` finds when `fragment` is parsed as a fragment: the `action` of
/// the first `#download-form`, with every hidden input of the fragment.
pub uninterp spec fn fragment_download_form(fragment: Seq<char>) -> Option<DownloadForm>;

/// Parses `fragment` with `Html::parse_fragment`, selects the first
/// `#download-form` and reads its `action`, and reads the `name`/`value` of every
/// `input[type="hidden"]` of the fragment.
///
/// Trusted: the result is the named [`fragment_download_form`]; the two selectors
/// are fixed and valid, so their parse is not reported.
#[verifier::external_body]
pub fn find_fragment_download_form(fragment: &str) -> (r: Option<DownloadForm>)
    ensures
        r == fragment_download_form(fragment@),
{
    let form_sel = scraper::Selector::parse("#download-form").ok()?;
    let input_sel = scraper::Selector::parse(r#"input[type="hidden"]"#).ok()?;
    let document = scraper::Html::parse_fragment(fragment);
    let form = document.select(&form_sel).next()?;
    Some(DownloadForm {
        action: form.value().attr("action").map(|a| a.to_string()),
        inputs: document.select(&input_sel).map(|i| (
            i.value().attr("name").map(|n| n.to_string()),
            i.value().attr("value").map(|v| v.to_string()),
        )).collect(),
    })
}

/// The inner HTML of every `script` element of `doc` parsed as a document, in
/// the order in which `Html::select` walks the parsed tree's nodes (the order
/// the parser created them in; `Err` carries a selector error).
pub uninterp spec fn document_scripts(doc: Seq<char>) -> Result<Seq<String>, Seq<char>>;

/// Parses `doc` with `Html::parse_document` and returns `inner_html()` of each
/// element that the selector `script` selects.
///
/// Trusted: the result is the named [`document_scripts`].
#[verifier::external_body]
pub fn script_contents(doc: &str) -> (r: Result<Vec<String>, String>)
    ensures
        match r {
            Ok(v) => document_scripts(doc@) == Ok::<Seq<String>, Seq<char>>(v@),
            Err(e) => document_scripts(doc@) == Err::<Seq<String>, Seq<char>>(e@),
        },
{
    let sel = scraper::Selector::parse("script").map_err(|e| e.to_string())?;
    let document = scraper::Html::parse_document(doc);
    Ok(document.select(&sel).map(|s| s.inner_html()).collect())
}

/// The text of the first `title` element of `doc` parsed as a document, its text
/// nodes concatenated (`Err` carries a selector error).
pub uninterp spec fn document_title(doc: Seq<char>) -> Result<Option<Seq<char>>, Seq<char>>;

/// Parses `doc` with `Html::parse_document` and concatenates the text of the first
/// element that the selector `title` selects.
///
/// Trusted: the result is the named [`document_title`].
#[verifier::external_body]
pub fn title_text(doc: &str) -> (r: Result<Option<String>, String>)
    ensures
        match r {
            Ok(Some(t)) => document_title(doc@) == Ok::<Option<Seq<char>>, Seq<char>>(Some(t@)),
            Ok(None) => document_title(doc@) == Ok::<Option<Seq<char>>, Seq<char>>(None),
            Err(e) => document_title(doc@) == Err::<Option<Seq<char>>, Seq<char>>(e@),
        },
{
    let sel = scraper::Selector::parse("title").map_err(|e| e.to_string())?;
    let document = scraper::Html::parse_document(doc);
    Ok(document.select(&sel).next().map(|t| t.text().collect::<String>()))
}

} // verus!
