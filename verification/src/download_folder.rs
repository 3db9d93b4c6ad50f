//! Google Drive folders: listing entries, the per-folder listing cache, path
//! resolution, recursive walks, and the plan of a folder download.
//!
//! Network and filesystem work stays with the caller, which feeds each folder
//! listing it fetches into the step functions here.
use vstd::prelude::*;

use crate::error::{Error, ErrorKind};
use crate::parse::{
    child_view, folder_page_with, path_segments, query_first, query_first_of,
    read_folder_page, split_chars, split_on, url_is_google_drive, FolderChild, PageWording,
};
use crate::text::{
    cat, chars_equal, chars_of, decimal_digits, decimal_text, find, find_chars_from,
    joined, replace_all, replace_chars, slice_chars, string_from_chars,
};
use crate::urls::{parse_url_parts, parsed_url};

verus! {

/// The MIME type of Google Drive folders.
pub open spec fn folder_mime() -> Seq<char> {
    "application/vnd.google-apps.folder"@
}

/// The number of files at which a folder download stops unless told otherwise.
pub const MAX_FILES: usize = 50;

/// The number of files at which a folder download is refused unless
/// `remaining_ok` is set.
pub const MAX_NUMBER_FILES: usize = 50;

fn is_folder_mime(m: &String) -> (b: bool)
    ensures
        b == (m@ == folder_mime()),
{
    let v = chars_of(m.as_str());
    let f = chars_of("application/vnd.google-apps.folder");
    chars_equal(v.as_slice(), f.as_slice())
}

/// An entry in a Google Drive folder listing.
#[derive(Debug, Clone)]
pub struct DirEntry {
    /// Google Drive identifier used for follow-up listings or downloads.
    pub id: String,
    /// Display name reported by Google Drive.
    pub name: String,
    /// MIME type reported by Google Drive.
    pub mime_type: String,
}

/// A listing entry as `(id, name, MIME type)`.
pub open spec fn entry_view(e: DirEntry) -> (Seq<char>, Seq<char>, Seq<char>) {
    (e.id@, e.name@, e.mime_type@)
}

/// A listing as a sequence of `(id, name, MIME type)`.
pub open spec fn entries_view(es: Seq<DirEntry>) -> Seq<(Seq<char>, Seq<char>, Seq<char>)> {
    es.map_values(|e: DirEntry| entry_view(e))
}

/// Whether an entry seen as `(id, name, MIME type)` is a folder.
pub open spec fn is_folder_view(e: (Seq<char>, Seq<char>, Seq<char>)) -> bool {
    e.2 == folder_mime()
}

impl DirEntry {
    /// Returns whether this entry represents a Google Drive folder.
    pub fn is_folder(&self) -> (b: bool)
        ensures
            b == is_folder_view(entry_view(*self)),
    {
        is_folder_mime(&self.mime_type)
    }
}

impl From<FolderChild> for DirEntry {
    fn from(c: FolderChild) -> (e: DirEntry) {
        DirEntry { id: c.id, name: c.name, mime_type: c.mime_type }
    }
}

impl vstd::std_specs::convert::FromSpecImpl<FolderChild> for DirEntry {
    open spec fn obeys_from_spec() -> bool {
        true
    }

    open spec fn from_spec(c: FolderChild) -> DirEntry {
        DirEntry { id: c.id, name: c.name, mime_type: c.mime_type }
    }
}

fn copy_entry(e: &DirEntry) -> (r: DirEntry)
    ensures
        entry_view(r) == entry_view(*e),
{
    DirEntry { id: e.id.clone(), name: e.name.clone(), mime_type: e.mime_type.clone() }
}

fn copy_entries(es: &Vec<DirEntry>) -> (r: Vec<DirEntry>)
    ensures
        entries_view(r@) == entries_view(es@),
{
    let mut r: Vec<DirEntry> = Vec::new();
    let mut i: usize = 0;
    while i < es.len()
        invariant
            i <= es@.len(),
            entries_view(r@) == entries_view(es@.take(i as int)),
        decreases es.len() - i,
    {
        let ghost before = r@;
        let e = copy_entry(&es[i]);
        r.push(e);
        assert(es@.take(i + 1) =~= es@.take(i as int).push(es@[i as int]));
        assert(entries_view(r@) =~= entries_view(before).push(entry_view(e)));
        assert(entries_view(es@.take(i + 1)) =~= entries_view(es@.take(i as int)).push(
            entry_view(es@[i as int]),
        ));
        i = i + 1;
    }
    assert(es@.take(es@.len() as int) =~= es@);
    r
}

/// A flat entry with its full relative path, as a recursive listing reports it.
#[derive(Debug, Clone)]
pub struct FlatEntry {
    /// Google Drive identifier used for downloads or child listings.
    pub id: String,
    /// Slash-separated path relative to the opened folder.
    pub path: String,
    /// Whether the entry is a folder rather than a downloadable file.
    pub is_folder: bool,
}

/// A flat entry as `(id, path, is folder)`.
pub open spec fn flat_view(f: FlatEntry) -> (Seq<char>, Seq<char>, bool) {
    (f.id@, f.path@, f.is_folder)
}

/// Flat entries as a sequence of `(id, path, is folder)`.
pub open spec fn flats_view(fs: Seq<FlatEntry>) -> Seq<(Seq<char>, Seq<char>, bool)> {
    fs.map_values(|f: FlatEntry| flat_view(f))
}

// ── The listing cache ───────────────────────────────────────────────

/// The index of the first pair of `s`, from `j` on, whose key is `k`.
pub open spec fn key_index_from(s: Seq<(String, Vec<DirEntry>)>, k: Seq<char>, j: int) -> Option<
    int,
>
    decreases s.len() - j,
{
    if j < 0 || j >= s.len() {
        None
    } else if s[j].0@ == k {
        Some(j)
    } else {
        key_index_from(s, k, j + 1)
    }
}

/// The listings that the pairs of `s` record: for each key, those of its first pair.
pub open spec fn listing_map(s: Seq<(String, Vec<DirEntry>)>) -> Map<
    Seq<char>,
    Seq<(Seq<char>, Seq<char>, Seq<char>)>,
> {
    Map::new(
        |k: Seq<char>| key_index_from(s, k, 0) is Some,
        |k: Seq<char>| entries_view(s[key_index_from(s, k, 0).unwrap()].1@),
    )
}

proof fn lemma_key_index_bounds(s: Seq<(String, Vec<DirEntry>)>, k: Seq<char>, j: int)
    ensures
        key_index_from(s, k, j) matches Some(i) ==> j <= i < s.len() && s[i].0@ == k,
    decreases s.len() - j,
{
    if 0 <= j < s.len() && s[j].0@ != k {
        lemma_key_index_bounds(s, k, j + 1);
    }
}

proof fn lemma_key_index_same_keys(
    s: Seq<(String, Vec<DirEntry>)>,
    t: Seq<(String, Vec<DirEntry>)>,
    k: Seq<char>,
    j: int,
)
    requires
        s.len() == t.len(),
        forall|i: int| 0 <= i < s.len() ==> s[i].0@ == t[i].0@,
    ensures
        key_index_from(s, k, j) == key_index_from(t, k, j),
    decreases s.len() - j,
{
    if 0 <= j < s.len() {
        lemma_key_index_same_keys(s, t, k, j + 1);
    }
}

proof fn lemma_key_index_push(
    s: Seq<(String, Vec<DirEntry>)>,
    x: (String, Vec<DirEntry>),
    k: Seq<char>,
    j: int,
)
    requires
        0 <= j <= s.len(),
    ensures
        key_index_from(s.push(x), k, j) == (match key_index_from(s, k, j) {
            Some(i) => Some(i),
            None => if x.0@ == k {
                Some(s.len() as int)
            } else {
                None
            },
        }),
    decreases s.len() - j,
{
    assert(s.push(x)[s.len() as int] == x);
    if j < s.len() {
        assert(s.push(x)[j] == s[j]);
        lemma_key_index_push(s, x, k, j + 1);
    } else {
        assert(key_index_from(s.push(x), k, j + 1) is None);
    }
}

/// Listings of folders fetched so far, by folder ID.
///
/// The listings are kept as `(ID, listing)` pairs, the first pair of an ID
/// being the one that counts, seen as a map from ID to listing. vstd gives
/// `HashMap` a map view only for keys whose hashing it models (integers,
/// `bool`), not for `String` IDs, so a `HashMap` here would leave what a
/// lookup returns unstated.
pub struct FolderCache {
    pairs: Vec<(String, Vec<DirEntry>)>,
}

impl View for FolderCache {
    type V = Map<Seq<char>, Seq<(Seq<char>, Seq<char>, Seq<char>)>>;

    closed spec fn view(&self) -> Self::V {
        listing_map(self.pairs@)
    }
}

impl FolderCache {
    /// An empty cache.
    pub fn new() -> (c: FolderCache)
        ensures
            c@ == Map::<Seq<char>, Seq<(Seq<char>, Seq<char>, Seq<char>)>>::empty(),
    {
        let c = FolderCache { pairs: Vec::new() };
        assert(c@ =~= Map::<Seq<char>, Seq<(Seq<char>, Seq<char>, Seq<char>)>>::empty());
        c
    }

    fn position(&self, folder_id: &[char]) -> (r: Option<usize>)
        ensures
            match r {
                Some(i) => i < self.pairs@.len() && key_index_from(self.pairs@, folder_id@, 0)
                    == Some(i as int),
                None => key_index_from(self.pairs@, folder_id@, 0) is None,
            },
    {
        let mut j: usize = 0;
        while j < self.pairs.len()
            invariant
                j <= self.pairs@.len(),
                key_index_from(self.pairs@, folder_id@, 0) == key_index_from(
                    self.pairs@,
                    folder_id@,
                    j as int,
                ),
            decreases self.pairs.len() - j,
        {
            let k = chars_of(self.pairs[j].0.as_str());
            if chars_equal(k.as_slice(), folder_id) {
                proof {
                    lemma_key_index_bounds(self.pairs@, folder_id@, 0);
                }
                return Some(j);
            }
            j = j + 1;
        }
        None
    }

    /// The listing recorded for `folder_id`, as a copy.
    pub fn get(&self, folder_id: &str) -> (r: Option<Vec<DirEntry>>)
        ensures
            r is Some <==> self@.dom().contains(folder_id@),
            r matches Some(v) ==> entries_view(v@) == self@[folder_id@],
    {
        let key = chars_of(folder_id);
        match self.position(key.as_slice()) {
            Some(i) => Some(copy_entries(&self.pairs[i].1)),
            None => None,
        }
    }

    /// Records the listing of `folder_id`, replacing any earlier one.
    pub fn insert(&mut self, folder_id: &str, entries: &Vec<DirEntry>)
        ensures
            final(self)@ == old(self)@.insert(folder_id@, entries_view(entries@)),
    {
        let key = chars_of(folder_id);
        let ghost s0 = self.pairs@;
        let copy = copy_entries(entries);
        match self.position(key.as_slice()) {
            Some(i) => {
                let name = self.pairs[i].0.clone();
                self.pairs.set(i, (name, copy));
                proof {
                    let s1 = self.pairs@;
                    assert forall|q: int| 0 <= q < s0.len() implies s0[q].0@ == s1[q].0@ by {}
                    assert forall|k: Seq<char>| #![trigger key_index_from(s1, k, 0)]
                        key_index_from(s1, k, 0) == key_index_from(s0, k, 0) by {
                        lemma_key_index_same_keys(s0, s1, k, 0);
                    }
                    assert forall|k: Seq<char>| #![trigger key_index_from(s0, k, 0)]
                        key_index_from(s0, k, 0) matches Some(x) ==> 0 <= x < s0.len()
                            && s0[x].0@ == k by {
                        lemma_key_index_bounds(s0, k, 0);
                    }
                    assert(listing_map(s1) =~= listing_map(s0).insert(
                        folder_id@,
                        entries_view(entries@),
                    ));
                }
            },
            None => {
                let name = folder_id.to_string();
                self.pairs.push((name, copy));
                proof {
                    let s1 = self.pairs@;
                    assert(s1 =~= s0.push((name, copy)));
                    assert forall|k: Seq<char>| #![trigger key_index_from(s1, k, 0)]
                        key_index_from(s1, k, 0) == (match key_index_from(s0, k, 0) {
                            Some(i) => Some(i),
                            None => if name@ == k {
                                Some(s0.len() as int)
                            } else {
                                None
                            },
                        }) by {
                        lemma_key_index_push(s0, (name, copy), k, 0);
                    }
                    assert forall|k: Seq<char>| #![trigger key_index_from(s0, k, 0)]
                        key_index_from(s0, k, 0) matches Some(x) ==> 0 <= x < s0.len()
                            && s0[x].0@ == k by {
                        lemma_key_index_bounds(s0, k, 0);
                    }
                    assert(listing_map(s1) =~= listing_map(s0).insert(
                        folder_id@,
                        entries_view(entries@),
                    ));
                }
            },
        }
    }
}

/// A listing recorded for a folder is what the cache returns for that folder
/// afterwards, and the listings of all other folders are unchanged.
pub proof fn lemma_cache_read_after_write(
    before: Map<Seq<char>, Seq<(Seq<char>, Seq<char>, Seq<char>)>>,
    folder: Seq<char>,
    listing: Seq<(Seq<char>, Seq<char>, Seq<char>)>,
    other: Seq<char>,
)
    requires
        other != folder,
    ensures
        before.insert(folder, listing).dom().contains(folder),
        before.insert(folder, listing)[folder] == listing,
        before.insert(folder, listing).dom().contains(other) == before.dom().contains(other),
        before.dom().contains(other) ==> before.insert(folder, listing)[other] == before[other],
{
}

// ── The opened folder ───────────────────────────────────────────────

/// What opening a folder URL yields: the root folder ID (the last path segment,
/// which must not be empty) and the first `resourcekey` query value.
pub open spec fn folder_open(url: Seq<char>) -> Result<
    (Seq<char>, Option<Seq<char>>),
    (ErrorKind, Seq<char>),
> {
    match parsed_url(url) {
        Err(e) => Err((ErrorKind::InvalidInput, "invalid folder URL: "@ + e)),
        Ok(p) => match path_segments(p.path@) {
            Some(seg) if seg.last().len() > 0 => Ok(
                (seg.last(), query_first(p.query@, "resourcekey"@)),
            ),
            _ => Err((ErrorKind::InvalidInput, "cannot extract folder ID from URL: "@ + url)),
        },
    }
}

/// The text of an optional string.
pub open spec fn opt_view(o: Option<String>) -> Option<Seq<char>> {
    match o {
        Some(s) => Some(s@),
        None => None,
    }
}

/// A shared Google Drive folder: its root ID, its resource key, and the listings
/// fetched so far, cached by folder ID.
///
/// Opening one makes no request; the caller fetches each listing the first time
/// it is needed and records it with [`DriveFolder::remember`].
pub struct DriveFolder {
    root_id: String,
    resource_key: Option<String>,
    cache: FolderCache,
}

impl DriveFolder {
    /// The ID of the opened root folder.
    pub closed spec fn root(&self) -> Seq<char> {
        self.root_id@
    }

    /// The `resourcekey` of the opened URL, if it had one.
    pub closed spec fn key(&self) -> Option<Seq<char>> {
        opt_view(self.resource_key)
    }

    /// The listings recorded so far.
    pub closed spec fn listings(&self) -> Map<Seq<char>, Seq<(Seq<char>, Seq<char>, Seq<char>)>> {
        self.cache@
    }

    /// Opens a Google Drive folder URL: the last path segment is the root folder
    /// ID and the `resourcekey` query parameter is kept. No request is made.
    ///
    /// # Errors
    ///
    /// [`Error::InvalidInput`] if the URL does not parse or its last path segment
    /// is empty.
    pub fn open(url: &str) -> (r: Result<DriveFolder, Error>)
        ensures
            match r {
                Ok(f) => folder_open(url@) == Ok::<
                    (Seq<char>, Option<Seq<char>>),
                    (ErrorKind, Seq<char>),
                >((f.root(), f.key())) && f.listings() == Map::<
                    Seq<char>,
                    Seq<(Seq<char>, Seq<char>, Seq<char>)>,
                >::empty(),
                Err(e) => folder_open(url@) == Err::<
                    (Seq<char>, Option<Seq<char>>),
                    (ErrorKind, Seq<char>),
                >((e.kind(), e.message())),
            },
    {
        let p = match parse_url_parts(url) {
            Ok(p) => p,
            Err(e) => {
                return Err(Error::InvalidInput(cat("invalid folder URL: ", e.as_str())));
            },
        };
        let path = chars_of(p.path.as_str());
        if path.len() > 0 && path[0] == '/' {
            let rest = slice_chars(path.as_slice(), 1, path.len());
            assert(rest@ =~= path@.drop_first());
            let seg = split_chars(rest.as_slice(), '/');
            let ghost sv = seg@.map_values(|v: Vec<char>| v@);
            assert(sv.len() > 0) by {
                assert(split_on(rest@, '/').len() > 0);
            }
            let k = seg.len() - 1;
            assert(sv.last() == seg@[k as int]@);
            if seg[k].len() > 0 {
                let root_id = string_from_chars(seg[k].as_slice());
                let resource_key = query_first_of(&p.query, chars_of("resourcekey").as_slice());
                return Ok(DriveFolder { root_id, resource_key, cache: FolderCache::new() });
            }
        }
        Err(Error::InvalidInput(cat("cannot extract folder ID from URL: ", url)))
    }

    /// Returns the Google Drive identifier of the opened root folder.
    pub fn root_id(&self) -> (r: &str)
        ensures
            r@ == self.root(),
    {
        self.root_id.as_str()
    }

    /// The cached listing of `folder_id`, when one was recorded: the first half
    /// of listing a folder, which needs no request on a hit.
    pub fn cached(&self, folder_id: &str) -> (r: Option<Vec<DirEntry>>)
        ensures
            r is Some <==> self.listings().dom().contains(folder_id@),
            r matches Some(v) ==> entries_view(v@) == self.listings()[folder_id@],
    {
        self.cache.get(folder_id)
    }

    /// Records the fetched listing of `folder_id`, so that later lookups of it
    /// need no request.
    pub fn remember(&mut self, folder_id: &str, entries: &Vec<DirEntry>)
        ensures
            final(self).listings() == old(self).listings().insert(folder_id@, entries_view(entries@)),
            final(self).root() == old(self).root(),
            final(self).key() == old(self).key(),
    {
        self.cache.insert(folder_id, entries);
    }

    /// Starts fetching the listing of `folder_id`: the folder page URL, with the
    /// opened resource key as its query.
    pub fn start_fetch(&self, folder_id: &str) -> (r: ListingFetch)
        ensures
            r.folder()@ == folder_id@,
            r.url()@ == folder_page_url(folder_id@, self.key()),
            r.attempt() == 0,
    {
        let base = cat("https://drive.google.com/drive/folders/", folder_id);
        let url = match &self.resource_key {
            Some(rk) => cat(cat(base.as_str(), "?resourcekey=").as_str(), rk.as_str()),
            None => base,
        };
        ListingFetch { folder_id: folder_id.to_string(), url, attempt: 0 }
    }

    /// Starts resolving a `/`-separated path below the root. Empty segments are
    /// ignored.
    ///
    /// # Errors
    ///
    /// [`Error::InvalidInput`] (`empty path`) when the path has no segment.
    pub fn start_resolve(&self, path: &str) -> (r: Result<PathResolution, Error>)
        ensures
            match r {
                Ok(st) => path_components(path@).len() > 0 && st.components() == path_components(
                    path@,
                ) && st.index() == 0 && st.folder()@ == self.root() && st.path()@ == path@,
                Err(e) => path_components(path@).len() == 0 && e.kind() == ErrorKind::InvalidInput
                    && e.message() == "empty path"@,
            },
    {
        let parts = split_chars(chars_of(path).as_slice(), '/');
        let mut components: Vec<String> = Vec::new();
        let mut i: usize = 0;
        let ghost pv = parts@.map_values(|v: Vec<char>| v@);
        while i < parts.len()
            invariant
                i <= parts@.len(),
                pv == parts@.map_values(|v: Vec<char>| v@),
                pv == split_on(path@, '/'),
                components@.map_values(|c: String| c@) == nonempty(pv.take(i as int)),
            decreases parts.len() - i,
        {
            assert(pv.take(i + 1).drop_last() =~= pv.take(i as int));
            assert(pv.take(i + 1).last() == parts@[i as int]@);
            if parts[i].len() > 0 {
                let ghost before = components@.map_values(|c: String| c@);
                let c = string_from_chars(parts[i].as_slice());
                components.push(c);
                assert(components@.map_values(|c: String| c@) =~= before.push(c@));
            }
            i = i + 1;
        }
        assert(pv.take(pv.len() as int) =~= pv);
        if components.len() == 0 {
            return Err(Error::InvalidInput("empty path".to_string()));
        }
        Ok(
            PathResolution {
                components,
                index: 0,
                path: path.to_string(),
                folder: self.root_id.clone(),
            },
        )
    }
}

/// The folder page URL of `folder_id`, with `?resourcekey=` when there is a key.
pub open spec fn folder_page_url(folder_id: Seq<char>, key: Option<Seq<char>>) -> Seq<char> {
    let base = "https://drive.google.com/drive/folders/"@ + folder_id;
    match key {
        Some(k) => base + "?resourcekey="@ + k,
        None => base,
    }
}

/// The non-empty strings of `s`, in order.
pub open spec fn nonempty(s: Seq<Seq<char>>) -> Seq<Seq<char>>
    decreases s.len(),
{
    if s.len() == 0 {
        seq![]
    } else if s.last().len() > 0 {
        nonempty(s.drop_last()).push(s.last())
    } else {
        nonempty(s.drop_last())
    }
}

/// The components of a `/`-separated path: its non-empty segments.
pub open spec fn path_components(path: Seq<char>) -> Seq<Seq<char>> {
    nonempty(split_on(path, '/'))
}

// ── Fetching one listing ────────────────────────────────────────────

/// The URL requested for a listing URL: Google Drive URLs get `hl=en` added to
/// their query, other URLs are requested as they are.
pub open spec fn request_url_for(url: Seq<char>) -> Seq<char> {
    if url_is_google_drive(url) {
        if find(url, "?"@) is Some {
            url + "&hl=en"@
        } else {
            url + "?hl=en"@
        }
    } else {
        url
    }
}

/// A listing request in progress: the folder, the URL to request, and how many
/// redirects to another Google Drive URL were followed (at most one).
pub struct ListingFetch {
    folder_id: String,
    url: String,
    attempt: u8,
}

/// What a listing response leads to.
pub enum FetchStep {
    /// The folder's children, parsed from the page.
    Listed(Vec<DirEntry>),
    /// The request was redirected to another Google Drive URL; request that one.
    Retry(ListingFetch),
}

/// [`FetchStep`] and its errors seen through views.
pub enum FetchView {
    Listed(Seq<(Seq<char>, Seq<char>, Seq<char>)>),
    Retry(Seq<char>, Seq<char>, nat),
    Failed(ErrorKind, Seq<char>),
}

/// What the response to requesting `url` (the `attempt`-th redirect for folder
/// `folder`) leads to: an HTTP status other than 200 fails; a page that is
/// neither a redirect from a Google Drive URL to another one is parsed; such a
/// redirect is followed once.
pub open spec fn fetch_decision(
    folder: Seq<char>,
    url: Seq<char>,
    attempt: nat,
    status: u16,
    status_text: Seq<char>,
    response_url: Seq<char>,
    body: Seq<char>,
) -> FetchView {
    let fetch_url = request_url_for(url);
    if status != 200 {
        FetchView::Failed(ErrorKind::Parse, "folder listing returned HTTP "@ + status_text)
    } else if url_is_google_drive(fetch_url) || !url_is_google_drive(response_url) {
        match folder_page_with(fetch_url, body, crate::parse::folder_page_wording()) {
            Ok(page) => FetchView::Listed(page.2),
            Err(e) => FetchView::Failed(e.0, e.1),
        }
    } else if attempt == 0 {
        FetchView::Retry(folder, response_url, 1)
    } else {
        FetchView::Failed(
            ErrorKind::Parse,
            "failed to list folder "@ + folder + " after retries"@,
        )
    }
}

/// A fetch step, or its error, seen through views.
pub open spec fn fetch_view(r: Result<FetchStep, Error>) -> FetchView {
    match r {
        Ok(FetchStep::Listed(v)) => FetchView::Listed(entries_view(v@)),
        Ok(FetchStep::Retry(n)) => FetchView::Retry(n.folder()@, n.url()@, n.attempt()),
        Err(e) => FetchView::Failed(e.kind(), e.message()),
    }
}

fn entries_from_children(cs: Vec<FolderChild>) -> (r: Vec<DirEntry>)
    ensures
        entries_view(r@) == cs@.map_values(|c: FolderChild| child_view(c)),
{
    let mut r: Vec<DirEntry> = Vec::new();
    let mut i: usize = 0;
    while i < cs.len()
        invariant
            i <= cs@.len(),
            entries_view(r@) == cs@.take(i as int).map_values(|c: FolderChild| child_view(c)),
        decreases cs.len() - i,
    {
        let c = &cs[i];
        let e = DirEntry { id: c.id.clone(), name: c.name.clone(), mime_type: c.mime_type.clone() };
        let ghost before = r@;
        r.push(e);
        assert(cs@.take(i + 1) =~= cs@.take(i as int).push(cs@[i as int]));
        assert(entries_view(r@) =~= entries_view(before).push(entry_view(e)));
        assert(cs@.take(i + 1).map_values(|c: FolderChild| child_view(c)) =~= cs@.take(
            i as int,
        ).map_values(|c: FolderChild| child_view(c)).push(child_view(cs@[i as int])));
        i = i + 1;
    }
    assert(cs@.take(cs@.len() as int) =~= cs@);
    r
}

impl ListingFetch {
    /// The folder being listed.
    pub closed spec fn folder(&self) -> String {
        self.folder_id
    }

    /// The listing URL, before `hl=en` is added.
    pub closed spec fn url(&self) -> String {
        self.url
    }

    /// The number of redirects followed so far.
    pub closed spec fn attempt(&self) -> nat {
        self.attempt as nat
    }

    /// The URL to request now.
    pub fn request_url(&self) -> (r: String)
        ensures
            r@ == request_url_for(self.url()@),
    {
        if crate::parse::is_google_drive_url(self.url.as_str()) {
            let u = chars_of(self.url.as_str());
            if find_chars_from(u.as_slice(), chars_of("?").as_slice(), 0).is_some() {
                cat(self.url.as_str(), "&hl=en")
            } else {
                cat(self.url.as_str(), "?hl=en")
            }
        } else {
            self.url.clone()
        }
    }

    /// Decides what the response to [`ListingFetch::request_url`] leads to, from
    /// its HTTP status (code and display text), the URL it came from after
    /// redirects, and its body.
    pub fn on_page(self, status: u16, status_text: &str, response_url: &str, body: &str) -> (r:
        Result<FetchStep, Error>)
        ensures
            fetch_view(r) == fetch_decision(
                self.folder()@,
                self.url()@,
                self.attempt(),
                status,
                status_text@,
                response_url@,
                body@,
            ),
    {
        let fetch_url = self.request_url();
        if status != 200 {
            return Err(Error::Parse(cat("folder listing returned HTTP ", status_text)));
        }
        if crate::parse::is_google_drive_url(fetch_url.as_str())
            || !crate::parse::is_google_drive_url(response_url) {
            let page = read_folder_page(
                fetch_url.as_str(),
                body,
                "invalid selector: ",
                "Cannot retrieve the folder information from the link. You may need to change the permission to 'Anyone with the link', or have had many accesses.",
                "folder name cannot be extracted from: ",
            )?;
            let v = entries_from_children(page.children);
            return Ok(FetchStep::Listed(v));
        }
        if self.attempt == 0 {
            return Ok(
                FetchStep::Retry(
                    ListingFetch {
                        folder_id: self.folder_id,
                        url: response_url.to_string(),
                        attempt: 1,
                    },
                ),
            );
        }
        Err(
            Error::Parse(
                cat(
                    cat("failed to list folder ", self.folder_id.as_str()).as_str(),
                    " after retries",
                ),
            ),
        )
    }
}

// ── Resolving a path ────────────────────────────────────────────────

/// The index of the first entry of `es`, from `j` on, named `name`.
pub open spec fn first_named_from(
    es: Seq<(Seq<char>, Seq<char>, Seq<char>)>,
    name: Seq<char>,
    j: int,
) -> Option<int>
    decreases es.len() - j,
{
    if j < 0 || j >= es.len() {
        None
    } else if es[j].1 == name {
        Some(j)
    } else {
        first_named_from(es, name, j + 1)
    }
}

proof fn lemma_first_named_bounds(es: Seq<(Seq<char>, Seq<char>, Seq<char>)>, name: Seq<char>, j: int)
    ensures
        first_named_from(es, name, j) matches Some(i) ==> j <= i < es.len() && es[i].1 == name,
    decreases es.len() - j,
{
    if 0 <= j < es.len() && es[j].1 != name {
        lemma_first_named_bounds(es, name, j + 1);
    }
}

/// A path being resolved below the root: its components, the index of the one
/// to look up next, the path as given, and the folder to look it up in.
pub struct PathResolution {
    components: Vec<String>,
    index: usize,
    path: String,
    folder: String,
}

/// What looking up one path component leads to.
pub enum ResolveStep {
    /// The last component was found: the entry it names.
    Found(DirEntry),
    /// An intermediate folder was found; look up the next component in it.
    Descend(PathResolution),
    /// A component is missing, or an intermediate component is not a folder.
    Failed(Error),
}

/// [`ResolveStep`] seen through views.
pub enum ResolveView {
    Found((Seq<char>, Seq<char>, Seq<char>)),
    Descend(Seq<Seq<char>>, nat, Seq<char>, Seq<char>),
    Failed(ErrorKind, Seq<char>),
}

/// What looking up component `index` of `components` (of `path`) among
/// `children` leads to.
pub open spec fn resolve_decision(
    components: Seq<Seq<char>>,
    index: nat,
    path: Seq<char>,
    children: Seq<(Seq<char>, Seq<char>, Seq<char>)>,
) -> ResolveView {
    let comp = components[index as int];
    match first_named_from(children, comp, 0) {
        None => ResolveView::Failed(
            ErrorKind::Parse,
            "not found in Google Drive folder: "@ + comp + " (in path "@ + path + ")"@,
        ),
        Some(j) => if index + 1 == components.len() {
            ResolveView::Found(children[j])
        } else if !is_folder_view(children[j]) {
            ResolveView::Failed(ErrorKind::Parse, comp + " is not a folder (in path "@ + path + ")"@)
        } else {
            ResolveView::Descend(components, index + 1, path, children[j].0)
        },
    }
}

/// A resolve step seen through views.
pub open spec fn resolve_view(r: ResolveStep) -> ResolveView {
    match r {
        ResolveStep::Found(e) => ResolveView::Found(entry_view(e)),
        ResolveStep::Descend(st) => ResolveView::Descend(
            st.components(),
            st.index(),
            st.path()@,
            st.folder()@,
        ),
        ResolveStep::Failed(e) => ResolveView::Failed(e.kind(), e.message()),
    }
}

impl PathResolution {
    #[verifier::type_invariant]
    spec fn inv(&self) -> bool {
        self.index < self.components@.len()
    }

    /// The components of the path.
    pub closed spec fn components(&self) -> Seq<Seq<char>> {
        self.components@.map_values(|c: String| c@)
    }

    /// The index of the component to look up next.
    pub closed spec fn index(&self) -> nat {
        self.index as nat
    }

    /// The path as given.
    pub closed spec fn path(&self) -> String {
        self.path
    }

    /// The folder in which the next component is looked up.
    pub closed spec fn folder(&self) -> String {
        self.folder
    }

    /// The folder whose listing the next step needs.
    pub fn folder_id(&self) -> (r: &str)
        ensures
            r@ == self.folder()@,
    {
        self.folder.as_str()
    }

    /// Looks the next component up among `children`, the listing of
    /// [`PathResolution::folder_id`]; names are matched exactly.
    pub fn step(self, children: &Vec<DirEntry>) -> (r: ResolveStep)
        ensures
            self.index() < self.components().len(),
            resolve_view(r) == resolve_decision(
                self.components(),
                self.index(),
                self.path()@,
                entries_view(children@),
            ),
    {
        proof {
            use_type_invariant(&self);
        }
        let ghost es = entries_view(children@);
        let comp = chars_of(self.components[self.index].as_str());
        let mut j: usize = 0;
        while j < children.len()
            invariant
                j <= children@.len(),
                es == entries_view(children@),
                first_named_from(es, comp@, 0) == first_named_from(es, comp@, j as int),
            ensures
                j <= children@.len(),
                first_named_from(es, comp@, 0) == first_named_from(es, comp@, j as int),
                j < children@.len() ==> es[j as int].1 == comp@,
            decreases children.len() - j,
        {
            let name = chars_of(children[j].name.as_str());
            if chars_equal(name.as_slice(), comp.as_slice()) {
                break;
            }
            j = j + 1;
        }
        proof {
            use_type_invariant(&self);
        }
        if j == children.len() {
            let m = cat(
                cat(
                    cat("not found in Google Drive folder: ", self.components[self.index].as_str()).as_str(),
                    " (in path ",
                ).as_str(),
                self.path.as_str(),
            );
            return ResolveStep::Failed(Error::Parse(cat(m.as_str(), ")")));
        }
        assert(first_named_from(es, comp@, 0) == Some(j as int));
        let child = copy_entry(&children[j]);
        if self.index == self.components.len() - 1 {
            return ResolveStep::Found(child);
        }
        if !child.is_folder() {
            let m = cat(
                cat(self.components[self.index].as_str(), " is not a folder (in path ").as_str(),
                self.path.as_str(),
            );
            return ResolveStep::Failed(Error::Parse(cat(m.as_str(), ")")));
        }
        ResolveStep::Descend(
            PathResolution {
                components: self.components,
                index: self.index + 1,
                path: self.path,
                folder: child.id,
            },
        )
    }
}

/// The entry a path names, following the listings of the folders along it from
/// `folder`: each component is the first child of that name, and every
/// component but the last must be a folder.
pub open spec fn walk_entry(
    listings: Map<Seq<char>, Seq<(Seq<char>, Seq<char>, Seq<char>)>>,
    folder: Seq<char>,
    components: Seq<Seq<char>>,
    index: nat,
) -> Option<(Seq<char>, Seq<char>, Seq<char>)>
    decreases components.len() - index,
{
    if index >= components.len() {
        None
    } else {
        let children = listings[folder];
        match first_named_from(children, components[index as int], 0) {
            None => None,
            Some(j) => if index + 1 == components.len() {
                Some(children[j])
            } else if !is_folder_view(children[j]) {
                None
            } else {
                walk_entry(listings, children[j].0, components, index + 1)
            },
        }
    }
}

/// Resolving a path follows the listings: fed the listing of the folder it
/// asks for, a step that finds an entry finds the entry the path names, a step
/// that fails means the path names none, and a step that descends keeps the
/// entry the path names unchanged while moving to the next component.
pub proof fn lemma_resolve_follows_listings(
    listings: Map<Seq<char>, Seq<(Seq<char>, Seq<char>, Seq<char>)>>,
    folder: Seq<char>,
    components: Seq<Seq<char>>,
    index: nat,
    path: Seq<char>,
)
    requires
        index < components.len(),
    ensures
        match resolve_decision(components, index, path, listings[folder]) {
            ResolveView::Found(e) => walk_entry(listings, folder, components, index) == Some(e),
            ResolveView::Failed(_, _) => walk_entry(listings, folder, components, index) is None,
            ResolveView::Descend(c, i, p, f) => c == components && i == index + 1 && walk_entry(
                listings,
                f,
                components,
                i,
            ) == walk_entry(listings, folder, components, index),
        },
{
}

proof fn lemma_walk_entry_named(
    listings: Map<Seq<char>, Seq<(Seq<char>, Seq<char>, Seq<char>)>>,
    folder: Seq<char>,
    components: Seq<Seq<char>>,
    index: nat,
)
    ensures
        walk_entry(listings, folder, components, index) matches Some(e) ==> index
            < components.len() && e.1 == components.last(),
    decreases components.len() - index,
{
    if index < components.len() {
        let children = listings[folder];
        lemma_first_named_bounds(children, components[index as int], 0);
        if let Some(j) = first_named_from(children, components[index as int], 0) {
            if index + 1 < components.len() && is_folder_view(children[j]) {
                lemma_walk_entry_named(listings, children[j].0, components, index + 1);
            }
        }
    }
}

/// What resolving a path below `root` (`start_resolve`, then `step` with the
/// listing of each folder asked for) finds depends on the path's non-empty
/// segments alone: two paths with the same segments (such as `a//b/` and
/// `a/b`) name the same entry. A path without segments names nothing (and
/// `start_resolve` refuses it), and the entry a path names carries the path's
/// last segment as its name; every segment before the last names a folder.
pub proof fn lemma_resolve_same_segments(
    listings: Map<Seq<char>, Seq<(Seq<char>, Seq<char>, Seq<char>)>>,
    root: Seq<char>,
    p: Seq<char>,
    q: Seq<char>,
)
    ensures
        path_components(p) == path_components(q) ==> walk_entry(
            listings,
            root,
            path_components(p),
            0,
        ) == walk_entry(listings, root, path_components(q), 0),
        path_components(p).len() == 0 ==> walk_entry(listings, root, path_components(p), 0) is None,
        walk_entry(listings, root, path_components(p), 0) matches Some(e) ==> e.1 == path_components(
            p,
        ).last(),
        walk_entry(listings, root, path_components(p), 0) is Some && path_components(p).len() > 1
            ==> (first_named_from(listings[root], path_components(p)[0], 0) matches Some(j)
            && is_folder_view(listings[root][j]) && walk_entry(
            listings,
            listings[root][j].0,
            path_components(p),
            1,
        ) == walk_entry(listings, root, path_components(p), 0)),
{
    lemma_walk_entry_named(listings, root, path_components(p), 0);
}

/// Resolving the components of `path` from component `index` on, in `folder`,
/// fed the listing of every folder asked for: the repeated `step` of a
/// [`PathResolution`] until it finds the entry or fails.
pub open spec fn resolve_run(
    listings: Map<Seq<char>, Seq<(Seq<char>, Seq<char>, Seq<char>)>>,
    components: Seq<Seq<char>>,
    index: nat,
    path: Seq<char>,
    folder: Seq<char>,
) -> ResolveView
    decreases components.len() - index,
{
    if index >= components.len() {
        ResolveView::Failed(ErrorKind::Parse, "unexpected end of path: "@ + path)
    } else {
        match resolve_decision(components, index, path, listings[folder]) {
            ResolveView::Descend(_, _, _, f) => resolve_run(listings, components, index + 1, path, f),
            other => other,
        }
    }
}

proof fn lemma_resolve_run_walk(
    listings: Map<Seq<char>, Seq<(Seq<char>, Seq<char>, Seq<char>)>>,
    components: Seq<Seq<char>>,
    index: nat,
    path: Seq<char>,
    folder: Seq<char>,
)
    requires
        index < components.len(),
    ensures
        match resolve_run(listings, components, index, path, folder) {
            ResolveView::Found(e) => walk_entry(listings, folder, components, index) == Some(e),
            ResolveView::Failed(k, _) => k == ErrorKind::Parse && walk_entry(
                listings,
                folder,
                components,
                index,
            ) is None,
            ResolveView::Descend(_, _, _, _) => false,
        },
    decreases components.len() - index,
{
    lemma_resolve_follows_listings(listings, folder, components, index, path);
    if let ResolveView::Descend(c, i, p, f) = resolve_decision(
        components,
        index,
        path,
        listings[folder],
    ) {
        lemma_resolve_run_walk(listings, components, index + 1, path, f);
    }
}

/// Resolving a path step by step, from `start_resolve` on, ends in the entry the
/// path names, or fails (with a parse error) exactly when it names none. So two
/// paths with the same non-empty segments, such as `a//b/` and `a/b`, find the
/// same entry or both fail; only the path quoted in a failure's message differs.
pub proof fn lemma_resolve_run_by_segments(
    listings: Map<Seq<char>, Seq<(Seq<char>, Seq<char>, Seq<char>)>>,
    root: Seq<char>,
    p: Seq<char>,
    q: Seq<char>,
)
    requires
        path_components(p).len() > 0,
        path_components(p) == path_components(q),
    ensures
        match resolve_run(listings, path_components(p), 0, p, root) {
            ResolveView::Found(e) => walk_entry(listings, root, path_components(p), 0) == Some(e)
                && resolve_run(listings, path_components(q), 0, q, root) == ResolveView::Found(e),
            ResolveView::Failed(k, _) => k == ErrorKind::Parse && walk_entry(
                listings,
                root,
                path_components(p),
                0,
            ) is None && resolve_run(listings, path_components(q), 0, q, root) is Failed,
            ResolveView::Descend(_, _, _, _) => false,
        },
{
    lemma_resolve_run_walk(listings, path_components(p), 0, p, root);
    lemma_resolve_run_walk(listings, path_components(q), 0, q, root);
}

// ── Recursive listing ───────────────────────────────────────────────

/// The path of a child named `name` below `prefix`: the name itself at the top,
/// otherwise `prefix/name`.
pub open spec fn child_path(prefix: Seq<char>, name: Seq<char>) -> Seq<char> {
    if prefix.len() == 0 {
        name
    } else {
        prefix + "/"@ + name
    }
}

/// The flat entries of `children` listed below `prefix`, in order.
pub open spec fn flat_children(
    prefix: Seq<char>,
    children: Seq<(Seq<char>, Seq<char>, Seq<char>)>,
) -> Seq<(Seq<char>, Seq<char>, bool)> {
    children.map_values(
        |c: (Seq<char>, Seq<char>, Seq<char>)| (c.0, child_path(prefix, c.1), is_folder_view(c)),
    )
}

/// The `(id, path)` of the folders among `children` listed below `prefix`, in order.
pub open spec fn subfolders(
    prefix: Seq<char>,
    children: Seq<(Seq<char>, Seq<char>, Seq<char>)>,
) -> Seq<(Seq<char>, Seq<char>)>
    decreases children.len(),
{
    if children.len() == 0 {
        seq![]
    } else {
        let rest = subfolders(prefix, children.drop_last());
        let c = children.last();
        if is_folder_view(c) {
            rest.push((c.0, child_path(prefix, c.1)))
        } else {
            rest
        }
    }
}

/// Pairs of strings seen as character sequences.
pub open spec fn pairs_view(s: Seq<(String, String)>) -> Seq<(Seq<char>, Seq<char>)> {
    s.map_values(|p: (String, String)| (p.0@, p.1@))
}

/// A recursive walk of a folder tree: the folders still to list, each with its
/// path, and the entries found so far.
///
/// The walk takes folders from the top of the stack; the order of the entries
/// follows that order and is otherwise unspecified.
pub struct RecursiveListing {
    stack: Vec<(String, String)>,
    entries: Vec<FlatEntry>,
}

impl RecursiveListing {
    /// The folders still to list, as `(id, path)`; the last is listed next.
    pub closed spec fn pending(&self) -> Seq<(Seq<char>, Seq<char>)> {
        pairs_view(self.stack@)
    }

    /// The entries found so far, as `(id, path, is folder)`.
    pub closed spec fn found(&self) -> Seq<(Seq<char>, Seq<char>, bool)> {
        flats_view(self.entries@)
    }

    /// A walk that starts at the root folder, whose path is empty.
    pub fn new(root_id: &str) -> (r: RecursiveListing)
        ensures
            r.pending() == seq![(root_id@, Seq::<char>::empty())],
            r.found() == Seq::<(Seq<char>, Seq<char>, bool)>::empty(),
    {
        let r = RecursiveListing { stack: vec![(root_id.to_string(), String::new())], entries: Vec::new() };
        assert(r.pending() =~= seq![(root_id@, Seq::<char>::empty())]);
        assert(r.found() =~= Seq::<(Seq<char>, Seq<char>, bool)>::empty());
        r
    }

    /// Takes the next folder to list, as `(id, path)`; `None` when the walk is done.
    pub fn next_folder(&mut self) -> (r: Option<(String, String)>)
        ensures
            old(self).pending().len() == 0 ==> r is None && final(self).pending() == old(
                self,
            ).pending(),
            old(self).pending().len() > 0 ==> (r matches Some(p) && (p.0@, p.1@) == old(
                self,
            ).pending().last() && final(self).pending() == old(self).pending().drop_last()),
            final(self).found() == old(self).found(),
    {
        let ghost s0 = self.stack@;
        let r = self.stack.pop();
        proof {
            if s0.len() > 0 {
                assert(self.stack@ =~= s0.drop_last());
                assert(pairs_view(s0.drop_last()) =~= pairs_view(s0).drop_last());
            }
        }
        r
    }

    /// Adds the children of the folder at `prefix`: one entry for each, and each
    /// subfolder to the folders still to list.
    pub fn add_children(&mut self, prefix: &String, children: &Vec<DirEntry>)
        ensures
            final(self).found() == old(self).found() + flat_children(prefix@, entries_view(children@)),
            final(self).pending() == old(self).pending() + subfolders(prefix@, entries_view(children@)),
    {
        let ghost es = entries_view(children@);
        let ghost f0 = self.found();
        let ghost p0 = self.pending();
        let prefix_empty = chars_of(prefix.as_str()).len() == 0;
        let mut i: usize = 0;
        while i < children.len()
            invariant
                i <= children@.len(),
                prefix_empty == (prefix@.len() == 0),
                es == entries_view(children@),
                self.found() == f0 + flat_children(prefix@, es.take(i as int)),
                self.pending() == p0 + subfolders(prefix@, es.take(i as int)),
            decreases children.len() - i,
        {
            let c = &children[i];
            let path = if prefix_empty {
                c.name.clone()
            } else {
                cat(cat(prefix.as_str(), "/").as_str(), c.name.as_str())
            };
            assert(path@ == child_path(prefix@, c.name@));
            let is_folder = c.is_folder();
            let ghost fb = self.entries@;
            let ghost sb = self.stack@;
            self.entries.push(FlatEntry { id: c.id.clone(), path: path.clone(), is_folder });
            if is_folder {
                self.stack.push((c.id.clone(), path));
            }
            proof {
                assert(es.take(i + 1) =~= es.take(i as int).push(es[i as int]));
                assert(es.take(i + 1).drop_last() =~= es.take(i as int));
                assert(flats_view(self.entries@) =~= flats_view(fb).push(
                    (c.id@, child_path(prefix@, c.name@), is_folder),
                ));
                assert(flat_children(prefix@, es.take(i + 1)) =~= flat_children(
                    prefix@,
                    es.take(i as int),
                ).push((c.id@, child_path(prefix@, c.name@), is_folder)));
                if is_folder {
                    assert(pairs_view(self.stack@) =~= pairs_view(sb).push(
                        (c.id@, child_path(prefix@, c.name@)),
                    ));
                } else {
                    assert(self.stack@ == sb);
                }
            }
            i = i + 1;
        }
        assert(es.take(es.len() as int) =~= es);
    }

    /// The entries found, once the walk is done.
    pub fn into_entries(self) -> (r: Vec<FlatEntry>)
        ensures
            flats_view(r@) == self.found(),
    {
        self.entries
    }
}

/// In a recursive listing, a child's path is its parent's path, a `/`, and its
/// name; at the top it is the name alone.
pub proof fn lemma_child_path_extends(prefix: Seq<char>, name: Seq<char>)
    ensures
        prefix.len() > 0 ==> child_path(prefix, name).take(prefix.len() as int) == prefix
            && child_path(prefix, name)[prefix.len() as int] == '/'
            && child_path(prefix, name).skip(prefix.len() as int + 1) == name,
        prefix.len() == 0 ==> child_path(prefix, name) == name,
{
    reveal_strlit("/");
    if prefix.len() > 0 {
        let p = child_path(prefix, name);
        assert(p == prefix + "/"@ + name);
        assert(p.take(prefix.len() as int) =~= prefix);
        assert(p.skip(prefix.len() as int + 1) =~= name);
    }
}

/// Every folder waiting to be listed, other than the root (whose path is
/// empty), is among the entries found, as a folder.
pub open spec fn pending_were_found(
    pending: Seq<(Seq<char>, Seq<char>)>,
    found: Seq<(Seq<char>, Seq<char>, bool)>,
) -> bool {
    forall|k: int|
        0 <= k < pending.len() ==> (#[trigger] pending[k]).1.len() == 0 || found.contains(
            (pending[k].0, pending[k].1, true),
        )
}

proof fn lemma_subfolders_found(prefix: Seq<char>, children: Seq<(Seq<char>, Seq<char>, Seq<char>)>)
    ensures
        forall|k: int|
            0 <= k < subfolders(prefix, children).len() ==> flat_children(prefix, children).contains(
                ((#[trigger] subfolders(prefix, children)[k]).0, subfolders(prefix, children)[k].1, true),
            ),
    decreases children.len(),
{
    if children.len() > 0 {
        let d = children.drop_last();
        let c = children.last();
        lemma_subfolders_found(prefix, d);
        let fd = flat_children(prefix, d);
        let fc = flat_children(prefix, children);
        assert(fc =~= fd.push((c.0, child_path(prefix, c.1), is_folder_view(c))));
        let sd = subfolders(prefix, d);
        let sc = subfolders(prefix, children);
        assert forall|k: int| 0 <= k < sc.len() implies fc.contains((
            (#[trigger] sc[k]).0,
            sc[k].1,
            true,
        )) by {
            if k < sd.len() {
                assert(sc[k] == sd[k]);
                let j = choose|j: int| 0 <= j < fd.len() && fd[j] == (sd[k].0, sd[k].1, true);
                assert(fc[j] == fd[j]);
            } else {
                assert(fc[fd.len() as int] == (c.0, child_path(prefix, c.1), true));
            }
        }
    }
}

/// A recursive listing lists a folder only after recording the folder itself:
/// starting from the root, taking the next folder and adding the children of
/// a listed folder each keep every waiting folder (but the root) among the
/// entries found. So a folder's entry comes before the entries of its children.
pub proof fn lemma_folders_found_before_listed(
    root_id: Seq<char>,
    pending: Seq<(Seq<char>, Seq<char>)>,
    found: Seq<(Seq<char>, Seq<char>, bool)>,
    prefix: Seq<char>,
    children: Seq<(Seq<char>, Seq<char>, Seq<char>)>,
)
    ensures
        pending_were_found(
            seq![(root_id, Seq::<char>::empty())],
            Seq::<(Seq<char>, Seq<char>, bool)>::empty(),
        ),
        pending_were_found(pending, found) && pending.len() > 0 ==> pending_were_found(
            pending.drop_last(),
            found,
        ),
        pending_were_found(pending, found) ==> pending_were_found(
            pending + subfolders(prefix, children),
            found + flat_children(prefix, children),
        ),
{
    let start = seq![(root_id, Seq::<char>::empty())];
    assert forall|k: int| 0 <= k < start.len() implies (#[trigger] start[k]).1.len() == 0 by {}
    if pending_were_found(pending, found) {
        if pending.len() > 0 {
            let d = pending.drop_last();
            assert forall|k: int| 0 <= k < d.len() implies (#[trigger] d[k]).1.len() == 0
                || found.contains((d[k].0, d[k].1, true)) by {
                assert(d[k] == pending[k]);
            }
        }
        lemma_subfolders_found(prefix, children);
        let p2 = pending + subfolders(prefix, children);
        let f2 = found + flat_children(prefix, children);
        let sf = subfolders(prefix, children);
        let fc = flat_children(prefix, children);
        assert forall|k: int| 0 <= k < p2.len() implies (#[trigger] p2[k]).1.len() == 0
            || f2.contains((p2[k].0, p2[k].1, true)) by {
            if k < pending.len() {
                assert(p2[k] == pending[k]);
                if pending[k].1.len() != 0 {
                    let j = choose|j: int| 0 <= j < found.len() && found[j] == (
                        pending[k].0,
                        pending[k].1,
                        true,
                    );
                    assert(f2[j] == found[j]);
                }
            } else {
                let m = k - pending.len();
                assert(p2[k] == sf[m]);
                let j = choose|j: int| 0 <= j < fc.len() && fc[j] == (sf[m].0, sf[m].1, true);
                assert(f2[found.len() + j] == fc[j]);
            }
        }
    }
}

/// The `(id, path)` of the folders among `found`, in order.
pub open spec fn folders_of(found: Seq<(Seq<char>, Seq<char>, bool)>) -> Seq<(Seq<char>, Seq<char>)>
    decreases found.len(),
{
    if found.len() == 0 {
        seq![]
    } else {
        let rest = folders_of(found.drop_last());
        let e = found.last();
        if e.2 {
            rest.push((e.0, e.1))
        } else {
            rest
        }
    }
}

/// The entries that listing the folders `listed` in turn finds, each folder's
/// children below its own path, given the listing of every folder.
pub open spec fn listed_entries(
    listings: Map<Seq<char>, Seq<(Seq<char>, Seq<char>, Seq<char>)>>,
    listed: Seq<(Seq<char>, Seq<char>)>,
) -> Seq<(Seq<char>, Seq<char>, bool)>
    decreases listed.len(),
{
    if listed.len() == 0 {
        seq![]
    } else {
        let f = listed.last();
        listed_entries(listings, listed.drop_last()) + flat_children(f.1, listings[f.0])
    }
}

/// The state of a recursive listing of the tree at `root`, with the folders
/// `listed` so far: the entries found are the children of the listed folders,
/// and the folders waiting and the folders listed are together the root and the
/// folders found, each as often as it was found.
pub open spec fn walk_accounts(
    root: Seq<char>,
    listings: Map<Seq<char>, Seq<(Seq<char>, Seq<char>, Seq<char>)>>,
    pending: Seq<(Seq<char>, Seq<char>)>,
    listed: Seq<(Seq<char>, Seq<char>)>,
    found: Seq<(Seq<char>, Seq<char>, bool)>,
) -> bool {
    &&& found == listed_entries(listings, listed)
    &&& pending.to_multiset().add(listed.to_multiset()) == (seq![(root, Seq::<char>::empty())]
        + folders_of(found)).to_multiset()
}

proof fn lemma_folders_of_concat(
    a: Seq<(Seq<char>, Seq<char>, bool)>,
    b: Seq<(Seq<char>, Seq<char>, bool)>,
)
    ensures
        folders_of(a + b) == folders_of(a) + folders_of(b),
    decreases b.len(),
{
    if b.len() == 0 {
        assert(a + b =~= a);
        assert(folders_of(a) + folders_of(b) =~= folders_of(a));
    } else {
        lemma_folders_of_concat(a, b.drop_last());
        assert((a + b).drop_last() =~= a + b.drop_last());
        assert((a + b).last() == b.last());
        if b.last().2 {
            assert(folders_of(a) + folders_of(b) =~= (folders_of(a) + folders_of(b.drop_last())).push(
                (b.last().0, b.last().1),
            ));
        }
    }
}

proof fn lemma_folders_of_children(prefix: Seq<char>, children: Seq<(Seq<char>, Seq<char>, Seq<char>)>)
    ensures
        folders_of(flat_children(prefix, children)) == subfolders(prefix, children),
    decreases children.len(),
{
    if children.len() > 0 {
        lemma_folders_of_children(prefix, children.drop_last());
        assert(flat_children(prefix, children).drop_last() =~= flat_children(
            prefix,
            children.drop_last(),
        ));
    } else {
        assert(flat_children(prefix, children) =~= Seq::<(Seq<char>, Seq<char>, bool)>::empty());
    }
}

/// A recursive listing finds every entry of the tree exactly once.
///
/// A new walk of the tree at `root` is accounted for. Taking the next folder
/// and adding the children its listing gives (what `next_folder` and
/// `add_children` do) keeps the walk accounted for, with that folder now
/// listed. So once no folder waits, the entries found are the children of the
/// listed folders, each listing taken once, and the listed folders are the
/// root and every folder found, each exactly as often as it was found.
pub proof fn lemma_recursive_walk(
    root: Seq<char>,
    listings: Map<Seq<char>, Seq<(Seq<char>, Seq<char>, Seq<char>)>>,
    pending: Seq<(Seq<char>, Seq<char>)>,
    listed: Seq<(Seq<char>, Seq<char>)>,
    found: Seq<(Seq<char>, Seq<char>, bool)>,
)
    ensures
        walk_accounts(
            root,
            listings,
            seq![(root, Seq::<char>::empty())],
            seq![],
            seq![],
        ),
        walk_accounts(root, listings, pending, listed, found) && pending.len() > 0 ==> {
            let q = pending.last();
            walk_accounts(
                root,
                listings,
                pending.drop_last() + subfolders(q.1, listings[q.0]),
                listed.push(q),
                found + flat_children(q.1, listings[q.0]),
            )
        },
        walk_accounts(root, listings, seq![], listed, found) ==> found == listed_entries(
            listings,
            listed,
        ) && listed.to_multiset() == (seq![(root, Seq::<char>::empty())]
            + folders_of(found)).to_multiset(),
{
    broadcast use vstd::multiset::group_multiset_axioms;
    broadcast use vstd::seq_lib::group_to_multiset_ensures;

    let r = seq![(root, Seq::<char>::empty())];
    let e0 = Seq::<(Seq<char>, Seq<char>, bool)>::empty();
    let l0 = Seq::<(Seq<char>, Seq<char>)>::empty();
    assert(folders_of(e0) =~= l0);
    assert(r + folders_of(e0) =~= r);
    assert(r.to_multiset().add(l0.to_multiset()) =~= r.to_multiset());
    if walk_accounts(root, listings, pending, listed, found) && pending.len() > 0 {
        let q = pending.last();
        let c = listings[q.0];
        let s = subfolders(q.1, c);
        let fc = flat_children(q.1, c);
        let p2 = pending.drop_last() + s;
        let l2 = listed.push(q);
        let f2 = found + fc;
        assert(l2.drop_last() =~= listed);
        assert(listed_entries(listings, l2) == listed_entries(listings, listed) + fc);
        lemma_folders_of_concat(found, fc);
        lemma_folders_of_children(q.1, c);
        assert(r + folders_of(f2) =~= (r + folders_of(found)) + s);
        vstd::seq_lib::lemma_multiset_commutative(r + folders_of(found), s);
        vstd::seq_lib::lemma_multiset_commutative(pending.drop_last(), s);
        assert(pending =~= pending.drop_last().push(q));
        assert(pending.to_multiset() =~= pending.drop_last().to_multiset().insert(q));
        assert(l2.to_multiset() =~= listed.to_multiset().insert(q));
        assert(p2.to_multiset().add(l2.to_multiset()) =~= pending.to_multiset().add(
            listed.to_multiset(),
        ).add(s.to_multiset()));
    }
    if walk_accounts(root, listings, seq![], listed, found) {
        let z = Seq::<(Seq<char>, Seq<char>)>::empty();
        assert(z.to_multiset().add(listed.to_multiset()) =~= listed.to_multiset());
    }
}

/// A recursive listing of the tree whose folder listings are `listings`, run
/// from the given state until no folder waits, taking at most `fuel` more
/// folders: the folders listed, in order, and the entries found. `None` when
/// more folders would be needed.
pub open spec fn walk_run(
    listings: Map<Seq<char>, Seq<(Seq<char>, Seq<char>, Seq<char>)>>,
    pending: Seq<(Seq<char>, Seq<char>)>,
    listed: Seq<(Seq<char>, Seq<char>)>,
    found: Seq<(Seq<char>, Seq<char>, bool)>,
    fuel: nat,
) -> Option<(Seq<(Seq<char>, Seq<char>)>, Seq<(Seq<char>, Seq<char>, bool)>)>
    decreases fuel,
{
    if pending.len() == 0 {
        Some((listed, found))
    } else if fuel == 0 {
        None
    } else {
        let q = pending.last();
        walk_run(
            listings,
            pending.drop_last() + subfolders(q.1, listings[q.0]),
            listed.push(q),
            found + flat_children(q.1, listings[q.0]),
            (fuel - 1) as nat,
        )
    }
}

proof fn lemma_walk_run_accounts(
    root: Seq<char>,
    listings: Map<Seq<char>, Seq<(Seq<char>, Seq<char>, Seq<char>)>>,
    pending: Seq<(Seq<char>, Seq<char>)>,
    listed: Seq<(Seq<char>, Seq<char>)>,
    found: Seq<(Seq<char>, Seq<char>, bool)>,
    fuel: nat,
)
    requires
        walk_accounts(root, listings, pending, listed, found),
    ensures
        walk_run(listings, pending, listed, found, fuel) matches Some(r) ==> walk_accounts(
            root,
            listings,
            seq![],
            r.0,
            r.1,
        ),
    decreases fuel,
{
    if pending.len() == 0 {
        assert(pending =~= Seq::<(Seq<char>, Seq<char>)>::empty());
    } else if fuel > 0 {
        let q = pending.last();
        lemma_recursive_walk(root, listings, pending, listed, found);
        lemma_walk_run_accounts(
            root,
            listings,
            pending.drop_last() + subfolders(q.1, listings[q.0]),
            listed.push(q),
            found + flat_children(q.1, listings[q.0]),
            (fuel - 1) as nat,
        );
    }
}

proof fn lemma_listed_entries_member(
    listings: Map<Seq<char>, Seq<(Seq<char>, Seq<char>, Seq<char>)>>,
    listed: Seq<(Seq<char>, Seq<char>)>,
    i: int,
    k: int,
)
    requires
        0 <= i < listed.len(),
        0 <= k < listings[listed[i].0].len(),
    ensures
        listed_entries(listings, listed).contains(
            flat_children(listed[i].1, listings[listed[i].0])[k],
        ),
    decreases listed.len(),
{
    let d = listed.drop_last();
    let c = flat_children(listed.last().1, listings[listed.last().0]);
    let e = listed_entries(listings, d);
    if i < listed.len() - 1 {
        assert(listed[i] == d[i]);
        lemma_listed_entries_member(listings, d, i, k);
        let j = choose|j: int|
            0 <= j < e.len() && e[j] == flat_children(d[i].1, listings[d[i].0])[k];
        assert((e + c)[j] == e[j]);
    } else {
        assert((e + c)[e.len() + k] == c[k]);
    }
}

proof fn lemma_folders_of_member(found: Seq<(Seq<char>, Seq<char>, bool)>, j: int)
    requires
        0 <= j < found.len(),
        found[j].2,
    ensures
        folders_of(found).contains((found[j].0, found[j].1)),
    decreases found.len(),
{
    let d = found.drop_last();
    if j < found.len() - 1 {
        assert(found[j] == d[j]);
        lemma_folders_of_member(d, j);
        let m = choose|m: int| 0 <= m < folders_of(d).len() && folders_of(d)[m] == (d[j].0, d[j].1);
        if found.last().2 {
            assert(folders_of(found)[m] == folders_of(d)[m]);
        }
    } else {
        assert(folders_of(found).last() == (found[j].0, found[j].1));
    }
}

/// A recursive listing run to its end from `new(root)` finds every entry of the
/// tree below `root` exactly once, under its path.
///
/// The folders listed start with the root, and every subfolder of a listed
/// folder is listed too, so every folder below the root is listed; each folder
/// is listed exactly once for each time it was found (the root once). The
/// entries found are the children of the listed folders, each listing taken
/// once, each child under its parent's path joined with its name.
pub proof fn lemma_recursive_walk_complete(
    root: Seq<char>,
    listings: Map<Seq<char>, Seq<(Seq<char>, Seq<char>, Seq<char>)>>,
    fuel: nat,
)
    ensures
        walk_run(listings, seq![(root, Seq::<char>::empty())], seq![], seq![], fuel) matches Some(
            r,
        ) ==> {
            let listed = r.0;
            let found = r.1;
            &&& listed.len() > 0 && listed[0] == (root, Seq::<char>::empty())
            &&& found == listed_entries(listings, listed)
            &&& listed.to_multiset() == (seq![(root, Seq::<char>::empty())] + folders_of(
                found,
            )).to_multiset()
            &&& forall|i: int, k: int|
                #![trigger listed[i], listings[listed[i].0][k]]
                0 <= i < listed.len() && 0 <= k < listings[listed[i].0].len() ==> {
                    let c = listings[listed[i].0][k];
                    &&& found.contains((c.0, child_path(listed[i].1, c.1), is_folder_view(c)))
                    &&& is_folder_view(c) ==> listed.contains((c.0, child_path(listed[i].1, c.1)))
                }
        },
{
    broadcast use vstd::seq_lib::group_to_multiset_ensures;
    broadcast use vstd::multiset::group_multiset_axioms;

    let start = seq![(root, Seq::<char>::empty())];
    let l0 = Seq::<(Seq<char>, Seq<char>)>::empty();
    let f0 = Seq::<(Seq<char>, Seq<char>, bool)>::empty();
    lemma_recursive_walk(root, listings, start, l0, f0);
    lemma_walk_run_accounts(root, listings, start, l0, f0, fuel);
    if let Some(r) = walk_run(listings, start, l0, f0, fuel) {
        let listed = r.0;
        let found = r.1;
        if fuel > 0 {
            // The first step lists the root.
            reveal_with_fuel(walk_run, 2);
            lemma_walk_run_prefix(
                listings,
                seq![] + subfolders(Seq::<char>::empty(), listings[root]),
                l0.push((root, Seq::<char>::empty())),
                f0 + flat_children(Seq::<char>::empty(), listings[root]),
                (fuel - 1) as nat,
            );
            assert(l0.push((root, Seq::<char>::empty()))[0] == (root, Seq::<char>::empty()));
        }
        assert forall|i: int, k: int|
            #![trigger listed[i], listings[listed[i].0][k]]
            0 <= i < listed.len() && 0 <= k < listings[listed[i].0].len() implies {
                let c = listings[listed[i].0][k];
                &&& found.contains((c.0, child_path(listed[i].1, c.1), is_folder_view(c)))
                &&& is_folder_view(c) ==> listed.contains((c.0, child_path(listed[i].1, c.1)))
            } by {
            let c = listings[listed[i].0][k];
            let e = (c.0, child_path(listed[i].1, c.1), is_folder_view(c));
            lemma_listed_entries_member(listings, listed, i, k);
            assert(flat_children(listed[i].1, listings[listed[i].0])[k] == e);
            if is_folder_view(c) {
                let j = choose|j: int| 0 <= j < found.len() && found[j] == e;
                lemma_folders_of_member(found, j);
                let x = (c.0, child_path(listed[i].1, c.1));
                assert(folders_of(found).contains(x));
                let m = choose|m: int| 0 <= m < folders_of(found).len() && folders_of(found)[m] == x;
                assert((start + folders_of(found))[1 + m] == x);
                assert((start + folders_of(found)).contains(x));
                assert((start + folders_of(found)).to_multiset().count(x) > 0);
                assert(listed.to_multiset().count(x) > 0);
            }
        }
    }
}

/// A run of a walk keeps the folders listed before it at the front.
proof fn lemma_walk_run_prefix(
    listings: Map<Seq<char>, Seq<(Seq<char>, Seq<char>, Seq<char>)>>,
    pending: Seq<(Seq<char>, Seq<char>)>,
    listed: Seq<(Seq<char>, Seq<char>)>,
    found: Seq<(Seq<char>, Seq<char>, bool)>,
    fuel: nat,
)
    ensures
        walk_run(listings, pending, listed, found, fuel) matches Some(r) ==> r.0.len() >= listed.len()
            && r.0.take(listed.len() as int) == listed,
    decreases fuel,
{
    if pending.len() == 0 {
        assert(listed.take(listed.len() as int) =~= listed);
    } else if fuel > 0 {
        let q = pending.last();
        lemma_walk_run_prefix(
            listings,
            pending.drop_last() + subfolders(q.1, listings[q.0]),
            listed.push(q),
            found + flat_children(q.1, listings[q.0]),
            (fuel - 1) as nat,
        );
        if let Some(r) = walk_run(listings, pending, listed, found, fuel) {
            assert(r.0.take(listed.len() as int) =~= r.0.take(listed.len() + 1int).take(
                listed.len() as int,
            ));
            assert(listed.push(q).take(listed.len() as int) =~= listed);
        }
    }
}

// ── Local paths ─────────────────────────────────────────────────────

/// `Path::join` on Unix: an absolute `name` replaces `dir`; otherwise `name`
/// follows `dir`, with a `/` between them unless `dir` is empty or ends with one.
pub open spec fn join_path(dir: Seq<char>, name: Seq<char>) -> Seq<char> {
    if name.len() > 0 && name[0] == '/' {
        name
    } else if dir.len() == 0 || dir.last() == '/' {
        dir + name
    } else {
        dir + "/"@ + name
    }
}

/// `dir` joined with `name` as `Path::join` does on Unix.
pub fn join_path_text(dir: &str, name: &str) -> (r: String)
    ensures
        r@ == join_path(dir@, name@),
{
    let d = chars_of(dir);
    let n = chars_of(name);
    if n.len() > 0 && n[0] == '/' {
        name.to_string()
    } else if d.len() == 0 || d[d.len() - 1] == '/' {
        cat(dir, name)
    } else {
        cat(cat(dir, "/").as_str(), name)
    }
}

/// Where a child of a folder being downloaded goes.
#[derive(Debug, Clone)]
pub struct ChildTarget {
    /// The child's Google Drive ID.
    pub id: String,
    /// The local path: the folder's local directory joined with the child's name.
    pub local_path: String,
    /// Whether the child is a folder.
    pub is_folder: bool,
}

/// The local targets of `children` of a folder downloaded into `dir`, in order.
pub open spec fn child_targets_spec(
    dir: Seq<char>,
    children: Seq<(Seq<char>, Seq<char>, Seq<char>)>,
) -> Seq<(Seq<char>, Seq<char>, bool)> {
    children.map_values(
        |c: (Seq<char>, Seq<char>, Seq<char>)| (c.0, join_path(dir, c.1), is_folder_view(c)),
    )
}

/// A child target as `(id, local path, is folder)`.
pub open spec fn target_view(t: ChildTarget) -> (Seq<char>, Seq<char>, bool) {
    (t.id@, t.local_path@, t.is_folder)
}

/// The local targets of the children of a folder downloaded into `dir`: each
/// child's ID, `dir` joined with its name, and whether it is a folder.
pub fn child_targets(dir: &str, children: &Vec<DirEntry>) -> (r: Vec<ChildTarget>)
    ensures
        r@.map_values(|t: ChildTarget| target_view(t)) == child_targets_spec(
            dir@,
            entries_view(children@),
        ),
{
    let ghost es = entries_view(children@);
    let mut r: Vec<ChildTarget> = Vec::new();
    let mut i: usize = 0;
    while i < children.len()
        invariant
            i <= children@.len(),
            es == entries_view(children@),
            r@.map_values(|t: ChildTarget| target_view(t)) == child_targets_spec(
                dir@,
                es.take(i as int),
            ),
        decreases children.len() - i,
    {
        let c = &children[i];
        let t = ChildTarget {
            id: c.id.clone(),
            local_path: join_path_text(dir, c.name.as_str()),
            is_folder: c.is_folder(),
        };
        let ghost before = r@;
        r.push(t);
        assert(es.take(i + 1) =~= es.take(i as int).push(es[i as int]));
        assert(r@.map_values(|t: ChildTarget| target_view(t)) =~= before.map_values(
            |t: ChildTarget| target_view(t),
        ).push(target_view(t)));
        assert(child_targets_spec(dir@, es.take(i + 1)) =~= child_targets_spec(
            dir@,
            es.take(i as int),
        ).push(target_view(t)));
        i = i + 1;
    }
    assert(es.take(es.len() as int) =~= es);
    r
}

/// Checks that the entry a download prefix resolved to is a folder.
///
/// # Errors
///
/// [`Error::InvalidInput`] (`PREFIX is not a directory`) otherwise.
pub fn require_directory(prefix: &str, entry: &DirEntry) -> (r: Result<(), Error>)
    ensures
        r is Ok <==> is_folder_view(entry_view(*entry)),
        r matches Err(e) ==> e.kind() == ErrorKind::InvalidInput && e.message() == prefix@
            + " is not a directory"@,
{
    if entry.is_folder() {
        Ok(())
    } else {
        Err(Error::InvalidInput(cat(prefix, " is not a directory")))
    }
}

/// The `(id, path)` of the entries among `found` that are not folders, in order.
pub open spec fn files_of(found: Seq<(Seq<char>, Seq<char>, bool)>) -> Seq<(Seq<char>, Seq<char>)>
    decreases found.len(),
{
    if found.len() == 0 {
        seq![]
    } else {
        let rest = files_of(found.drop_last());
        let e = found.last();
        if e.2 {
            rest
        } else {
            rest.push((e.0, e.1))
        }
    }
}

/// A walk that mirrors a remote folder tree into a local directory: the
/// folders still to visit, each with the local directory it goes to.
///
/// The walk takes folders from the top of the stack; the order in which
/// folders are visited is otherwise unspecified.
pub struct MirrorWalk {
    stack: Vec<(String, String)>,
}

impl MirrorWalk {
    /// The folders still to visit, as `(id, local directory)`; the last is next.
    pub closed spec fn pending(&self) -> Seq<(Seq<char>, Seq<char>)> {
        pairs_view(self.stack@)
    }

    /// A walk that starts at the folder `folder_id`, mirrored into `dest_dir`.
    pub fn new(folder_id: &str, dest_dir: &str) -> (r: MirrorWalk)
        ensures
            r.pending() == seq![(folder_id@, dest_dir@)],
    {
        let r = MirrorWalk { stack: vec![(folder_id.to_string(), dest_dir.to_string())] };
        assert(r.pending() =~= seq![(folder_id@, dest_dir@)]);
        r
    }

    /// Takes the next folder to visit, as `(id, local directory)`; `None` when
    /// the walk is done.
    pub fn next_folder(&mut self) -> (r: Option<(String, String)>)
        ensures
            old(self).pending().len() == 0 ==> r is None && final(self).pending() == old(
                self,
            ).pending(),
            old(self).pending().len() > 0 ==> (r matches Some(p) && (p.0@, p.1@) == old(
                self,
            ).pending().last() && final(self).pending() == old(self).pending().drop_last()),
    {
        let ghost s0 = self.stack@;
        let r = self.stack.pop();
        proof {
            if s0.len() > 0 {
                assert(self.stack@ =~= s0.drop_last());
                assert(pairs_view(s0.drop_last()) =~= pairs_view(s0).drop_last());
            }
        }
        r
    }

    /// Visits the folder mirrored into `local_dir`, whose children are
    /// `children`: each subfolder is to be visited, into `local_dir` joined with
    /// its name, and the files are returned as `(id, local path)`, in order, to
    /// be downloaded.
    pub fn add_children(&mut self, local_dir: &str, children: &Vec<DirEntry>) -> (files: Vec<
        (String, String),
    >)
        ensures
            final(self).pending() == old(self).pending() + folders_of(
                child_targets_spec(local_dir@, entries_view(children@)),
            ),
            pairs_view(files@) == files_of(child_targets_spec(local_dir@, entries_view(children@))),
    {
        let targets = child_targets(local_dir, children);
        let ghost ts = child_targets_spec(local_dir@, entries_view(children@));
        let ghost p0 = self.pending();
        let mut files: Vec<(String, String)> = Vec::new();
        let mut i: usize = 0;
        while i < targets.len()
            invariant
                i <= targets@.len(),
                targets@.map_values(|t: ChildTarget| target_view(t)) == ts,
                self.pending() == p0 + folders_of(ts.take(i as int)),
                pairs_view(files@) == files_of(ts.take(i as int)),
            decreases targets.len() - i,
        {
            let t = &targets[i];
            assert(ts[i as int] == target_view(*t));
            assert(ts.take(i + 1).drop_last() =~= ts.take(i as int));
            assert(ts.take(i + 1).last() == ts[i as int]);
            let ghost sb = self.stack@;
            let ghost fb = files@;
            if t.is_folder {
                self.stack.push((t.id.clone(), t.local_path.clone()));
                assert(pairs_view(self.stack@) =~= pairs_view(sb).push((t.id@, t.local_path@)));
            } else {
                files.push((t.id.clone(), t.local_path.clone()));
                assert(pairs_view(files@) =~= pairs_view(fb).push((t.id@, t.local_path@)));
            }
            i = i + 1;
        }
        assert(ts.take(ts.len() as int) =~= ts);
        files
    }
}

/// The local targets of the children of the folders `listed`, each folder's
/// children joined to its own local directory, given the listing of every
/// folder.
pub open spec fn mirrored_targets(
    listings: Map<Seq<char>, Seq<(Seq<char>, Seq<char>, Seq<char>)>>,
    listed: Seq<(Seq<char>, Seq<char>)>,
) -> Seq<(Seq<char>, Seq<char>, bool)>
    decreases listed.len(),
{
    if listed.len() == 0 {
        seq![]
    } else {
        let f = listed.last();
        mirrored_targets(listings, listed.drop_last()) + child_targets_spec(f.1, listings[f.0])
    }
}

/// The state of a mirror of the tree at `root` into `dest`, with the folders
/// `listed` visited so far: the files handed out for download are the files
/// among the children of the visited folders, and the folders waiting and
/// visited are together the root and the subfolders met, each as often as it
/// was met.
pub open spec fn mirror_accounts(
    root: Seq<char>,
    dest: Seq<char>,
    listings: Map<Seq<char>, Seq<(Seq<char>, Seq<char>, Seq<char>)>>,
    pending: Seq<(Seq<char>, Seq<char>)>,
    listed: Seq<(Seq<char>, Seq<char>)>,
    written: Seq<(Seq<char>, Seq<char>)>,
) -> bool {
    &&& written == files_of(mirrored_targets(listings, listed))
    &&& pending.to_multiset().add(listed.to_multiset()) == (seq![(root, dest)] + folders_of(
        mirrored_targets(listings, listed),
    )).to_multiset()
}

proof fn lemma_files_of_concat(
    a: Seq<(Seq<char>, Seq<char>, bool)>,
    b: Seq<(Seq<char>, Seq<char>, bool)>,
)
    ensures
        files_of(a + b) == files_of(a) + files_of(b),
    decreases b.len(),
{
    if b.len() == 0 {
        assert(a + b =~= a);
        assert(files_of(a) + files_of(b) =~= files_of(a));
    } else {
        lemma_files_of_concat(a, b.drop_last());
        assert((a + b).drop_last() =~= a + b.drop_last());
        assert((a + b).last() == b.last());
        if !b.last().2 {
            assert(files_of(a) + files_of(b) =~= (files_of(a) + files_of(b.drop_last())).push(
                (b.last().0, b.last().1),
            ));
        }
    }
}

/// Mirroring a folder downloads every file below it exactly once.
///
/// A new mirror of the folder `root` into `dest` is accounted for. Taking the
/// next folder and visiting it with the children its listing gives (what
/// `next_folder` and `add_children` do), then downloading the files handed
/// out, keeps the mirror accounted for, with that folder now visited. So once
/// no folder waits, the files downloaded are the files among the children of
/// the visited folders, at their local paths, and the visited folders are the
/// root and every subfolder met, each exactly as often as it was met.
pub proof fn lemma_mirror_walk(
    root: Seq<char>,
    dest: Seq<char>,
    listings: Map<Seq<char>, Seq<(Seq<char>, Seq<char>, Seq<char>)>>,
    pending: Seq<(Seq<char>, Seq<char>)>,
    listed: Seq<(Seq<char>, Seq<char>)>,
    written: Seq<(Seq<char>, Seq<char>)>,
)
    ensures
        mirror_accounts(root, dest, listings, seq![(root, dest)], seq![], seq![]),
        mirror_accounts(root, dest, listings, pending, listed, written) && pending.len() > 0 ==> {
            let q = pending.last();
            let t = child_targets_spec(q.1, listings[q.0]);
            mirror_accounts(
                root,
                dest,
                listings,
                pending.drop_last() + folders_of(t),
                listed.push(q),
                written + files_of(t),
            )
        },
        mirror_accounts(root, dest, listings, seq![], listed, written) ==> written == files_of(
            mirrored_targets(listings, listed),
        ) && listed.to_multiset() == (seq![(root, dest)] + folders_of(
            mirrored_targets(listings, listed),
        )).to_multiset(),
{
    broadcast use vstd::multiset::group_multiset_axioms;
    broadcast use vstd::seq_lib::group_to_multiset_ensures;

    let r = seq![(root, dest)];
    let e0 = Seq::<(Seq<char>, Seq<char>, bool)>::empty();
    let l0 = Seq::<(Seq<char>, Seq<char>)>::empty();
    assert(mirrored_targets(listings, l0) =~= e0);
    assert(folders_of(e0) =~= l0);
    assert(files_of(e0) =~= l0);
    assert(r + folders_of(e0) =~= r);
    assert(r.to_multiset().add(l0.to_multiset()) =~= r.to_multiset());
    if mirror_accounts(root, dest, listings, pending, listed, written) && pending.len() > 0 {
        let q = pending.last();
        let t = child_targets_spec(q.1, listings[q.0]);
        let s = folders_of(t);
        let m = mirrored_targets(listings, listed);
        let p2 = pending.drop_last() + s;
        let l2 = listed.push(q);
        assert(l2.drop_last() =~= listed);
        assert(mirrored_targets(listings, l2) == m + t);
        lemma_folders_of_concat(m, t);
        lemma_files_of_concat(m, t);
        assert(r + folders_of(m + t) =~= (r + folders_of(m)) + s);
        vstd::seq_lib::lemma_multiset_commutative(r + folders_of(m), s);
        vstd::seq_lib::lemma_multiset_commutative(pending.drop_last(), s);
        assert(pending =~= pending.drop_last().push(q));
        assert(pending.to_multiset() =~= pending.drop_last().to_multiset().insert(q));
        assert(l2.to_multiset() =~= listed.to_multiset().insert(q));
        assert(p2.to_multiset().add(l2.to_multiset()) =~= pending.to_multiset().add(
            listed.to_multiset(),
        ).add(s.to_multiset()));
    }
    if mirror_accounts(root, dest, listings, seq![], listed, written) {
        let z = Seq::<(Seq<char>, Seq<char>)>::empty();
        assert(z.to_multiset().add(listed.to_multiset()) =~= listed.to_multiset());
    }
}

/// A mirror of the tree whose folder listings are `listings`, run from the
/// given state until no folder waits, visiting at most `fuel` more folders:
/// the folders visited, in order, and the files handed out for download, as
/// `(id, local path)`. `None` when more folders would be needed.
pub open spec fn mirror_run(
    listings: Map<Seq<char>, Seq<(Seq<char>, Seq<char>, Seq<char>)>>,
    pending: Seq<(Seq<char>, Seq<char>)>,
    listed: Seq<(Seq<char>, Seq<char>)>,
    written: Seq<(Seq<char>, Seq<char>)>,
    fuel: nat,
) -> Option<(Seq<(Seq<char>, Seq<char>)>, Seq<(Seq<char>, Seq<char>)>)>
    decreases fuel,
{
    if pending.len() == 0 {
        Some((listed, written))
    } else if fuel == 0 {
        None
    } else {
        let q = pending.last();
        let t = child_targets_spec(q.1, listings[q.0]);
        mirror_run(
            listings,
            pending.drop_last() + folders_of(t),
            listed.push(q),
            written + files_of(t),
            (fuel - 1) as nat,
        )
    }
}

proof fn lemma_mirror_run_accounts(
    root: Seq<char>,
    dest: Seq<char>,
    listings: Map<Seq<char>, Seq<(Seq<char>, Seq<char>, Seq<char>)>>,
    pending: Seq<(Seq<char>, Seq<char>)>,
    listed: Seq<(Seq<char>, Seq<char>)>,
    written: Seq<(Seq<char>, Seq<char>)>,
    fuel: nat,
)
    requires
        mirror_accounts(root, dest, listings, pending, listed, written),
    ensures
        mirror_run(listings, pending, listed, written, fuel) matches Some(r) ==> mirror_accounts(
            root,
            dest,
            listings,
            seq![],
            r.0,
            r.1,
        ) && r.0.len() >= listed.len() && r.0.take(listed.len() as int) == listed,
    decreases fuel,
{
    if pending.len() == 0 {
        assert(pending =~= Seq::<(Seq<char>, Seq<char>)>::empty());
        assert(listed.take(listed.len() as int) =~= listed);
    } else if fuel > 0 {
        let q = pending.last();
        let t = child_targets_spec(q.1, listings[q.0]);
        lemma_mirror_walk(root, dest, listings, pending, listed, written);
        lemma_mirror_run_accounts(
            root,
            dest,
            listings,
            pending.drop_last() + folders_of(t),
            listed.push(q),
            written + files_of(t),
            (fuel - 1) as nat,
        );
        if let Some(r) = mirror_run(listings, pending, listed, written, fuel) {
            assert(r.0.take(listed.len() as int) =~= r.0.take(listed.len() + 1int).take(
                listed.len() as int,
            ));
            assert(listed.push(q).take(listed.len() as int) =~= listed);
        }
    }
}

proof fn lemma_mirrored_targets_member(
    listings: Map<Seq<char>, Seq<(Seq<char>, Seq<char>, Seq<char>)>>,
    listed: Seq<(Seq<char>, Seq<char>)>,
    i: int,
    k: int,
)
    requires
        0 <= i < listed.len(),
        0 <= k < listings[listed[i].0].len(),
    ensures
        mirrored_targets(listings, listed).contains(
            child_targets_spec(listed[i].1, listings[listed[i].0])[k],
        ),
    decreases listed.len(),
{
    let d = listed.drop_last();
    let c = child_targets_spec(listed.last().1, listings[listed.last().0]);
    let e = mirrored_targets(listings, d);
    if i < listed.len() - 1 {
        assert(listed[i] == d[i]);
        lemma_mirrored_targets_member(listings, d, i, k);
        let j = choose|j: int|
            0 <= j < e.len() && e[j] == child_targets_spec(d[i].1, listings[d[i].0])[k];
        assert((e + c)[j] == e[j]);
    } else {
        assert((e + c)[e.len() + k] == c[k]);
    }
}

proof fn lemma_files_of_member(found: Seq<(Seq<char>, Seq<char>, bool)>, j: int)
    requires
        0 <= j < found.len(),
        !found[j].2,
    ensures
        files_of(found).contains((found[j].0, found[j].1)),
    decreases found.len(),
{
    let d = found.drop_last();
    if j < found.len() - 1 {
        assert(found[j] == d[j]);
        lemma_files_of_member(d, j);
        let m = choose|m: int| 0 <= m < files_of(d).len() && files_of(d)[m] == (d[j].0, d[j].1);
        if !found.last().2 {
            assert(files_of(found)[m] == files_of(d)[m]);
        }
    } else {
        assert(files_of(found).last() == (found[j].0, found[j].1));
    }
}

/// Mirroring a folder, run to its end from `MirrorWalk::new(root, dest)`,
/// downloads every file of the tree below it exactly once, to its place.
///
/// The folders visited start with the root, mirrored into `dest`, and every
/// subfolder of a visited folder is visited too, into that folder's directory
/// joined with its name; each folder is visited exactly once for each time it
/// was met (the root once). The files handed out are the files among the
/// children of the visited folders, each listing taken once, each file at its
/// folder's directory joined with its name.
pub proof fn lemma_mirror_walk_complete(
    root: Seq<char>,
    dest: Seq<char>,
    listings: Map<Seq<char>, Seq<(Seq<char>, Seq<char>, Seq<char>)>>,
    fuel: nat,
)
    ensures
        mirror_run(listings, seq![(root, dest)], seq![], seq![], fuel) matches Some(r) ==> {
            let listed = r.0;
            let written = r.1;
            &&& listed.len() > 0 && listed[0] == (root, dest)
            &&& written == files_of(mirrored_targets(listings, listed))
            &&& listed.to_multiset() == (seq![(root, dest)] + folders_of(
                mirrored_targets(listings, listed),
            )).to_multiset()
            &&& forall|i: int, k: int|
                #![trigger listed[i], listings[listed[i].0][k]]
                0 <= i < listed.len() && 0 <= k < listings[listed[i].0].len() ==> {
                    let c = listings[listed[i].0][k];
                    &&& !is_folder_view(c) ==> written.contains((c.0, join_path(listed[i].1, c.1)))
                    &&& is_folder_view(c) ==> listed.contains((c.0, join_path(listed[i].1, c.1)))
                }
        },
{
    broadcast use vstd::seq_lib::group_to_multiset_ensures;
    broadcast use vstd::multiset::group_multiset_axioms;

    let start = seq![(root, dest)];
    let l0 = Seq::<(Seq<char>, Seq<char>)>::empty();
    let w0 = Seq::<(Seq<char>, Seq<char>)>::empty();
    lemma_mirror_walk(root, dest, listings, start, l0, w0);
    if fuel > 0 {
        let t = child_targets_spec(dest, listings[root]);
        let p1 = start.drop_last() + folders_of(t);
        let l1 = l0.push((root, dest));
        let w1 = w0 + files_of(t);
        lemma_mirror_walk(root, dest, listings, start, l0, w0);
        lemma_mirror_run_accounts(root, dest, listings, p1, l1, w1, (fuel - 1) as nat);
        assert(mirror_run(listings, start, l0, w0, fuel) == mirror_run(
            listings,
            p1,
            l1,
            w1,
            (fuel - 1) as nat,
        ));
        if let Some(r) = mirror_run(listings, start, l0, w0, fuel) {
            let listed = r.0;
            let written = r.1;
            let m = mirrored_targets(listings, listed);
            assert(listed[0] == l1.take(1)[0]);
            assert forall|i: int, k: int|
                #![trigger listed[i], listings[listed[i].0][k]]
                0 <= i < listed.len() && 0 <= k < listings[listed[i].0].len() implies {
                    let c = listings[listed[i].0][k];
                    &&& !is_folder_view(c) ==> written.contains((c.0, join_path(listed[i].1, c.1)))
                    &&& is_folder_view(c) ==> listed.contains((c.0, join_path(listed[i].1, c.1)))
                } by {
                let c = listings[listed[i].0][k];
                let e = (c.0, join_path(listed[i].1, c.1), is_folder_view(c));
                let x = (c.0, join_path(listed[i].1, c.1));
                lemma_mirrored_targets_member(listings, listed, i, k);
                assert(child_targets_spec(listed[i].1, listings[listed[i].0])[k] == e);
                let j = choose|j: int| 0 <= j < m.len() && m[j] == e;
                if is_folder_view(c) {
                    lemma_folders_of_member(m, j);
                    let n = choose|n: int| 0 <= n < folders_of(m).len() && folders_of(m)[n] == x;
                    assert((start + folders_of(m))[1 + n] == x);
                    assert((start + folders_of(m)).contains(x));
                    assert((start + folders_of(m)).to_multiset().count(x) > 0);
                    assert(listed.to_multiset().count(x) > 0);
                } else {
                    lemma_files_of_member(m, j);
                }
            }
        }
    }
}

// ── Planning a folder download ──────────────────────────────────────

/// The folder URL of a folder ID.
pub fn folder_url_for_id(id: &String) -> (r: String)
    ensures
        r@ == "https://drive.google.com/drive/folders/"@ + id@,
{
    cat("https://drive.google.com/drive/folders/", id.as_str())
}

/// The number of files (entries that are not folders) among `entries`.
pub open spec fn file_count(entries: Seq<(Seq<char>, Seq<char>, bool)>) -> nat
    decreases entries.len(),
{
    if entries.len() == 0 {
        0
    } else {
        file_count(entries.drop_last()) + if entries.last().2 {
            0nat
        } else {
            1nat
        }
    }
}

proof fn lemma_file_count_bound(entries: Seq<(Seq<char>, Seq<char>, bool)>)
    ensures
        file_count(entries) <= entries.len(),
    decreases entries.len(),
{
    if entries.len() > 0 {
        lemma_file_count_bound(entries.drop_last());
    }
}

fn count_files(entries: &Vec<FlatEntry>) -> (n: usize)
    ensures
        n == file_count(flats_view(entries@)),
{
    let ghost fv = flats_view(entries@);
    let mut n: usize = 0;
    let mut i: usize = 0;
    while i < entries.len()
        invariant
            i <= entries@.len(),
            fv == flats_view(entries@),
            n == file_count(fv.take(i as int)),
            n <= i,
        decreases entries.len() - i,
    {
        assert(fv.take(i + 1).drop_last() =~= fv.take(i as int));
        assert(fv.take(i + 1).last() == flat_view(entries@[i as int]));
        if !entries[i].is_folder {
            n = n + 1;
        }
        i = i + 1;
    }
    assert(fv.take(fv.len() as int) =~= fv);
    n
}

/// Checks the number of files of a recursive listing against [`MAX_FILES`].
///
/// # Errors
///
/// [`Error::FolderLimit`] when there are `MAX_FILES` files or more and
/// `ignore_file_limit` is not set.
pub fn check_file_limit(entries: &Vec<FlatEntry>, ignore_file_limit: bool) -> (r: Result<(), Error>)
    ensures
        r is Ok <==> (ignore_file_limit || file_count(flats_view(entries@)) < 50),
        r matches Err(e) ==> e.kind() == ErrorKind::FolderLimit && e.message() == "folder has "@
            + decimal_digits(file_count(flats_view(entries@))) + " files (limit is 50); use --ignore-file-limit to override"@,
{
    if ignore_file_limit {
        return Ok(());
    }
    let n = count_files(entries);
    if n >= MAX_FILES {
        let m = cat("folder has ", decimal_text(n as u64).as_str());
        return Err(
            Error::FolderLimit(
                cat(m.as_str(), " files (limit is 50); use --ignore-file-limit to override"),
            ),
        );
    }
    Ok(())
}

/// Checks the number of files of a recursive listing against
/// [`MAX_NUMBER_FILES`].
///
/// # Errors
///
/// [`Error::FolderLimit`] when there are `MAX_NUMBER_FILES` files or more and
/// `remaining_ok` is not set.
pub fn check_number_of_files(entries: &Vec<FlatEntry>, remaining_ok: bool) -> (r: Result<(), Error>)
    ensures
        r is Ok <==> (remaining_ok || file_count(flats_view(entries@)) < 50),
        r matches Err(e) ==> e.kind() == ErrorKind::FolderLimit && e.message()
            == "The gdrive folder has more than 50 files, gdrive can't download more than this limit."@,
{
    if remaining_ok {
        return Ok(());
    }
    let n = count_files(entries);
    if n >= MAX_NUMBER_FILES {
        return Err(
            Error::FolderLimit(
                "The gdrive folder has more than 50 files, gdrive can't download more than this limit.".to_string(),
            ),
        );
    }
    Ok(())
}

/// The local root of a folder download: the output (`./` by default) joined
/// with the root folder ID when it ends with `/`, otherwise the output itself.
pub open spec fn download_root(output: Option<Seq<char>>, root_id: Seq<char>) -> Seq<char> {
    let out = match output {
        Some(o) => o,
        None => "./"@,
    };
    if out.len() > 0 && out.last() == '/' {
        join_path(out, root_id)
    } else {
        out
    }
}

/// The local root directory of a folder download.
pub fn download_root_dir(output: Option<&str>, root_id: &str) -> (r: String)
    ensures
        r@ == download_root(
            match output {
                Some(o) => Some(o@),
                None => None,
            },
            root_id@,
        ),
{
    let out = match output {
        Some(o) => o.to_string(),
        None => "./".to_string(),
    };
    let v = chars_of(out.as_str());
    proof {
        reveal_strlit("./");
    }
    if v.len() > 0 && v[v.len() - 1] == '/' {
        join_path_text(out.as_str(), root_id)
    } else {
        out
    }
}

/// The download URL of a file in a folder: `https://drive.google.com/uc?id=ID`,
/// with `&resourcekey=KEY` when the folder URL had one.
pub open spec fn folder_file_url(id: Seq<char>, key: Option<Seq<char>>) -> Seq<char> {
    let base = "https://drive.google.com/uc?id="@ + id;
    match key {
        Some(k) => base + "&resourcekey="@ + k,
        None => base,
    }
}

/// The download URL of a file in a folder.
pub fn folder_file_url_text(id: &str, resource_key: Option<&str>) -> (r: String)
    ensures
        r@ == folder_file_url(
            id@,
            match resource_key {
                Some(k) => Some(k@),
                None => None,
            },
        ),
{
    let base = cat("https://drive.google.com/uc?id=", id);
    match resource_key {
        Some(k) => cat(cat(base.as_str(), "&resourcekey=").as_str(), k),
        None => base,
    }
}

/// What a folder download does for one entry of the recursive listing.
#[derive(Debug)]
pub enum EntryTask {
    /// Create the local directory of a folder.
    MakeDir { local_path: String },
    /// Download a file from `url` to `local_path` (skipped when resuming and the
    /// file is already there).
    Download { id: String, url: String, local_path: String },
}

/// An entry task seen through views: `(is a directory, id, url, local path)`.
pub open spec fn task_view(t: EntryTask) -> (bool, Seq<char>, Seq<char>, Seq<char>) {
    match t {
        EntryTask::MakeDir { local_path } => (true, Seq::empty(), Seq::empty(), local_path@),
        EntryTask::Download { id, url, local_path } => (false, id@, url@, local_path@),
    }
}

/// The task for one listing entry of a folder downloaded into `root`.
pub open spec fn entry_task(
    e: (Seq<char>, Seq<char>, bool),
    root: Seq<char>,
    key: Option<Seq<char>>,
) -> (bool, Seq<char>, Seq<char>, Seq<char>) {
    if e.2 {
        (true, Seq::empty(), Seq::empty(), join_path(root, e.1))
    } else {
        (false, e.0, folder_file_url(e.0, key), join_path(root, e.1))
    }
}

/// The tasks of a folder download, one for each listing entry, in order.
pub fn plan_entry_tasks(entries: &Vec<FlatEntry>, root_dir: &str, resource_key: Option<&str>) -> (r:
    Vec<EntryTask>)
    ensures
        r@.len() == entries@.len(),
        forall|i: int|
            0 <= i < r@.len() ==> plan_task_shape(
                #[trigger] task_view(r@[i]),
                flat_view(entries@[i]),
                root_dir@,
                match resource_key {
                    Some(k) => Some(k@),
                    None => None,
                },
            ),
        forall|i: int|
            0 <= i < r@.len() ==> task_view(#[trigger] r@[i]) == entry_task(
                flat_view(entries@[i]),
                root_dir@,
                match resource_key {
                    Some(k) => Some(k@),
                    None => None,
                },
            ),
{
    let mut r: Vec<EntryTask> = Vec::new();
    let mut i: usize = 0;
    while i < entries.len()
        invariant
            i <= entries@.len(),
            r@.len() == i,
            forall|j: int|
                0 <= j < i ==> task_view(#[trigger] r@[j]) == entry_task(
                    flat_view(entries@[j]),
                    root_dir@,
                    match resource_key {
                        Some(k) => Some(k@),
                        None => None,
                    },
                ),
        decreases entries.len() - i,
    {
        let e = &entries[i];
        let local_path = join_path_text(root_dir, e.path.as_str());
        if e.is_folder {
            r.push(EntryTask::MakeDir { local_path });
        } else {
            r.push(
                EntryTask::Download {
                    id: e.id.clone(),
                    url: folder_file_url_text(e.id.as_str(), resource_key),
                    local_path,
                },
            );
        }
        i = i + 1;
    }
    proof {
        assert forall|j: int| 0 <= j < r@.len() implies plan_task_shape(
            #[trigger] task_view(r@[j]),
            flat_view(entries@[j]),
            root_dir@,
            match resource_key {
                Some(k) => Some(k@),
                None => None,
            },
        ) by {
            lemma_entry_task_shape(
                flat_view(entries@[j]),
                root_dir@,
                match resource_key {
                    Some(k) => Some(k@),
                    None => None,
                },
            );
        }
    }
    r
}

/// What the task for listing entry `e` (`(id, path, is folder)`) of a folder
/// downloaded into `root` must be: a folder makes its directory; a file is
/// downloaded by ID from `https://drive.google.com/uc?id=ID`, followed by
/// `&resourcekey=KEY` exactly when the folder came with a resource key; either
/// goes to `root` joined with the entry's path.
pub open spec fn plan_task_shape(
    t: (bool, Seq<char>, Seq<char>, Seq<char>),
    e: (Seq<char>, Seq<char>, bool),
    root: Seq<char>,
    key: Option<Seq<char>>,
) -> bool {
    &&& t.0 == e.2
    &&& t.3 == join_path(root, e.1)
    &&& !e.2 ==> t.1 == e.0 && match key {
        None => t.2 == "https://drive.google.com/uc?id="@ + e.0,
        Some(k) => t.2 == "https://drive.google.com/uc?id="@ + e.0 + "&resourcekey="@ + k,
    }
}

/// Every task of a folder plan has the shape [`plan_task_shape`] describes: the
/// direct-download URL of the file's ID, with the folder's resource key exactly
/// when there is one.
pub proof fn lemma_entry_task_shape(
    e: (Seq<char>, Seq<char>, bool),
    root: Seq<char>,
    key: Option<Seq<char>>,
)
    ensures
        entry_task(e, root, key).0 == e.2,
        entry_task(e, root, key).3 == join_path(root, e.1),
        !e.2 ==> entry_task(e, root, key).1 == e.0,
        !e.2 && key is None ==> entry_task(e, root, key).2 == "https://drive.google.com/uc?id="@
            + e.0,
        !e.2 && key is Some ==> entry_task(e, root, key).2 == "https://drive.google.com/uc?id="@
            + e.0 + "&resourcekey="@ + key->0,
        plan_task_shape(entry_task(e, root, key), e, root, key),
{
}

/// The error for a file of a folder whose download produced no output.
pub fn missing_file_error(entry: &FlatEntry) -> (e: Error)
    ensures
        e.kind() == ErrorKind::FileUrlRetrieval,
        e.message() == "download failed for file "@ + entry.path@ + " ("@ + entry.id@ + ")"@,
{
    let a = cat("download failed for file ", entry.path.as_str());
    let b = cat(cat(a.as_str(), " (").as_str(), entry.id.as_str());
    Error::FileUrlRetrieval(cat(b.as_str(), ")"))
}

// ── Folder trees ────────────────────────────────────────────────────

/// A file or folder in Google Drive, with the children of a folder.
#[derive(Debug)]
pub struct GoogleDriveFile {
    pub id: String,
    pub name: String,
    pub file_type: String,
    pub children: Vec<GoogleDriveFile>,
}

impl GoogleDriveFile {
    /// A file or folder without children.
    pub fn new(id: String, name: String, file_type: String) -> (f: GoogleDriveFile)
        ensures
            f.id == id,
            f.name == name,
            f.file_type == file_type,
            f.children@.len() == 0,
    {
        GoogleDriveFile { id, name, file_type, children: Vec::new() }
    }

    /// Whether this is a folder (its type is the folder MIME type).
    pub fn is_folder(&self) -> (b: bool)
        ensures
            b == (self.file_type@ == folder_mime()),
    {
        is_folder_mime(&self.file_type)
    }
}

/// A file to download from Google Drive, as a dry run lists it.
#[derive(Debug, Clone)]
pub struct GoogleDriveFileToDownload {
    pub id: String,
    pub path: String,
    pub local_path: String,
}

/// The result of a folder download.
#[derive(Debug)]
pub enum DownloadFolderResult {
    /// The local file paths that were downloaded.
    Downloaded(Vec<String>),
    /// The files that would be downloaded (dry run).
    DryRun(Vec<GoogleDriveFileToDownload>),
}

/// The files of a dry run: each file (not folder) of the listing with its path
/// and its local path below `root`, in order.
pub open spec fn dry_run_spec(entries: Seq<(Seq<char>, Seq<char>, bool)>, root: Seq<char>) -> Seq<
    (Seq<char>, Seq<char>, Seq<char>),
>
    decreases entries.len(),
{
    if entries.len() == 0 {
        seq![]
    } else {
        let rest = dry_run_spec(entries.drop_last(), root);
        let e = entries.last();
        if e.2 {
            rest
        } else {
            rest.push((e.0, e.1, join_path(root, e.1)))
        }
    }
}

/// A file to download as `(id, path, local path)`.
pub open spec fn to_download_view(f: GoogleDriveFileToDownload) -> (Seq<char>, Seq<char>, Seq<char>) {
    (f.id@, f.path@, f.local_path@)
}

/// The files a dry run of a folder download into `root_dir` lists.
pub fn dry_run_files(entries: &Vec<FlatEntry>, root_dir: &str) -> (r: Vec<GoogleDriveFileToDownload>)
    ensures
        r@.map_values(|f: GoogleDriveFileToDownload| to_download_view(f)) == dry_run_spec(
            flats_view(entries@),
            root_dir@,
        ),
{
    let ghost fv = flats_view(entries@);
    let mut r: Vec<GoogleDriveFileToDownload> = Vec::new();
    let mut i: usize = 0;
    while i < entries.len()
        invariant
            i <= entries@.len(),
            fv == flats_view(entries@),
            r@.map_values(|f: GoogleDriveFileToDownload| to_download_view(f)) == dry_run_spec(
                fv.take(i as int),
                root_dir@,
            ),
        decreases entries.len() - i,
    {
        assert(fv.take(i + 1).drop_last() =~= fv.take(i as int));
        assert(fv.take(i + 1).last() == flat_view(entries@[i as int]));
        let e = &entries[i];
        if !e.is_folder {
            let f = GoogleDriveFileToDownload {
                id: e.id.clone(),
                path: e.path.clone(),
                local_path: join_path_text(root_dir, e.path.as_str()),
            };
            let ghost before = r@;
            r.push(f);
            assert(r@.map_values(|f: GoogleDriveFileToDownload| to_download_view(f))
                =~= before.map_values(|f: GoogleDriveFileToDownload| to_download_view(f)).push(
                to_download_view(f),
            ));
        }
        i = i + 1;
    }
    assert(fv.take(fv.len() as int) =~= fv);
    r
}

/// Resolves a folder URL-or-ID pair, requiring exactly one of them.
///
/// # Errors
///
/// [`Error::InvalidInput`] (`Either url or id has to be specified`) when both or
/// neither are given.
pub fn folder_url_or_id(url: &Option<String>, id: &Option<String>) -> (r: Result<String, Error>)
    ensures
        (id is Some && url is None) ==> (r matches Ok(v) && v@
            == "https://drive.google.com/drive/folders/"@ + id->0@),
        (id is None && url is Some) ==> (r matches Ok(v) && v@ == url->0@),
        (id is Some) == (url is Some) ==> (r matches Err(e) && e.kind() == ErrorKind::InvalidInput
            && e.message() == "Either url or id has to be specified"@),
{
    match (id, url) {
        (Some(i), None) => Ok(folder_url_for_id(i)),
        (None, Some(u)) => Ok(u.clone()),
        _ => Err(Error::InvalidInput("Either url or id has to be specified".to_string())),
    }
}

/// The wording of [`parse_google_drive_file`].
pub open spec fn drive_file_wording() -> PageWording {
    PageWording {
        selector: "Failed to parse selector: "@,
        no_listing: "Cannot retrieve the folder information from the link. You may need to change the permission to 'Anyone with the link', or have had many accesses. Check FAQ in https://github.com/wkentaro/gdown?tab=readme-ov-file#faq."@,
        no_name: "file/folder name cannot be extracted from: "@,
    }
}

/// Children as `(id, name, type)` triples of strings.
pub open spec fn triples_view(s: Seq<(String, String, String)>) -> Seq<(Seq<char>, Seq<char>, Seq<char>)> {
    s.map_values(|t: (String, String, String)| (t.0@, t.1@, t.2@))
}

/// Extracts information about a folder page and its children.
///
/// Returns the folder, as a [`GoogleDriveFile`] without children, and the
/// `(id, name, type)` of each of its direct children.
///
/// # Errors
///
/// Returns an error if the page does not hold the embedded folder listing, if
/// the listing is not JSON, or if the folder name cannot be read from the title.
pub fn parse_google_drive_file(url: &str, content: &str) -> (r: Result<
    (GoogleDriveFile, Vec<(String, String, String)>),
    Error,
>)
    ensures
        match r {
            Ok((f, cs)) => folder_page_with(url@, content@, drive_file_wording()) == Ok::<
                (Seq<char>, Seq<char>, Seq<(Seq<char>, Seq<char>, Seq<char>)>),
                (ErrorKind, Seq<char>),
            >((f.id@, f.name@, triples_view(cs@))) && f.file_type@ == folder_mime()
                && f.children@.len() == 0,
            Err(e) => folder_page_with(url@, content@, drive_file_wording()) == Err::<
                (Seq<char>, Seq<char>, Seq<(Seq<char>, Seq<char>, Seq<char>)>),
                (ErrorKind, Seq<char>),
            >((e.kind(), e.message())),
        },
{
    let page = read_folder_page(
        url,
        content,
        "Failed to parse selector: ",
        "Cannot retrieve the folder information from the link. You may need to change the permission to 'Anyone with the link', or have had many accesses. Check FAQ in https://github.com/wkentaro/gdown?tab=readme-ov-file#faq.",
        "file/folder name cannot be extracted from: ",
    )?;
    let mut cs: Vec<(String, String, String)> = Vec::new();
    let mut i: usize = 0;
    while i < page.children.len()
        invariant
            i <= page.children@.len(),
            triples_view(cs@) == page.children@.take(i as int).map_values(
                |c: FolderChild| child_view(c),
            ),
        decreases page.children.len() - i,
    {
        let c = &page.children[i];
        let t = (c.id.clone(), c.name.clone(), c.mime_type.clone());
        let ghost before = cs@;
        cs.push(t);
        assert(page.children@.take(i + 1) =~= page.children@.take(i as int).push(
            page.children@[i as int],
        ));
        assert(triples_view(cs@) =~= triples_view(before).push((t.0@, t.1@, t.2@)));
        assert(page.children@.take(i + 1).map_values(|c: FolderChild| child_view(c))
            =~= page.children@.take(i as int).map_values(|c: FolderChild| child_view(c)).push(
            child_view(page.children@[i as int]),
        ));
        i = i + 1;
    }
    assert(page.children@.take(page.children@.len() as int) =~= page.children@);
    let f = GoogleDriveFile::new(
        page.folder_id,
        page.folder_name,
        "application/vnd.google-apps.folder".to_string(),
    );
    Ok((f, cs))
}

/// A name made safe as one path component: every `/` becomes `_`.
pub open spec fn safe_component(name: Seq<char>) -> Seq<char> {
    replace_all(name, "/"@, "_"@)
}

/// An entry of a directory structure as `(file ID, or none for a directory;
/// relative path)`.
pub open spec fn structure_view(e: (Option<String>, String)) -> (Option<Seq<char>>, Seq<char>) {
    (opt_view(e.0), e.1@)
}

/// The local directory structure of `files` (siblings) below `prev`: each folder
/// as a directory entry followed by its own structure, each childless file with
/// its ID; a file with children is left out.
pub open spec fn forest_structure(files: Seq<GoogleDriveFile>, prev: Seq<char>) -> Seq<
    (Option<Seq<char>>, Seq<char>),
>
    decreases files,
{
    if files.len() == 0 {
        seq![]
    } else {
        let f = files.last();
        let path = child_path(prev, safe_component(f.name@));
        let before = forest_structure(files.drop_last(), prev);
        if f.file_type@ == folder_mime() {
            proof {
                assert(decreases_to!(files => files[files.len() - 1]));
                assert(decreases_to!(f => f.children));
            }
            before.push((None, path)) + forest_structure(f.children@, path)
        } else if f.children@.len() == 0 {
            before.push((Some(f.id@), path))
        } else {
            before
        }
    }
}

fn structure_into(files: &Vec<GoogleDriveFile>, prev: &str, out: &mut Vec<(Option<String>, String)>)
    ensures
        final(out)@.map_values(|e: (Option<String>, String)| structure_view(e)) == old(out)@.map_values(
            |e: (Option<String>, String)| structure_view(e),
        ) + forest_structure(files@, prev@),
    decreases files@,
{
    let ghost out0 = out@.map_values(|e: (Option<String>, String)| structure_view(e));
    let prev_empty = chars_of(prev).len() == 0;
    let slash = chars_of("/");
    let underscore = chars_of("_");
    proof {
        reveal_strlit("/");
    }
    let mut i: usize = 0;
    assert(files@.take(0) =~= Seq::<GoogleDriveFile>::empty());
    assert(out0 + forest_structure(Seq::<GoogleDriveFile>::empty(), prev@) =~= out0);
    while i < files.len()
        invariant
            i <= files@.len(),
            prev_empty == (prev@.len() == 0),
            slash@ == "/"@,
            slash@.len() == 1,
            underscore@ == "_"@,
            out@.map_values(|e: (Option<String>, String)| structure_view(e)) == out0
                + forest_structure(files@.take(i as int), prev@),
        decreases files.len() - i,
    {
        let f = &files[i];
        let safe = replace_chars(chars_of(f.name.as_str()).as_slice(), slash.as_slice(), underscore.as_slice());
        let safe_text = string_from_chars(safe.as_slice());
        let path = if prev_empty {
            safe_text
        } else {
            cat(cat(prev, "/").as_str(), safe_text.as_str())
        };
        assert(path@ == child_path(prev@, safe_component(f.name@)));
        assert(files@.take(i + 1).drop_last() =~= files@.take(i as int));
        assert(files@.take(i + 1).last() == files@[i as int]);
        let ghost before = out@.map_values(|e: (Option<String>, String)| structure_view(e));
        if f.is_folder() {
            out.push((None, path.clone()));
            assert(out@.map_values(|e: (Option<String>, String)| structure_view(e)) =~= before.push(
                (None, path@),
            ));
            proof {
                assert(decreases_to!(files@ => files@[i as int]));
                assert(decreases_to!(files@[i as int] => files@[i as int].children));
            }
            structure_into(&f.children, path.as_str(), out);
            assert(out0 + forest_structure(files@.take(i + 1), prev@) =~= out0 + forest_structure(
                files@.take(i as int),
                prev@,
            ).push((None, path@)) + forest_structure(f.children@, path@));
        } else if f.children.len() == 0 {
            out.push((Some(f.id.clone()), path));
            assert(out@.map_values(|e: (Option<String>, String)| structure_view(e)) =~= before.push(
                (Some(f.id@), path@),
            ));
            assert(out0 + forest_structure(files@.take(i + 1), prev@) =~= out0 + forest_structure(
                files@.take(i as int),
                prev@,
            ).push((Some(f.id@), path@)));
        }
        i = i + 1;
    }
    assert(files@.take(files@.len() as int) =~= files@);
}

/// Converts a Google Drive folder tree into a local directory list below
/// `previous_path`: `(None, path)` for each folder, `(Some(id), path)` for each
/// file; names have `/` replaced by `_`.
pub fn get_directory_structure(gdrive_file: &GoogleDriveFile, previous_path: &str) -> (r: Vec<
    (Option<String>, String),
>)
    ensures
        r@.map_values(|e: (Option<String>, String)| structure_view(e)) == forest_structure(
            gdrive_file.children@,
            previous_path@,
        ),
{
    let mut out: Vec<(Option<String>, String)> = Vec::new();
    structure_into(&gdrive_file.children, previous_path, &mut out);
    assert(out@.map_values(|e: (Option<String>, String)| structure_view(e)) =~= forest_structure(
        gdrive_file.children@,
        previous_path@,
    ));
    out
}

/// A dry run lists exactly as many files as the file limit counts.
pub proof fn lemma_dry_run_lists_every_file(entries: Seq<(Seq<char>, Seq<char>, bool)>, root: Seq<char>)
    ensures
        dry_run_spec(entries, root).len() == file_count(entries),
    decreases entries.len(),
{
    if entries.len() > 0 {
        lemma_dry_run_lists_every_file(entries.drop_last(), root);
    }
}

} // verus!
