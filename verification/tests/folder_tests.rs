use gdown::download_folder::{
    check_file_limit, check_number_of_files, child_targets, download_root_dir, dry_run_files,
    folder_file_url_text, folder_url_for_id, folder_url_or_id, get_directory_structure,
    join_path_text, missing_file_error, parse_google_drive_file, plan_entry_tasks,
    require_directory, DirEntry, DriveFolder, EntryTask, FetchStep, FlatEntry, FolderCache,
    GoogleDriveFile, MirrorWalk, RecursiveListing, ResolveStep, MAX_FILES, MAX_NUMBER_FILES,
};
use gdown::error::Error;
use gdown::parse::FolderChild;

const FOLDER: &str = "application/vnd.google-apps.folder";

fn entry(id: &str, name: &str, mime: &str) -> DirEntry {
    DirEntry { id: id.to_string(), name: name.to_string(), mime_type: mime.to_string() }
}

fn flat(id: &str, path: &str, is_folder: bool) -> FlatEntry {
    FlatEntry { id: id.to_string(), path: path.to_string(), is_folder }
}

#[test]
fn dir_entry_is_folder_by_mime_type() {
    assert!(entry("a", "docs", FOLDER).is_folder());
    assert!(!entry("b", "x.txt", "text/plain").is_folder());
    let from_child: DirEntry = FolderChild {
        id: "c".to_string(),
        name: "n".to_string(),
        mime_type: FOLDER.to_string(),
    }
    .into();
    assert_eq!(from_child.id, "c");
    assert!(from_child.is_folder());
}

#[test]
fn folder_cache_returns_what_was_recorded() {
    let mut cache = FolderCache::new();
    assert!(cache.get("root").is_none());
    cache.insert("root", &vec![entry("1", "a", "text/plain")]);
    cache.insert("other", &vec![]);
    let got = cache.get("root").unwrap();
    assert_eq!(got.len(), 1);
    assert_eq!(got[0].name, "a");
    cache.insert("root", &vec![entry("2", "b", FOLDER), entry("3", "c", "x")]);
    let got = cache.get("root").unwrap();
    assert_eq!(got.iter().map(|e| e.id.as_str()).collect::<Vec<_>>(), vec!["2", "3"]);
    assert!(cache.get("other").unwrap().is_empty());
}

#[test]
fn drive_folder_open_reads_id_and_key() {
    let f = DriveFolder::open("https://drive.google.com/drive/folders/ABC?resourcekey=KEY&x=1")
        .unwrap();
    assert_eq!(f.root_id(), "ABC");
    let fetch = f.start_fetch("ABC");
    assert_eq!(
        fetch.request_url(),
        "https://drive.google.com/drive/folders/ABC?resourcekey=KEY&hl=en"
    );
    let plain = DriveFolder::open("https://drive.google.com/drive/folders/XYZ").unwrap();
    assert_eq!(
        plain.start_fetch("XYZ").request_url(),
        "https://drive.google.com/drive/folders/XYZ?hl=en"
    );
}

#[test]
fn drive_folder_open_rejects_bad_urls() {
    match DriveFolder::open("https://drive.google.com/drive/folders/") {
        Err(Error::InvalidInput(m)) => assert_eq!(
            m,
            "cannot extract folder ID from URL: https://drive.google.com/drive/folders/"
        ),
        other => panic!("unexpected: {:?}", other.map(|f| f.root_id().to_string())),
    }
    match DriveFolder::open("not a url") {
        Err(Error::InvalidInput(m)) => assert!(m.starts_with("invalid folder URL: ")),
        other => panic!("unexpected: {:?}", other.map(|f| f.root_id().to_string())),
    }
}

#[test]
fn drive_folder_caches_listings() {
    let mut f = DriveFolder::open("https://drive.google.com/drive/folders/R").unwrap();
    assert!(f.cached("R").is_none());
    f.remember("R", &vec![entry("1", "a", "text/plain")]);
    assert_eq!(f.cached("R").unwrap()[0].id, "1");
    assert_eq!(f.root_id(), "R");
}

#[test]
fn listing_fetch_reports_http_errors_and_retries_once() {
    let f = DriveFolder::open("https://drive.google.com/drive/folders/R").unwrap();
    match f.start_fetch("R").on_page(404, "404 Not Found", "https://drive.google.com/x", "") {
        Err(Error::Parse(m)) => assert_eq!(m, "folder listing returned HTTP 404 Not Found"),
        _ => panic!("expected an HTTP error"),
    }
    let fetch = f.start_fetch("R");
    // A Drive listing page without the embedded listing does not parse.
    let step = fetch.on_page(200, "200 OK", "https://drive.google.com/x", "<html></html>");
    assert!(matches!(step, Err(Error::Parse(_))));
}

#[test]
fn resolve_walks_components() {
    let f = DriveFolder::open("https://drive.google.com/drive/folders/ROOT").unwrap();
    assert!(matches!(f.start_resolve("//"), Err(Error::InvalidInput(m)) if m == "empty path"));
    let st = f.start_resolve("/a//b.txt").unwrap();
    assert_eq!(st.folder_id(), "ROOT");
    let st = match st.step(&vec![entry("A", "a", FOLDER), entry("X", "x", "text/plain")]) {
        ResolveStep::Descend(st) => st,
        _ => panic!("expected to descend"),
    };
    assert_eq!(st.folder_id(), "A");
    match st.step(&vec![entry("B", "b.txt", "text/plain")]) {
        ResolveStep::Found(e) => assert_eq!(e.id, "B"),
        _ => panic!("expected the entry"),
    }
}

#[test]
fn resolve_reports_missing_and_non_folders() {
    let f = DriveFolder::open("https://drive.google.com/drive/folders/ROOT").unwrap();
    let st = f.start_resolve("a/b").unwrap();
    match st.step(&vec![entry("X", "x", FOLDER)]) {
        ResolveStep::Failed(Error::Parse(m)) => {
            assert_eq!(m, "not found in Google Drive folder: a (in path a/b)")
        }
        _ => panic!("expected a missing component"),
    }
    let st = f.start_resolve("a/b").unwrap();
    match st.step(&vec![entry("A", "a", "text/plain")]) {
        ResolveStep::Failed(Error::Parse(m)) => assert_eq!(m, "a is not a folder (in path a/b)"),
        _ => panic!("expected a non-folder"),
    }
}

#[test]
fn recursive_listing_builds_paths() {
    let mut walk = RecursiveListing::new("ROOT");
    let (id, prefix) = walk.next_folder().unwrap();
    assert_eq!((id.as_str(), prefix.as_str()), ("ROOT", ""));
    walk.add_children(&prefix, &vec![entry("D", "dir", FOLDER), entry("F", "f.txt", "text/plain")]);
    let (id, prefix) = walk.next_folder().unwrap();
    assert_eq!((id.as_str(), prefix.as_str()), ("D", "dir"));
    walk.add_children(&prefix, &vec![entry("G", "g.txt", "text/plain")]);
    assert!(walk.next_folder().is_none());
    let entries = walk.into_entries();
    let got: Vec<(String, String, bool)> =
        entries.into_iter().map(|e| (e.id, e.path, e.is_folder)).collect();
    assert_eq!(
        got,
        vec![
            ("D".to_string(), "dir".to_string(), true),
            ("F".to_string(), "f.txt".to_string(), false),
            ("G".to_string(), "dir/g.txt".to_string(), false),
        ]
    );
}

#[test]
fn join_path_follows_path_join() {
    assert_eq!(join_path_text("out", "a"), "out/a");
    assert_eq!(join_path_text("out/", "a"), "out/a");
    assert_eq!(join_path_text("", "a"), "a");
    assert_eq!(join_path_text("out", "/abs"), "/abs");
    for (dir, name) in [("out", "a/b"), ("./", "x"), ("a", "")] {
        let expected = std::path::Path::new(dir).join(name);
        assert_eq!(join_path_text(dir, name), expected.to_string_lossy());
    }
}

#[test]
fn child_targets_join_names() {
    let t = child_targets("dest", &vec![entry("D", "sub", FOLDER), entry("F", "f", "x")]);
    assert_eq!(t.len(), 2);
    assert_eq!((t[0].id.as_str(), t[0].local_path.as_str(), t[0].is_folder), ("D", "dest/sub", true));
    assert_eq!((t[1].id.as_str(), t[1].local_path.as_str(), t[1].is_folder), ("F", "dest/f", false));
    assert!(require_directory("sub", &entry("D", "sub", FOLDER)).is_ok());
    match require_directory("f", &entry("F", "f", "x")) {
        Err(Error::InvalidInput(m)) => assert_eq!(m, "f is not a directory"),
        other => panic!("unexpected: {other:?}"),
    }
}

#[test]
fn file_limit_counts_files_only() {
    let mut entries: Vec<FlatEntry> = (0..49).map(|i| flat(&i.to_string(), "p", false)).collect();
    entries.push(flat("d", "dir", true));
    assert!(check_file_limit(&entries, false).is_ok());
    entries.push(flat("50", "p", false));
    assert_eq!(MAX_FILES, 50);
    match check_file_limit(&entries, false) {
        Err(Error::FolderLimit(m)) => assert_eq!(
            m,
            "folder has 50 files (limit is 50); use --ignore-file-limit to override"
        ),
        other => panic!("unexpected: {other:?}"),
    }
    assert!(check_file_limit(&entries, true).is_ok());
    assert_eq!(MAX_NUMBER_FILES, 50);
    match check_number_of_files(&entries, false) {
        Err(Error::FolderLimit(m)) => assert_eq!(
            m,
            "The gdrive folder has more than 50 files, gdrive can't download more than this limit."
        ),
        other => panic!("unexpected: {other:?}"),
    }
    assert!(check_number_of_files(&entries, true).is_ok());
}

#[test]
fn download_root_and_file_urls() {
    assert_eq!(download_root_dir(None, "ROOT"), "./ROOT");
    assert_eq!(download_root_dir(Some("out/"), "ROOT"), "out/ROOT");
    assert_eq!(download_root_dir(Some("out"), "ROOT"), "out");
    assert_eq!(folder_file_url_text("F", None), "https://drive.google.com/uc?id=F");
    assert_eq!(
        folder_file_url_text("F", Some("K")),
        "https://drive.google.com/uc?id=F&resourcekey=K"
    );
    assert_eq!(
        folder_url_for_id(&"ID".to_string()),
        "https://drive.google.com/drive/folders/ID"
    );
}

#[test]
fn plan_entry_tasks_covers_every_entry() {
    let entries = vec![flat("D", "dir", true), flat("F", "dir/f.txt", false)];
    let tasks = plan_entry_tasks(&entries, "root", Some("K"));
    assert_eq!(tasks.len(), 2);
    match &tasks[0] {
        EntryTask::MakeDir { local_path } => assert_eq!(local_path, "root/dir"),
        other => panic!("unexpected: {other:?}"),
    }
    match &tasks[1] {
        EntryTask::Download { id, url, local_path } => {
            assert_eq!(id, "F");
            assert_eq!(url, "https://drive.google.com/uc?id=F&resourcekey=K");
            assert_eq!(local_path, "root/dir/f.txt");
        }
        other => panic!("unexpected: {other:?}"),
    }
    match missing_file_error(&entries[1]) {
        Error::FileUrlRetrieval(m) => assert_eq!(m, "download failed for file dir/f.txt (F)"),
        other => panic!("unexpected: {other:?}"),
    }
}

#[test]
fn dry_run_lists_files_with_local_paths() {
    let entries = vec![flat("D", "dir", true), flat("F", "dir/f.txt", false), flat("G", "g", false)];
    let files = dry_run_files(&entries, "out/ROOT");
    let got: Vec<(&str, &str, &str)> =
        files.iter().map(|f| (f.id.as_str(), f.path.as_str(), f.local_path.as_str())).collect();
    assert_eq!(got, vec![("F", "dir/f.txt", "out/ROOT/dir/f.txt"), ("G", "g", "out/ROOT/g")]);
}

#[test]
fn folder_url_or_id_requires_exactly_one() {
    assert_eq!(
        folder_url_or_id(&None, &Some("abc".to_string())).unwrap(),
        "https://drive.google.com/drive/folders/abc"
    );
    assert_eq!(folder_url_or_id(&Some("u".to_string()), &None).unwrap(), "u");
    match folder_url_or_id(&None, &None) {
        Err(Error::InvalidInput(m)) => assert_eq!(m, "Either url or id has to be specified"),
        other => panic!("unexpected: {other:?}"),
    }
}

#[test]
fn directory_structure_of_a_tree() {
    let mut root = GoogleDriveFile::new("R".into(), "root".into(), FOLDER.into());
    assert!(root.is_folder());
    let mut sub = GoogleDriveFile::new("S".into(), "a/b".into(), FOLDER.into());
    sub.children.push(GoogleDriveFile::new("F".into(), "f.txt".into(), "text/plain".into()));
    root.children.push(sub);
    root.children.push(GoogleDriveFile::new("G".into(), "g".into(), "image/png".into()));
    let s = get_directory_structure(&root, "");
    assert_eq!(
        s,
        vec![
            (None, "a_b".to_string()),
            (Some("F".to_string()), "a_b/f.txt".to_string()),
            (Some("G".to_string()), "g".to_string()),
        ]
    );
    let s = get_directory_structure(&root, "base");
    assert_eq!(s[0], (None, "base/a_b".to_string()));
}

#[test]
fn parse_google_drive_file_without_listing() {
    match parse_google_drive_file("https://drive.google.com/drive/folders/X", "<html></html>") {
        Err(Error::Parse(m)) => {
            assert!(m.starts_with("Cannot retrieve the folder information from the link."));
            assert!(m.ends_with("Check FAQ in https://github.com/wkentaro/gdown?tab=readme-ov-file#faq."));
        }
        other => panic!("unexpected: {:?}", other.map(|(f, c)| (f.id, c))),
    }
}

#[test]
fn parse_google_drive_file_reads_listing() {
    let page = concat_page();
    let (f, children) =
        parse_google_drive_file("https://drive.google.com/drive/folders/FOLDERID", &page).unwrap();
    assert_eq!(f.id, "FOLDERID");
    assert_eq!(f.name, "my folder");
    assert_eq!(f.file_type, FOLDER);
    assert!(f.children.is_empty());
    assert_eq!(
        children,
        vec![
            ("id1".to_string(), "a.txt".to_string(), "text/plain".to_string()),
            ("id2".to_string(), "sub".to_string(), FOLDER.to_string()),
        ]
    );
    let fetch = DriveFolder::open("https://example.com/drive/folders/FOLDERID").unwrap();
    let step = fetch.start_fetch("FOLDERID").on_page(200, "200 OK", "https://example.com/x", &page);
    match step {
        Ok(FetchStep::Listed(v)) => {
            assert_eq!(v.len(), 2);
            assert_eq!(v[1].name, "sub");
            assert!(v[1].is_folder());
        }
        _ => panic!("expected a listing"),
    }
}

fn concat_page() -> String {
    let data = r#"[[[\x22id1\x22,null,\x22a.txt\x22,\x22text/plain\x22],[\x22id2\x22,null,\x22sub\x22,\x22application/vnd.google-apps.folder\x22]]]"#;
    [
        "<html><head><title>my folder - Google Drive</title></head><body><script>",
        "window['_DRIVE_ivd'] = '",
        data,
        "';</script></body></html>",
    ]
    .concat()
}

#[test]
fn resolve_ignores_empty_segments() {
    let f = DriveFolder::open("https://drive.google.com/drive/folders/ROOT").unwrap();
    let top = vec![entry("A", "a", FOLDER)];
    let inner = vec![entry("X", "x", "text/plain"), entry("B", "b", "text/plain")];
    let mut found = Vec::new();
    for path in ["a//b/", "a/b", "/a/b"] {
        let st = f.start_resolve(path).unwrap();
        assert_eq!(st.folder_id(), "ROOT");
        let st = match st.step(&top) {
            ResolveStep::Descend(st) => st,
            _ => panic!("expected to descend"),
        };
        assert_eq!(st.folder_id(), "A");
        match st.step(&inner) {
            ResolveStep::Found(e) => {
                assert_eq!(e.name, "b");
                found.push(e.id);
            }
            _ => panic!("expected the entry"),
        }
    }
    assert_eq!(found, vec!["B", "B", "B"]);
    for path in ["", "/", "//"] {
        assert!(matches!(f.start_resolve(path), Err(Error::InvalidInput(m)) if m == "empty path"));
    }
}

#[test]
fn mirror_walk_hands_out_every_file_once() {
    let mut walk = MirrorWalk::new("P", "/tmp/out");
    let (id, dir) = walk.next_folder().unwrap();
    assert_eq!((id.as_str(), dir.as_str()), ("P", "/tmp/out"));
    let files = walk.add_children(
        &dir,
        &vec![entry("F1", "a.txt", "text/plain"), entry("S", "sub", FOLDER), entry("F2", "b", "x")],
    );
    assert_eq!(
        files,
        vec![
            ("F1".to_string(), "/tmp/out/a.txt".to_string()),
            ("F2".to_string(), "/tmp/out/b".to_string())
        ]
    );
    let (id, dir) = walk.next_folder().unwrap();
    assert_eq!((id.as_str(), dir.as_str()), ("S", "/tmp/out/sub"));
    let files = walk.add_children(&dir, &vec![entry("F3", "c.txt", "text/plain")]);
    assert_eq!(files, vec![("F3".to_string(), "/tmp/out/sub/c.txt".to_string())]);
    assert!(walk.next_folder().is_none());
    assert!(walk.next_folder().is_none());
}

#[test]
fn recursive_listing_lists_each_folder_once() {
    let mut walk = RecursiveListing::new("R");
    let mut listed = Vec::new();
    while let Some((id, prefix)) = walk.next_folder() {
        listed.push(id.clone());
        let children = match id.as_str() {
            "R" => vec![entry("A", "a", FOLDER), entry("f", "f.txt", "text/plain"), entry("B", "b", FOLDER)],
            "A" => vec![entry("C", "c", FOLDER), entry("g", "g.txt", "text/plain")],
            _ => vec![],
        };
        walk.add_children(&prefix, &children);
    }
    listed.sort();
    assert_eq!(listed, vec!["A", "B", "C", "R"]);
    let mut entries: Vec<(String, String, bool)> =
        walk.into_entries().into_iter().map(|e| (e.id, e.path, e.is_folder)).collect();
    entries.sort();
    assert_eq!(
        entries,
        vec![
            ("A".to_string(), "a".to_string(), true),
            ("B".to_string(), "b".to_string(), true),
            ("C".to_string(), "a/c".to_string(), true),
            ("f".to_string(), "f.txt".to_string(), false),
            ("g".to_string(), "a/g.txt".to_string(), false),
        ]
    );
}
