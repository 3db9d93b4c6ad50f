# gdown

Download public Google Drive files and folders (shared as "Anyone with the
link"), with the parsing and decision logic verified by Verus.

## Layout

- `src/` — the verified library.
  - `parse`, `parse_url`, `confirm`, `escapes`, `patterns`: Google Drive URLs,
    confirmation pages, folder pages, headers and JavaScript string escapes.
  - `download`: how a download request is followed through Google Drive's
    confirmation pages, how the output is named, how partial files resume.
  - `download_folder`: folder listings, the listing cache, path resolution,
    recursive walks and the plan of a folder download.
  - `cached_download`, `extract`: cache names, digests, hash checks and the
    reuse of cached copies;
    the choice of archive extractor.
  - `client`, `types`, `error`, `text`: defaults, bounded reads, shared helpers.
  - `urls`, `html`, `json`: the calls into `url`, `urlencoding`, `scraper` and
    `serde_json`, each with the contract the library relies on.
- `app/` — the `gdown` command-line program: HTTP requests, streaming to disk,
  archives, progress bars. It drives the library's step functions.
- `tests/` — tests of the library.
