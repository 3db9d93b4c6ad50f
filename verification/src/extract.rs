//! Which extractor an archive path calls for.
use vstd::prelude::*;

use crate::download::{eq_ignore_ascii_case, file_extension, path_file_name, path_file_name_text};
use crate::error::{Error, ErrorKind};
use crate::parse::option_text;
use crate::text::{
    cat, chars_equal, chars_of, ends_with, has_suffix, occurs_at, slice_chars, string_from_chars,
};

verus! {

/// The kind of archive a path names.
#[derive(Debug, Clone, Copy, PartialEq, Eq, Structural)]
pub enum ArchiveKind {
    Zip,
    Tar,
    TarGz,
    TarBz2,
}

/// The extension of a path (`Path::extension`): that of its file name.
pub open spec fn path_extension(p: Seq<char>) -> Option<Seq<char>> {
    match path_file_name(p) {
        Some(n) => file_extension(n),
        None => None,
    }
}

/// The stem of a path (`Path::file_stem`): its file name without the extension.
pub open spec fn path_stem(p: Seq<char>) -> Option<Seq<char>> {
    match path_file_name(p) {
        Some(n) => match file_extension(n) {
            Some(e) => Some(n.take(n.len() - e.len() - 1)),
            None => Some(n),
        },
        None => None,
    }
}

/// Whether the extension of `path` is `ext`, ignoring ASCII case.
pub open spec fn has_ext(path: Seq<char>, ext: Seq<char>) -> bool {
    path_extension(path) matches Some(e) && eq_ignore_ascii_case(e, ext)
}

/// Whether `path` has the extension `second` and its stem the extension
/// `first`, ignoring ASCII case (`.tar.gz`).
pub open spec fn has_double_ext(path: Seq<char>, first: Seq<char>, second: Seq<char>) -> bool {
    has_ext(path, second) && match path_stem(path) {
        Some(s) => has_ext(s, first),
        None => false,
    }
}

fn name_extension(n: &[char]) -> (r: Option<usize>)
    ensures
        match r {
            Some(i) => i + 1 <= n@.len() && file_extension(n@) == Some(n@.skip(i + 1)),
            None => file_extension(n@) is None,
        },
{
    if chars_equal(n, chars_of("..").as_slice()) {
        return None;
    }
    let dot = chars_of(".");
    match crate::text::rfind_chars(n, dot.as_slice()) {
        Some(i) => {
            proof {
                reveal_strlit(".");
                crate::parse::lemma_rfind_occurs(n@, dot@);
            }
            let nn = n.len();
            assert(i + 1 <= nn);
            if i == 0 {
                return None;
            }
            Some(i)
        },
        None => None,
    }
}

fn extension_of(path: &str) -> (r: Option<String>)
    ensures
        option_text(r) == path_extension(path@),
{
    let name = match path_file_name_text(path) {
        Some(n) => n,
        None => {
            return None;
        },
    };
    let n = chars_of(name.as_str());
    match name_extension(n.as_slice()) {
        Some(i) => {
            let nn = n.len();
            assert(i + 1 <= nn);
            let e = slice_chars(n.as_slice(), i + 1, n.len());
            assert(e@ =~= n@.skip(i + 1));
            Some(string_from_chars(e.as_slice()))
        },
        None => None,
    }
}

fn stem_of(path: &str) -> (r: Option<String>)
    ensures
        option_text(r) == path_stem(path@),
{
    let name = match path_file_name_text(path) {
        Some(n) => n,
        None => {
            return None;
        },
    };
    let n = chars_of(name.as_str());
    match name_extension(n.as_slice()) {
        Some(i) => {
            let s = slice_chars(n.as_slice(), 0, i);
            assert(s@ =~= n@.take(n@.len() - n@.skip(i + 1).len() - 1));
            Some(string_from_chars(s.as_slice()))
        },
        None => Some(name),
    }
}

/// Whether the extension of `path` is `ext`, ignoring ASCII case.
pub fn has_extension(path: &str, ext: &str) -> (b: bool)
    ensures
        b == has_ext(path@, ext@),
{
    match extension_of(path) {
        Some(e) => crate::download::equal_ignoring_case(
            chars_of(e.as_str()).as_slice(),
            chars_of(ext).as_slice(),
        ),
        None => false,
    }
}

/// Whether `path` ends with the double extension `first.second`, each part
/// compared ignoring ASCII case.
pub fn has_double_extension(path: &str, first: &str, second: &str) -> (b: bool)
    ensures
        b == has_double_ext(path@, first@, second@),
{
    if !has_extension(path, second) {
        return false;
    }
    match stem_of(path) {
        Some(s) => has_extension(s.as_str(), first),
        None => false,
    }
}

/// The kind of archive `path` names by its extensions: `.zip`, `.tar`, `.tgz`
/// or `.tar.gz`, `.tbz` or `.tar.bz2`.
pub open spec fn archive_kind_of(path: Seq<char>) -> Option<ArchiveKind> {
    if has_ext(path, "zip"@) {
        Some(ArchiveKind::Zip)
    } else if has_ext(path, "tar"@) {
        Some(ArchiveKind::Tar)
    } else if has_ext(path, "tgz"@) || has_double_ext(path, "tar"@, "gz"@) {
        Some(ArchiveKind::TarGz)
    } else if has_ext(path, "tbz"@) || has_double_ext(path, "tar"@, "bz2"@) {
        Some(ArchiveKind::TarBz2)
    } else {
        None
    }
}

/// Chooses the extractor for an archive path.
///
/// # Errors
///
/// [`Error::Extract`] when no extractor fits.
pub fn archive_kind(path: &str) -> (r: Result<ArchiveKind, Error>)
    ensures
        match r {
            Ok(k) => archive_kind_of(path@) == Some(k),
            Err(e) => archive_kind_of(path@) is None && e.kind() == ErrorKind::Extract
                && e.message() == "could not extract '"@ + path@
                + "': no appropriate extractor found"@,
        },
{
    if has_extension(path, "zip") {
        Ok(ArchiveKind::Zip)
    } else if has_extension(path, "tar") {
        Ok(ArchiveKind::Tar)
    } else if has_extension(path, "tgz") || has_double_extension(path, "tar", "gz") {
        Ok(ArchiveKind::TarGz)
    } else if has_extension(path, "tbz") || has_double_extension(path, "tar", "bz2") {
        Ok(ArchiveKind::TarBz2)
    } else {
        Err(
            Error::Extract(
                cat(cat("could not extract '", path).as_str(), "': no appropriate extractor found"),
            ),
        )
    }
}

/// The kind of archive `path` names by its suffix: `.zip`, `.tar`, `.tar.gz`
/// or `.tgz`, `.tar.bz2` or `.tbz` (case-sensitive).
pub open spec fn archive_kind_by_suffix_of(path: Seq<char>) -> Option<ArchiveKind> {
    if ends_with(path, ".zip"@) {
        Some(ArchiveKind::Zip)
    } else if ends_with(path, ".tar"@) {
        Some(ArchiveKind::Tar)
    } else if ends_with(path, ".tar.gz"@) || ends_with(path, ".tgz"@) {
        Some(ArchiveKind::TarGz)
    } else if ends_with(path, ".tar.bz2"@) || ends_with(path, ".tbz"@) {
        Some(ArchiveKind::TarBz2)
    } else {
        None
    }
}

/// Chooses the extractor for an archive path by its suffix.
///
/// # Errors
///
/// [`Error::Extract`] when no extractor fits.
pub fn archive_kind_by_suffix(path: &str) -> (r: Result<ArchiveKind, Error>)
    ensures
        match r {
            Ok(k) => archive_kind_by_suffix_of(path@) == Some(k),
            Err(e) => archive_kind_by_suffix_of(path@) is None && e.kind() == ErrorKind::Extract
                && e.message() == "Could not extract '"@ + path@
                + "' as no appropriate extractor is found"@,
        },
{
    let p = chars_of(path);
    if has_suffix(p.as_slice(), chars_of(".zip").as_slice()) {
        Ok(ArchiveKind::Zip)
    } else if has_suffix(p.as_slice(), chars_of(".tar").as_slice()) {
        Ok(ArchiveKind::Tar)
    } else if has_suffix(p.as_slice(), chars_of(".tar.gz").as_slice()) || has_suffix(
        p.as_slice(),
        chars_of(".tgz").as_slice(),
    ) {
        Ok(ArchiveKind::TarGz)
    } else if has_suffix(p.as_slice(), chars_of(".tar.bz2").as_slice()) || has_suffix(
        p.as_slice(),
        chars_of(".tbz").as_slice(),
    ) {
        Ok(ArchiveKind::TarBz2)
    } else {
        Err(
            Error::Extract(
                cat(
                    cat("Could not extract '", path).as_str(),
                    "' as no appropriate extractor is found",
                ),
            ),
        )
    }
}

/// `path` ends with the characters `suffix`.
pub open spec fn ends_in(path: Seq<char>, suffix: Seq<char>) -> bool {
    path.len() >= suffix.len() && path.subrange(path.len() - suffix.len(), path.len() as int)
        == suffix
}

proof fn lemma_ends_in_last(path: Seq<char>, suffix: Seq<char>, k: int)
    requires
        ends_in(path, suffix),
        1 <= k <= suffix.len(),
    ensures
        path[path.len() - k] == suffix[suffix.len() - k],
{
    assert(path.subrange(path.len() - suffix.len(), path.len() as int)[suffix.len() - k] == path[path.len() - k]);
}

/// Which extractor `archive_kind_by_suffix` picks, by the path's last
/// characters: a path ending in `.zip` is a zip archive, `.tar` a tar archive,
/// `.tar.gz` or `.tgz` a gzip-compressed tar, `.tar.bz2` or `.tbz` a
/// bzip2-compressed tar; a path with none of these endings has no extractor.
pub proof fn lemma_archive_kind_by_suffix_table(path: Seq<char>)
    ensures
        ends_in(path, ".zip"@) ==> archive_kind_by_suffix_of(path) == Some(ArchiveKind::Zip),
        ends_in(path, ".tar"@) ==> archive_kind_by_suffix_of(path) == Some(ArchiveKind::Tar),
        ends_in(path, ".tar.gz"@) || ends_in(path, ".tgz"@) ==> archive_kind_by_suffix_of(path)
            == Some(ArchiveKind::TarGz),
        ends_in(path, ".tar.bz2"@) || ends_in(path, ".tbz"@) ==> archive_kind_by_suffix_of(path)
            == Some(ArchiveKind::TarBz2),
        !ends_in(path, ".zip"@) && !ends_in(path, ".tar"@) && !ends_in(path, ".tar.gz"@)
            && !ends_in(path, ".tgz"@) && !ends_in(path, ".tar.bz2"@) && !ends_in(path, ".tbz"@)
            ==> archive_kind_by_suffix_of(path) is None,
{
    reveal_strlit(".zip");
    reveal_strlit(".tar");
    reveal_strlit(".tar.gz");
    reveal_strlit(".tgz");
    reveal_strlit(".tar.bz2");
    reveal_strlit(".tbz");
    let sfx = seq![".zip"@, ".tar"@, ".tar.gz"@, ".tgz"@, ".tar.bz2"@, ".tbz"@];
    assert forall|i: int| 0 <= i < sfx.len() implies (ends_with(path, #[trigger] sfx[i]) <==> ends_in(
        path,
        sfx[i],
    )) by {}
    assert(ends_with(path, ".zip"@) == ends_in(path, ".zip"@)) by { assert(sfx[0] == ".zip"@); }
    assert(ends_with(path, ".tar"@) == ends_in(path, ".tar"@)) by { assert(sfx[1] == ".tar"@); }
    assert(ends_with(path, ".tar.gz"@) == ends_in(path, ".tar.gz"@)) by { assert(sfx[2] == ".tar.gz"@); }
    assert(ends_with(path, ".tgz"@) == ends_in(path, ".tgz"@)) by { assert(sfx[3] == ".tgz"@); }
    assert(ends_with(path, ".tar.bz2"@) == ends_in(path, ".tar.bz2"@)) by { assert(sfx[4] == ".tar.bz2"@); }
    assert(ends_with(path, ".tbz"@) == ends_in(path, ".tbz"@)) by { assert(sfx[5] == ".tbz"@); }
    if ends_in(path, ".zip"@) {
        lemma_ends_in_last(path, ".zip"@, 1);
        lemma_ends_in_last(path, ".zip"@, 2);
    }
    if ends_in(path, ".tar"@) {
        lemma_ends_in_last(path, ".tar"@, 1);
        lemma_ends_in_last(path, ".tar"@, 2);
    }
    if ends_in(path, ".tar.gz"@) {
        lemma_ends_in_last(path, ".tar.gz"@, 1);
        lemma_ends_in_last(path, ".tar.gz"@, 2);
    }
    if ends_in(path, ".tgz"@) {
        lemma_ends_in_last(path, ".tgz"@, 1);
        lemma_ends_in_last(path, ".tgz"@, 2);
    }
    if ends_in(path, ".tar.bz2"@) {
        lemma_ends_in_last(path, ".tar.bz2"@, 1);
        lemma_ends_in_last(path, ".tar.bz2"@, 2);
    }
    if ends_in(path, ".tbz"@) {
        lemma_ends_in_last(path, ".tbz"@, 1);
        lemma_ends_in_last(path, ".tbz"@, 2);
    }
}

/// A name without `/` that is neither empty, `.` nor `..` is its own file name.
proof fn lemma_plain_file_name(n: Seq<char>)
    requires
        n.len() > 0,
        n != "."@,
        n != ".."@,
        forall|i: int| 0 <= i < n.len() ==> n[i] != '/',
    ensures
        path_file_name(n) == Some(n),
{
    reveal_strlit(".");
    crate::parse::lemma_first_stop_absent(n, 0, '/');
    assert(crate::parse::split_on(n, '/') == seq![n]);
    let one = seq![n];
    assert(one.drop_last() =~= Seq::<Seq<char>>::empty());
    assert(crate::download::normal_segments(one.drop_last()) =~= Seq::<Seq<char>>::empty());
    assert(one.last() == n);
    assert(crate::download::normal_segments(one) =~= seq![n]);
}

/// The extension of `base.ext`, for a non-empty `base` and an `ext` without a
/// dot, is `ext`.
proof fn lemma_name_extension(base: Seq<char>, ext: Seq<char>)
    requires
        base.len() > 0,
        ext.len() > 0,
        forall|i: int| 0 <= i < ext.len() ==> ext[i] != '.',
    ensures
        file_extension(base + "."@ + ext) == Some(ext),
{
    reveal_strlit(".");
    reveal_strlit("..");
    let n = base + "."@ + ext;
    let b = base.len() as int;
    assert(n.subrange(b, b + 1) =~= "."@);
    assert forall|j: int| b < j implies !occurs_at(n, j, "."@) by {
        if occurs_at(n, j, "."@) {
            assert(n.subrange(j, j + 1)[0] == n[j]);
            assert(n[j] == ext[j - b - 1]);
        }
    }
    crate::parse::lemma_rfind_last(n, "."@, b);
    assert(n.skip(b + 1) =~= ext);
    if n == ".."@ {
        assert(n.len() == 2);
    }
}

/// Which extractor `archive_kind` picks for a file named `base.tar.gz` (or
/// `.tar.bz2`, `.zip`, `.tar`, `.tgz`, `.tbz`), whatever directory it is in:
/// a gzip-compressed tar for `.tar.gz` and `.tgz`, a bzip2-compressed tar for
/// `.tar.bz2` and `.tbz`, a zip archive for `.zip`, a tar archive for `.tar`.
pub proof fn lemma_archive_kind_table(path: Seq<char>, base: Seq<char>)
    requires
        base.len() > 0,
        forall|i: int| 0 <= i < base.len() ==> base[i] != '/',
    ensures
        path_file_name(path) == Some(base + ".tar.gz"@) ==> archive_kind_of(path) == Some(
            ArchiveKind::TarGz,
        ),
        path_file_name(path) == Some(base + ".tgz"@) ==> archive_kind_of(path) == Some(
            ArchiveKind::TarGz,
        ),
        path_file_name(path) == Some(base + ".tar.bz2"@) ==> archive_kind_of(path) == Some(
            ArchiveKind::TarBz2,
        ),
        path_file_name(path) == Some(base + ".tbz"@) ==> archive_kind_of(path) == Some(
            ArchiveKind::TarBz2,
        ),
        path_file_name(path) == Some(base + ".zip"@) ==> archive_kind_of(path) == Some(
            ArchiveKind::Zip,
        ),
        path_file_name(path) == Some(base + ".tar"@) ==> archive_kind_of(path) == Some(
            ArchiveKind::Tar,
        ),
{
    reveal_strlit(".");
    reveal_strlit("..");
    reveal_strlit(".tar.gz");
    reveal_strlit(".tgz");
    reveal_strlit(".tar.bz2");
    reveal_strlit(".tbz");
    reveal_strlit(".zip");
    reveal_strlit(".tar");
    reveal_strlit("tar");
    reveal_strlit("gz");
    reveal_strlit("bz2");
    reveal_strlit("tgz");
    reveal_strlit("tbz");
    reveal_strlit("zip");
    let bt = base + "."@ + "tar"@;
    assert(forall|i: int| 0 <= i < bt.len() ==> bt[i] != '/') by {
        assert forall|i: int| 0 <= i < bt.len() implies bt[i] != '/' by {
            if i < base.len() {
                assert(bt[i] == base[i]);
            }
        }
    }
    assert(bt != "."@ && bt != ".."@) by {
        assert(bt.len() >= 5);
    }
    lemma_plain_file_name(bt);
    lemma_name_extension(base, "tar"@);
    lemma_name_extension(bt, "gz"@);
    lemma_name_extension(bt, "bz2"@);
    lemma_name_extension(base, "tgz"@);
    lemma_name_extension(base, "tbz"@);
    lemma_name_extension(base, "zip"@);
    assert(base + ".tar.gz"@ =~= bt + "."@ + "gz"@);
    assert(base + ".tar.bz2"@ =~= bt + "."@ + "bz2"@);
    assert(base + ".tgz"@ =~= base + "."@ + "tgz"@);
    assert(base + ".tbz"@ =~= base + "."@ + "tbz"@);
    assert(base + ".zip"@ =~= base + "."@ + "zip"@);
    assert(base + ".tar"@ =~= bt);
    assert((bt + "."@ + "gz"@).take(bt.len() as int) =~= bt);
    assert((bt + "."@ + "bz2"@).take(bt.len() as int) =~= bt);
    assert(eq_ignore_ascii_case("tar"@, "tar"@));
    assert(eq_ignore_ascii_case("gz"@, "gz"@));
    assert(eq_ignore_ascii_case("bz2"@, "bz2"@));
    assert(eq_ignore_ascii_case("tgz"@, "tgz"@));
    assert(eq_ignore_ascii_case("tbz"@, "tbz"@));
    assert(eq_ignore_ascii_case("zip"@, "zip"@));
    assert(!eq_ignore_ascii_case("tgz"@, "zip"@)) by {
        assert(crate::download::ascii_lower("tgz"@[0]) != crate::download::ascii_lower("zip"@[0]));
    }
    assert(!eq_ignore_ascii_case("tgz"@, "tar"@)) by {
        assert(crate::download::ascii_lower("tgz"@[1]) != crate::download::ascii_lower("tar"@[1]));
    }
    assert(!eq_ignore_ascii_case("tbz"@, "zip"@)) by {
        assert(crate::download::ascii_lower("tbz"@[0]) != crate::download::ascii_lower("zip"@[0]));
    }
    assert(!eq_ignore_ascii_case("tbz"@, "tar"@)) by {
        assert(crate::download::ascii_lower("tbz"@[1]) != crate::download::ascii_lower("tar"@[1]));
    }
    assert(!eq_ignore_ascii_case("tbz"@, "tgz"@)) by {
        assert(crate::download::ascii_lower("tbz"@[1]) != crate::download::ascii_lower("tgz"@[1]));
    }
    assert(!eq_ignore_ascii_case("bz2"@, "zip"@)) by {
        assert(crate::download::ascii_lower("bz2"@[0]) != crate::download::ascii_lower("zip"@[0]));
    }
    assert(!eq_ignore_ascii_case("bz2"@, "tar"@)) by {
        assert(crate::download::ascii_lower("bz2"@[0]) != crate::download::ascii_lower("tar"@[0]));
    }
    assert(!eq_ignore_ascii_case("bz2"@, "tgz"@)) by {
        assert(crate::download::ascii_lower("bz2"@[0]) != crate::download::ascii_lower("tgz"@[0]));
    }
    assert(!eq_ignore_ascii_case("bz2"@, "tbz"@)) by {
        assert(crate::download::ascii_lower("bz2"@[0]) != crate::download::ascii_lower("tbz"@[0]));
    }
    assert(!eq_ignore_ascii_case("zip"@, "tar"@)) by {
        assert(crate::download::ascii_lower("zip"@[0]) != crate::download::ascii_lower("tar"@[0]));
    }
}

} // verus!
