use gdown::error::Error;
use gdown::extract::{
    archive_kind, archive_kind_by_suffix, has_double_extension, has_extension, ArchiveKind,
};

#[test]
fn test_unsupported_format() {
    let result = archive_kind("file.rar");
    assert!(result.is_err());
    match result {
        Err(Error::Extract(m)) => {
            assert!(m.contains("no appropriate extractor"));
            assert_eq!(m, "could not extract 'file.rar': no appropriate extractor found");
        }
        other => panic!("unexpected: {other:?}"),
    }
}

#[test]
fn extractall_test_extractall_unsupported_format() {
    let result = archive_kind_by_suffix("file.rar");
    assert!(result.is_err());
    match result {
        Err(Error::Extract(m)) => {
            assert_eq!(m, "Could not extract 'file.rar' as no appropriate extractor is found")
        }
        other => panic!("unexpected: {other:?}"),
    }
}

#[test]
fn archive_kinds_by_extension() {
    assert_eq!(archive_kind("a/b/test.zip").unwrap(), ArchiveKind::Zip);
    assert_eq!(archive_kind("TEST.ZIP").unwrap(), ArchiveKind::Zip);
    assert_eq!(archive_kind("x.tar").unwrap(), ArchiveKind::Tar);
    assert_eq!(archive_kind("x.tar.gz").unwrap(), ArchiveKind::TarGz);
    assert_eq!(archive_kind("x.TGZ").unwrap(), ArchiveKind::TarGz);
    assert_eq!(archive_kind("x.tar.bz2").unwrap(), ArchiveKind::TarBz2);
    assert_eq!(archive_kind("x.tbz").unwrap(), ArchiveKind::TarBz2);
    assert!(archive_kind("x.gz").is_err());
    assert!(archive_kind(".zip").is_err());
}

#[test]
fn extensions_follow_path_rules() {
    assert!(has_extension("dir/file.Zip", "zip"));
    assert!(!has_extension("dir.zip/file", "zip"));
    assert!(!has_extension(".zip", "zip"));
    assert!(has_double_extension("a.TAR.gz", "tar", "gz"));
    assert!(!has_double_extension("a.gz", "tar", "gz"));
    assert!(!has_double_extension(".tar.gz", "x", "gz"));
    for p in ["a/b.c.d", "a.", "..", "a/.b", "a/b.c/"] {
        let std_ext = std::path::Path::new(p).extension().map(|e| e.to_string_lossy().to_string());
        let expected = std_ext.as_deref().map(|e| e.eq_ignore_ascii_case("d")).unwrap_or(false);
        assert_eq!(has_extension(p, "d"), expected, "extension of {p:?}");
    }
}

#[test]
fn archive_kinds_by_suffix() {
    assert_eq!(archive_kind_by_suffix("x.zip").unwrap(), ArchiveKind::Zip);
    assert!(archive_kind_by_suffix("x.ZIP").is_err());
    assert_eq!(archive_kind_by_suffix("x.tar.bz2").unwrap(), ArchiveKind::TarBz2);
    assert_eq!(archive_kind_by_suffix("x.tgz").unwrap(), ArchiveKind::TarGz);
}

#[test]
fn integration_tests_test_extractall_unsupported_format() {
    let result = archive_kind("file.rar");
    assert!(result.is_err());
}
