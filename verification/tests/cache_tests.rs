use gdown::cached_download::{
    assert_filehash, cache_file_name, cache_path, compute_filehash, hex_digest,
    judge_cached_copy, parse_algorithm, to_hex, CachedCopy, HashAlgorithm,
};
use gdown::error::Error;

#[test]
fn test_compute_filehash_md5() {
    let hash = compute_filehash(b"hello world\n", "md5").unwrap();
    assert!(hash.starts_with("md5:"));
    assert_eq!(hash, "md5:6f5902ac237024bdd0c176cb93063dc4");
}

#[test]
fn test_compute_filehash_sha256() {
    let hash = compute_filehash(b"hello world\n", "sha256").unwrap();
    assert!(hash.starts_with("sha256:"));
    assert_eq!(
        hash,
        "sha256:a948904f2f0f479b8f8197694b30184b0d2ed1c1cd2a1ec0fb85d299a192a447"
    );
}

#[test]
fn compute_filehash_sha1_and_sha512_lengths() {
    let sha1 = compute_filehash(b"abc", "sha1").unwrap();
    assert_eq!(sha1, "sha1:a9993e364706816aba3e25717850c26c9cd0d89d");
    let sha512 = compute_filehash(b"abc", "sha512").unwrap();
    assert_eq!(sha512.len(), "sha512:".len() + 128);
    assert!(sha512.starts_with("sha512:ddaf35a193617aba"));
}

#[test]
fn compute_filehash_unsupported() {
    match compute_filehash(b"x", "crc32") {
        Err(Error::InvalidInput(m)) => assert_eq!(
            m,
            "Unsupported hash algorithm: crc32. Supported algorithms: md5, sha1, sha256, sha512"
        ),
        other => panic!("unexpected: {other:?}"),
    }
    assert!(matches!(parse_algorithm("sha512"), Ok(HashAlgorithm::Sha512)));
}

#[test]
fn test_assert_filehash_invalid_format() {
    let result = assert_filehash(b"test", "nocolon");
    assert!(result.is_err());
    match result {
        Err(Error::InvalidInput(m)) => assert_eq!(
            m,
            "Invalid hash: nocolon. Hash must be in the format of {algorithm}:{hash_value}."
        ),
        other => panic!("unexpected: {other:?}"),
    }
}

#[test]
fn test_assert_filehash_match() {
    let data = b"test content";
    let hash = compute_filehash(data, "md5").unwrap();
    assert!(assert_filehash(data, &hash).is_ok());
    assert!(assert_filehash(data, &hash).unwrap());
}

#[test]
fn test_assert_filehash_mismatch() {
    let data = b"test content";
    let result = assert_filehash(data, "md5:0000000000000000000000000000dead");
    assert!(result.is_err());
    let actual = compute_filehash(data, "md5").unwrap();
    match result {
        Err(Error::HashMismatch(m)) => assert_eq!(
            m,
            format!("File hash doesn't match:\nactual: {actual}\nexpected: md5:0000000000000000000000000000dead")
        ),
        other => panic!("unexpected: {other:?}"),
    }
}

#[test]
fn hex_is_lower_case_two_digits_per_byte() {
    assert_eq!(to_hex(&[0x00, 0x0f, 0xa0, 0xff]), "000fa0ff");
    assert_eq!(hex_digest(HashAlgorithm::Md5, b"").len(), 32);
}

#[test]
fn cache_names_spell_out_separators() {
    assert_eq!(
        cache_file_name("https://drive.google.com/uc?id=1"),
        "https-COLON--SLASH--SLASH-drive.google.com-SLASH-uc-QUESTION-id-EQUAL-1"
    );
    assert_eq!(cache_path("/root/.cache/gdown", Some("/tmp/x"), Some("u")), "/tmp/x");
    assert_eq!(cache_path("/c", None, Some("a/b")), "/c/a-SLASH-b");
    assert_eq!(cache_path("/c", None, None), "/c/");
}

#[test]
fn judge_cached_copy_reuses_or_replaces() {
    assert!(matches!(judge_cached_copy(None, b"anything"), CachedCopy::Reuse));
    let good = "md5:6f5902ac237024bdd0c176cb93063dc4";
    assert!(matches!(judge_cached_copy(Some(good), b"hello world\n"), CachedCopy::Reuse));
    match judge_cached_copy(Some(good), b"hello world") {
        CachedCopy::Replace(Error::HashMismatch(m)) => assert_eq!(
            m,
            "File hash doesn't match:\nactual: md5:5eb63bbbe01eeed093cb22bb8f5acdc3\nexpected: md5:6f5902ac237024bdd0c176cb93063dc4"
        ),
        _ => panic!("expected a mismatch"),
    }
    match judge_cached_copy(Some("nocolon"), b"") {
        CachedCopy::Replace(Error::InvalidInput(m)) => assert_eq!(
            m,
            "Invalid hash: nocolon. Hash must be in the format of {algorithm}:{hash_value}."
        ),
        _ => panic!("expected an invalid hash"),
    }
    assert!(matches!(
        judge_cached_copy(Some("crc32:00"), b""),
        CachedCopy::Replace(Error::InvalidInput(_))
    ));
}

#[test]
fn compute_filehash_digit_counts() {
    for (alg, digits) in [("md5", 32), ("sha1", 40), ("sha256", 64), ("sha512", 128)] {
        for data in [&b""[..], &b"hello world\n"[..], &[0u8, 255, 7][..]] {
            let h = compute_filehash(data, alg).unwrap();
            let (name, hex) = h.split_once(':').unwrap();
            assert_eq!(name, alg);
            assert_eq!(hex.len(), digits);
            assert!(hex.chars().all(|c| c.is_ascii_digit() || ('a'..='f').contains(&c)));
            assert_eq!(hex_digest(parse_algorithm(alg).unwrap(), data), hex);
        }
    }
}
