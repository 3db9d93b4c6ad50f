//! Cached downloads: where a URL is cached, and the digests that check a cached
//! file against an expected hash.
use vstd::prelude::*;

use crate::error::{Error, ErrorKind};
use crate::text::{
    cat, chars_equal, chars_of, find_chars_from, lemma_find_from, occurs_at, replace_all, replace_chars,
    slice_chars, string_from_chars,
};

verus! {

/// The name a URL is cached under: `/`, `:`, `=` and `?` spelled out.
pub open spec fn cache_name(url: Seq<char>) -> Seq<char> {
    replace_all(
        replace_all(
            replace_all(replace_all(url, "/"@, "-SLASH-"@), ":"@, "-COLON-"@),
            "="@,
            "-EQUAL-"@,
        ),
        "?"@,
        "-QUESTION-"@,
    )
}

/// The file name a URL is cached under.
pub fn cache_file_name(url: &str) -> (r: String)
    ensures
        r@ == cache_name(url@),
{
    proof {
        reveal_strlit("/");
        reveal_strlit(":");
        reveal_strlit("=");
        reveal_strlit("?");
    }
    let a = replace_chars(chars_of(url).as_slice(), chars_of("/").as_slice(), chars_of("-SLASH-").as_slice());
    let b = replace_chars(a.as_slice(), chars_of(":").as_slice(), chars_of("-COLON-").as_slice());
    let c = replace_chars(b.as_slice(), chars_of("=").as_slice(), chars_of("-EQUAL-").as_slice());
    let d = replace_chars(c.as_slice(), chars_of("?").as_slice(), chars_of("-QUESTION-").as_slice());
    string_from_chars(d.as_slice())
}

/// The local path of a cached download: the path asked for, or the cache root
/// joined with the cache name of the URL (of the empty URL when there is none).
pub fn cache_path(root: &str, path: Option<&str>, url: Option<&str>) -> (r: String)
    ensures
        r@ == (match path {
            Some(p) => p@,
            None => crate::download_folder::join_path(
                root@,
                cache_name(
                    match url {
                        Some(u) => u@,
                        None => Seq::empty(),
                    },
                ),
            ),
        }),
{
    match path {
        Some(p) => p.to_string(),
        None => {
            let u = match url {
                Some(u) => u,
                None => "",
            };
            proof {
                reveal_strlit("");
            }
            crate::download_folder::join_path_text(root, cache_file_name(u).as_str())
        },
    }
}

/// A supported hash algorithm.
#[derive(Debug, Clone, Copy, PartialEq, Eq, Structural)]
pub enum HashAlgorithm {
    Md5,
    Sha1,
    Sha256,
    Sha512,
}

/// The algorithm a name selects, if it is one of `md5`, `sha1`, `sha256`,
/// `sha512`.
pub open spec fn algorithm_named(name: Seq<char>) -> Option<HashAlgorithm> {
    if name == "md5"@ {
        Some(HashAlgorithm::Md5)
    } else if name == "sha1"@ {
        Some(HashAlgorithm::Sha1)
    } else if name == "sha256"@ {
        Some(HashAlgorithm::Sha256)
    } else if name == "sha512"@ {
        Some(HashAlgorithm::Sha512)
    } else {
        None
    }
}

/// The algorithm named `name`.
///
/// # Errors
///
/// [`Error::InvalidInput`] for any other name.
pub fn parse_algorithm(name: &str) -> (r: Result<HashAlgorithm, Error>)
    ensures
        match r {
            Ok(a) => algorithm_named(name@) == Some(a),
            Err(e) => algorithm_named(name@) is None && e.kind() == ErrorKind::InvalidInput
                && e.message() == "Unsupported hash algorithm: "@ + name@
                + ". Supported algorithms: md5, sha1, sha256, sha512"@,
        },
{
    let n = chars_of(name);
    if chars_equal(n.as_slice(), chars_of("md5").as_slice()) {
        Ok(HashAlgorithm::Md5)
    } else if chars_equal(n.as_slice(), chars_of("sha1").as_slice()) {
        Ok(HashAlgorithm::Sha1)
    } else if chars_equal(n.as_slice(), chars_of("sha256").as_slice()) {
        Ok(HashAlgorithm::Sha256)
    } else if chars_equal(n.as_slice(), chars_of("sha512").as_slice()) {
        Ok(HashAlgorithm::Sha512)
    } else {
        Err(
            Error::InvalidInput(
                cat(
                    cat("Unsupported hash algorithm: ", name).as_str(),
                    ". Supported algorithms: md5, sha1, sha256, sha512",
                ),
            ),
        )
    }
}

/// The MD5 digest of `data`, as `md5::Md5::digest` computes it.
pub uninterp spec fn md5_of(data: Seq<u8>) -> Seq<u8>;

/// The SHA-1 digest of `data`, as `sha1::Sha1::digest` computes it.
pub uninterp spec fn sha1_of(data: Seq<u8>) -> Seq<u8>;

/// The SHA-256 digest of `data`, as `sha2::Sha256::digest` computes it.
pub uninterp spec fn sha256_of(data: Seq<u8>) -> Seq<u8>;

/// The SHA-512 digest of `data`, as `sha2::Sha512::digest` computes it.
pub uninterp spec fn sha512_of(data: Seq<u8>) -> Seq<u8>;

/// Computes `md5::Md5::digest(data)`.
///
/// Trusted: the result is the named [`md5_of`] of the input, 16 bytes long
/// (the crate's `OutputSize` is `U16`).
#[verifier::external_body]
fn md5_digest(data: &[u8]) -> (r: Vec<u8>)
    ensures
        r@ == md5_of(data@),
        r@.len() == 16,
{
    <md5::Md5 as md5::Digest>::digest(data).to_vec()
}

/// Computes `sha1::Sha1::digest(data)`.
///
/// Trusted: the result is the named [`sha1_of`] of the input, 20 bytes long
/// (the crate's `OutputSize` is `U20`).
#[verifier::external_body]
fn sha1_digest(data: &[u8]) -> (r: Vec<u8>)
    ensures
        r@ == sha1_of(data@),
        r@.len() == 20,
{
    <sha1::Sha1 as sha1::Digest>::digest(data).to_vec()
}

/// Computes `sha2::Sha256::digest(data)`.
///
/// Trusted: the result is the named [`sha256_of`] of the input, 32 bytes long
/// (the crate's output size is `U32`).
#[verifier::external_body]
fn sha256_digest(data: &[u8]) -> (r: Vec<u8>)
    ensures
        r@ == sha256_of(data@),
        r@.len() == 32,
{
    <sha2::Sha256 as sha2::Digest>::digest(data).to_vec()
}

/// Computes `sha2::Sha512::digest(data)`.
///
/// Trusted: the result is the named [`sha512_of`] of the input, 64 bytes long
/// (the crate's output size is `U64`).
#[verifier::external_body]
fn sha512_digest(data: &[u8]) -> (r: Vec<u8>)
    ensures
        r@ == sha512_of(data@),
        r@.len() == 64,
{
    <sha2::Sha512 as sha2::Digest>::digest(data).to_vec()
}

/// The digest of `data` under `alg`.
pub open spec fn digest_of(alg: HashAlgorithm, data: Seq<u8>) -> Seq<u8> {
    match alg {
        HashAlgorithm::Md5 => md5_of(data),
        HashAlgorithm::Sha1 => sha1_of(data),
        HashAlgorithm::Sha256 => sha256_of(data),
        HashAlgorithm::Sha512 => sha512_of(data),
    }
}

/// The lower-case hexadecimal digit of `d < 16`.
pub open spec fn hex_digit(d: nat) -> char {
    if d < 10 {
        (48 + d) as char
    } else {
        (87 + d) as char
    }
}

/// `bytes` in lower-case hexadecimal, two digits per byte (`{:x}` of a digest).
pub open spec fn hex_lower(bytes: Seq<u8>) -> Seq<char>
    decreases bytes.len(),
{
    if bytes.len() == 0 {
        seq![]
    } else {
        let b = bytes.last() as nat;
        hex_lower(bytes.drop_last()).push(hex_digit(b / 16)).push(hex_digit(b % 16))
    }
}

fn hex_char(d: u8) -> (c: char)
    requires
        d < 16,
    ensures
        c == hex_digit(d as nat),
{
    match d {
        0 => '0', 1 => '1', 2 => '2', 3 => '3', 4 => '4', 5 => '5', 6 => '6', 7 => '7', 8 => '8',
        9 => '9', 10 => 'a', 11 => 'b', 12 => 'c', 13 => 'd', 14 => 'e', _ => 'f',
    }
}

/// `bytes` in lower-case hexadecimal.
pub fn to_hex(bytes: &[u8]) -> (r: String)
    ensures
        r@ == hex_lower(bytes@),
{
    let mut v: Vec<char> = Vec::new();
    let mut i: usize = 0;
    while i < bytes.len()
        invariant
            i <= bytes@.len(),
            v@ == hex_lower(bytes@.take(i as int)),
        decreases bytes.len() - i,
    {
        let b = bytes[i];
        assert(bytes@.take(i + 1).drop_last() =~= bytes@.take(i as int));
        assert(bytes@.take(i + 1).last() == b);
        v.push(hex_char(b / 16));
        v.push(hex_char(b % 16));
        i = i + 1;
    }
    assert(bytes@.take(bytes@.len() as int) =~= bytes@);
    string_from_chars(v.as_slice())
}

/// The length in bytes of a digest under `alg`.
pub open spec fn digest_len(alg: HashAlgorithm) -> nat {
    match alg {
        HashAlgorithm::Md5 => 16,
        HashAlgorithm::Sha1 => 20,
        HashAlgorithm::Sha256 => 32,
        HashAlgorithm::Sha512 => 64,
    }
}

/// Every character of `s` is a lower-case hexadecimal digit.
pub open spec fn is_lower_hex(s: Seq<char>) -> bool {
    forall|i: int| 0 <= i < s.len() ==> ('0' <= #[trigger] s[i] <= '9' || 'a' <= s[i] <= 'f')
}

/// The digest of `data` under `alg`, in lower-case hexadecimal: two digits per
/// byte of the digest, so 32 for MD5, 40 for SHA-1, 64 for SHA-256 and 128 for
/// SHA-512.
pub fn hex_digest(alg: HashAlgorithm, data: &[u8]) -> (r: String)
    ensures
        r@ == hex_lower(digest_of(alg, data@)),
        r@.len() == 2 * digest_len(alg),
        is_lower_hex(r@),
{
    let d = match alg {
        HashAlgorithm::Md5 => md5_digest(data),
        HashAlgorithm::Sha1 => sha1_digest(data),
        HashAlgorithm::Sha256 => sha256_digest(data),
        HashAlgorithm::Sha512 => sha512_digest(data),
    };
    proof {
        lemma_hex_shape(d@);
    }
    to_hex(d.as_slice())
}

/// The hash of a file's contents in the form `ALGORITHM:HEX`.
pub open spec fn file_hash_text(name: Seq<char>, data: Seq<u8>) -> Option<Seq<char>> {
    match algorithm_named(name) {
        Some(a) => Some(name + ":"@ + hex_lower(digest_of(a, data))),
        None => None,
    }
}

/// Computes the hash of a file's contents with the algorithm named `algorithm`,
/// as `ALGORITHM:HEX`.
///
/// # Errors
///
/// [`Error::InvalidInput`] when the algorithm is not supported.
pub fn compute_filehash(data: &[u8], algorithm: &str) -> (r: Result<String, Error>)
    ensures
        match r {
            Ok(h) => file_hash_text(algorithm@, data@) == Some(h@) && algorithm_named(algorithm@) is Some
                && h@.len() == algorithm@.len() + 1 + 2 * digest_len(algorithm_named(algorithm@)->0)
                && h@.take(algorithm@.len() as int) == algorithm@ && h@[algorithm@.len() as int] == ':'
                && is_lower_hex(h@.skip(algorithm@.len() + 1int)),
            Err(e) => file_hash_text(algorithm@, data@) is None && e.kind() == ErrorKind::InvalidInput
                && e.message() == "Unsupported hash algorithm: "@ + algorithm@
                + ". Supported algorithms: md5, sha1, sha256, sha512"@,
        },
{
    let alg = parse_algorithm(algorithm)?;
    let hex = hex_digest(alg, data);
    let h = cat(cat(algorithm, ":").as_str(), hex.as_str());
    proof {
        reveal_strlit(":");
        let n = algorithm@.len() as int;
        assert(h@.take(n) =~= algorithm@);
        assert(h@[n] == ':');
        assert(h@.skip(n + 1) =~= hex@);
    }
    Ok(h)
}

/// What checking a file's contents against an expected `ALGORITHM:HEX` hash
/// gives: `Ok(true)` on a match; an invalid-input error when the hash has no
/// `:` or names an unsupported algorithm; a mismatch error otherwise.
pub open spec fn hash_check(data: Seq<u8>, hash: Seq<char>) -> Result<bool, (ErrorKind, Seq<char>)> {
    match crate::text::find(hash, ":"@) {
        None => Err(
            (
                ErrorKind::InvalidInput,
                "Invalid hash: "@ + hash + ". Hash must be in the format of {algorithm}:{hash_value}."@,
            ),
        ),
        Some(i) => {
            let name = hash.take(i);
            match file_hash_text(name, data) {
                None => Err(
                    (
                        ErrorKind::InvalidInput,
                        "Unsupported hash algorithm: "@ + name
                            + ". Supported algorithms: md5, sha1, sha256, sha512"@,
                    ),
                ),
                Some(actual) => if actual == hash {
                    Ok(true)
                } else {
                    Err(
                        (
                            ErrorKind::HashMismatch,
                            "File hash doesn't match:\nactual: "@ + actual + "\nexpected: "@ + hash,
                        ),
                    )
                },
            }
        },
    }
}

/// A hash check seen through views.
pub open spec fn check_view(r: Result<bool, Error>) -> Result<bool, (ErrorKind, Seq<char>)> {
    match r {
        Ok(b) => Ok(b),
        Err(e) => Err((e.kind(), e.message())),
    }
}

/// Checks a file's contents against an expected hash in the form
/// `ALGORITHM:HEX`.
///
/// # Errors
///
/// [`Error::InvalidInput`] when the hash is malformed or its algorithm
/// unsupported; [`Error::HashMismatch`] when the contents hash differently.
pub fn assert_filehash(data: &[u8], hash: &str) -> (r: Result<bool, Error>)
    ensures
        check_view(r) == hash_check(data@, hash@),
{
    let h = chars_of(hash);
    let colon = chars_of(":");
    let i = match find_chars_from(h.as_slice(), colon.as_slice(), 0) {
        Some(i) => {
            proof {
                lemma_find_from(h@, colon@, 0);
            }
            i
        },
        None => {
            return Err(
                Error::InvalidInput(
                    cat(
                        cat("Invalid hash: ", hash).as_str(),
                        ". Hash must be in the format of {algorithm}:{hash_value}.",
                    ),
                ),
            );
        },
    };
    let name = string_from_chars(slice_chars(h.as_slice(), 0, i).as_slice());
    assert(name@ =~= hash@.take(i as int));
    let actual = match compute_filehash(data, name.as_str()) {
        Ok(a) => a,
        Err(_) => {
            return Err(
                Error::InvalidInput(
                    cat(
                        cat("Unsupported hash algorithm: ", name.as_str()).as_str(),
                        ". Supported algorithms: md5, sha1, sha256, sha512",
                    ),
                ),
            );
        },
    };
    let a = chars_of(actual.as_str());
    if chars_equal(a.as_slice(), h.as_slice()) {
        Ok(true)
    } else {
        let m = cat(
            cat("File hash doesn't match:\nactual: ", actual.as_str()).as_str(),
            "\nexpected: ",
        );
        Err(Error::HashMismatch(cat(m.as_str(), hash)))
    }
}

/// What to do with a file already in the cache.
pub enum CachedCopy {
    /// Keep it: no hash was asked for, or its contents have that hash.
    Reuse,
    /// Download it again; the error says why the copy was refused.
    Replace(Error),
}

/// Decides whether a file already in the cache is reused: always when no hash
/// is given, otherwise only when `contents` pass the check against it. The
/// contents are only looked at when a hash is given.
pub fn judge_cached_copy(hash: Option<&str>, contents: &[u8]) -> (r: CachedCopy)
    ensures
        match hash {
            None => r is Reuse,
            Some(h) => match hash_check(contents@, h@) {
                Ok(_) => r is Reuse,
                Err(v) => (r matches CachedCopy::Replace(e) && e.kind() == v.0 && e.message()
                    == v.1),
            },
        },
{
    match hash {
        None => CachedCopy::Reuse,
        Some(h) => match assert_filehash(contents, h) {
            Ok(_) => CachedCopy::Reuse,
            Err(e) => CachedCopy::Replace(e),
        },
    }
}

/// A file's contents hashed with its own algorithm always pass the check
/// against that hash.
pub proof fn lemma_hash_roundtrip(data: Seq<u8>, name: Seq<char>)
    requires
        algorithm_named(name) is Some,
        crate::text::find(name, ":"@) is None,
    ensures
        hash_check(data, file_hash_text(name, data)->0) == Ok::<bool, (ErrorKind, Seq<char>)>(true),
{
    let h = file_hash_text(name, data)->0;
    let colon = ":"@;
    reveal_strlit(":");
    lemma_find_from(name, colon, 0);
    lemma_find_from(h, colon, 0);
    assert(h.subrange(name.len() as int, name.len() as int + 1) =~= colon);
    assert(occurs_at(h, name.len() as int, colon));
    assert forall|j: int| 0 <= j < name.len() implies !occurs_at(h, j, colon) by {
        if occurs_at(h, j, colon) {
            assert(h.subrange(j, j + 1) =~= name.subrange(j, j + 1));
            assert(occurs_at(name, j, colon));
        }
    }
    assert(crate::text::find(h, colon) == Some(name.len() as int));
    assert(h.take(name.len() as int) =~= name);
}

/// A digest in hexadecimal has two digits per byte, each a lower-case
/// hexadecimal digit.
pub proof fn lemma_hex_shape(bytes: Seq<u8>)
    ensures
        hex_lower(bytes).len() == 2 * bytes.len(),
        forall|i: int|
            0 <= i < hex_lower(bytes).len() ==> ('0' <= #[trigger] hex_lower(bytes)[i] <= '9' || 'a'
                <= hex_lower(bytes)[i] <= 'f'),
    decreases bytes.len(),
{
    if bytes.len() > 0 {
        lemma_hex_shape(bytes.drop_last());
        let b = bytes.last() as nat;
        let h = hex_lower(bytes.drop_last());
        let w = h.push(hex_digit(b / 16)).push(hex_digit(b % 16));
        assert forall|i: int| 0 <= i < w.len() implies ('0' <= #[trigger] w[i] <= '9' || 'a' <= w[i]
            <= 'f') by {
            if i < h.len() {
                assert(w[i] == h[i]);
            } else if i == h.len() {
                assert(w[i] == hex_digit(b / 16));
            } else {
                assert(w[i] == hex_digit(b % 16));
            }
        }
    }
}

} // verus!
