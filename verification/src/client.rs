//! Request defaults, filename sanitizing and response-size bookkeeping.
use vstd::prelude::*;

use crate::text::{chars_equal, chars_of, in_class, string_from_chars, trim_chars, trim_class, trim_end_class, trim_start_class, trim_ws, CharClass};

verus! {

/// The largest HTML body, in bytes, that is read from a response.
pub const MAX_RESPONSE_HTML_BYTES: usize = 524288;

/// Returns the browser-style user agent used for file requests by default.
pub fn default_file_user_agent() -> (ua: &'static str)
    ensures
        ua@ == "Mozilla/5.0 (Macintosh; Intel Mac OS X 10_10_1) AppleWebKit/537.36 (KHTML, like Gecko) Chrome/39.0.2171.95 Safari/537.36"@,
{
    "Mozilla/5.0 (Macintosh; Intel Mac OS X 10_10_1) AppleWebKit/537.36 (KHTML, like Gecko) Chrome/39.0.2171.95 Safari/537.36"
}

/// Returns the browser-style user agent used for folder-listing requests by default.
pub fn default_folder_user_agent() -> (ua: &'static str)
    ensures
        ua@ == "Mozilla/5.0 (Macintosh; Intel Mac OS X 10_15_7) AppleWebKit/537.36 (KHTML, like Gecko) Chrome/98.0.4758.102 Safari/537.36"@,
{
    "Mozilla/5.0 (Macintosh; Intel Mac OS X 10_15_7) AppleWebKit/537.36 (KHTML, like Gecko) Chrome/98.0.4758.102 Safari/537.36"
}

/// Path separators become underscores and non-breaking spaces plain spaces.
pub open spec fn clean_filename_char(c: char) -> char {
    if c == '/' || c == '\\' {
        '_'
    } else if c == '\u{A0}' {
        ' '
    } else {
        c
    }
}

/// The cleaned name before the empty / `.` / `..` check: trimmed, unquoted,
/// separators and non-breaking spaces replaced, trimmed again.
pub open spec fn sanitized_core(name: Seq<char>) -> Seq<char> {
    trim_ws(trim_class(trim_ws(name), CharClass::Quote).map_values(|c: char| clean_filename_char(c)))
}

/// What [`sanitize_filename`] returns for `name`.
pub open spec fn sanitized_filename(name: Seq<char>) -> Seq<char> {
    let c = sanitized_core(name);
    if c.len() == 0 || c == seq!['.'] || c == seq!['.', '.'] {
        seq!['_']
    } else {
        c
    }
}

/// A single path component that cannot climb out of or name its directory:
/// non-empty, free of `/` and `\`, and neither `.` nor `..`.
pub open spec fn is_safe_component(s: Seq<char>) -> bool {
    &&& s.len() > 0
    &&& forall|i: int| 0 <= i < s.len() ==> s[i] != '/' && s[i] != '\\'
    &&& s != seq!['.']
    &&& s != seq!['.', '.']
}

proof fn lemma_trim_end_subrange(s: Seq<char>, class: CharClass)
    ensures
        exists|k: int| 0 <= k <= s.len() && trim_end_class(s, class) == s.take(k),
    decreases s.len(),
{
    if s.len() > 0 && in_class(class, s.last()) {
        lemma_trim_end_subrange(s.drop_last(), class);
        let k = choose|k: int|
            0 <= k <= s.drop_last().len() && trim_end_class(s.drop_last(), class)
                == s.drop_last().take(k);
        assert(s.drop_last().take(k) =~= s.take(k));
    } else {
        assert(s.take(s.len() as int) =~= s);
    }
}

proof fn lemma_trim_start_subrange(s: Seq<char>, class: CharClass)
    ensures
        exists|k: int| 0 <= k <= s.len() && trim_start_class(s, class) == s.skip(k),
    decreases s.len(),
{
    if s.len() > 0 && in_class(class, s[0]) {
        lemma_trim_start_subrange(s.drop_first(), class);
        let k = choose|k: int|
            0 <= k <= s.drop_first().len() && trim_start_class(s.drop_first(), class)
                == s.drop_first().skip(k);
        assert(s.drop_first().skip(k) =~= s.skip(k + 1));
    } else {
        assert(s.skip(0) =~= s);
    }
}

/// Every character of a trimmed sequence comes from the untrimmed one.
pub proof fn lemma_trim_chars_from(s: Seq<char>, class: CharClass)
    ensures
        forall|i: int|
            0 <= i < trim_class(s, class).len() ==> s.contains(#[trigger] trim_class(s, class)[i]),
{
    lemma_trim_start_subrange(s, class);
    let k = choose|k: int| 0 <= k <= s.len() && trim_start_class(s, class) == s.skip(k);
    let t = s.skip(k);
    lemma_trim_end_subrange(t, class);
    let m = choose|m: int| 0 <= m <= t.len() && trim_end_class(t, class) == t.take(m);
    assert forall|i: int| 0 <= i < trim_class(s, class).len() implies s.contains(
        #[trigger] trim_class(s, class)[i],
    ) by {
        assert(trim_class(s, class)[i] == s[k + i]);
    }
}

/// Converts an untrusted filename into a single safe path component.
///
/// Leading and trailing whitespace or quotes are removed, path separators become
/// underscores, and non-breaking spaces become ordinary spaces. Empty names and
/// the special components `.` and `..` become `_`.
pub fn sanitize_filename(name: &str) -> (r: String)
    ensures
        r@ == sanitized_filename(name@),
        is_safe_component(r@),
{
    let chars = chars_of(name);
    let t1 = trim_chars(chars.as_slice(), CharClass::Whitespace);
    let t2 = trim_chars(t1.as_slice(), CharClass::Quote);
    let mut mapped: Vec<char> = Vec::new();
    let mut i: usize = 0;
    while i < t2.len()
        invariant
            i <= t2@.len(),
            mapped@ == t2@.take(i as int).map_values(|c: char| clean_filename_char(c)),
        decreases t2.len() - i,
    {
        let c = t2[i];
        let d = if c == '/' || c == '\\' {
            '_'
        } else if c == '\u{A0}' {
            ' '
        } else {
            c
        };
        mapped.push(d);
        assert(t2@.take(i + 1).map_values(|c: char| clean_filename_char(c)) =~= t2@.take(
            i as int,
        ).map_values(|c: char| clean_filename_char(c)).push(d));
        i = i + 1;
    }
    assert(t2@.take(t2@.len() as int) =~= t2@);
    let t3 = trim_chars(mapped.as_slice(), CharClass::Whitespace);
    proof {
        lemma_trim_chars_from(mapped@, CharClass::Whitespace);
        assert forall|j: int| 0 <= j < t3@.len() implies t3@[j] != '/' && t3@[j] != '\\' by {
            let c = t3@[j];
            assert(mapped@.contains(c));
            let k = choose|k: int| 0 <= k < mapped@.len() && mapped@[k] == c;
            assert(mapped@[k] == clean_filename_char(t2@[k]));
        }
    }
    let dot: [char; 1] = ['.'];
    let dotdot: [char; 2] = ['.', '.'];
    assert(dot@ =~= seq!['.']);
    assert(dotdot@ =~= seq!['.', '.']);
    if t3.len() == 0 || chars_equal(t3.as_slice(), dot.as_slice()) || chars_equal(
        t3.as_slice(),
        dotdot.as_slice(),
    ) {
        let u: [char; 1] = ['_'];
        assert(u@ =~= seq!['_']);
        string_from_chars(u.as_slice())
    } else {
        string_from_chars(t3.as_slice())
    }
}

proof fn lemma_trim_start_edge(s: Seq<char>, class: CharClass)
    ensures
        trim_start_class(s, class).len() > 0 ==> !in_class(class, trim_start_class(s, class)[0]),
    decreases s.len(),
{
    if s.len() > 0 && in_class(class, s[0]) {
        lemma_trim_start_edge(s.drop_first(), class);
    }
}

proof fn lemma_trim_end_edge(s: Seq<char>, class: CharClass)
    ensures
        trim_end_class(s, class).len() > 0 ==> !in_class(
            class,
            trim_end_class(s, class).last(),
        ),
    decreases s.len(),
{
    if s.len() > 0 && in_class(class, s.last()) {
        lemma_trim_end_edge(s.drop_last(), class);
    }
}

/// A sequence whose first and last characters are outside `class` (or that is
/// empty) is left as it is by trimming.
proof fn lemma_trim_untouched(s: Seq<char>, class: CharClass)
    requires
        s.len() > 0 ==> !in_class(class, s[0]) && !in_class(class, s.last()),
    ensures
        trim_class(s, class) == s,
{
}

/// Trimming twice trims no more than trimming once.
proof fn lemma_trim_idempotent(s: Seq<char>, class: CharClass)
    ensures
        trim_class(trim_class(s, class), class) == trim_class(s, class),
{
    let t = trim_start_class(s, class);
    lemma_trim_start_edge(s, class);
    lemma_trim_end_subrange(t, class);
    lemma_trim_end_edge(t, class);
    let r = trim_end_class(t, class);
    let m = choose|m: int| 0 <= m <= t.len() && r == t.take(m);
    if r.len() > 0 {
        assert(r[0] == t[0]);
    }
    lemma_trim_untouched(r, class);
}

/// What `sanitize_filename` returns is a safe component that holds no
/// non-breaking space and has no whitespace to trim at either end.
pub proof fn lemma_sanitize_filename_trimmed(name: Seq<char>)
    ensures
        is_safe_component(sanitized_filename(name)),
        forall|i: int|
            0 <= i < sanitized_filename(name).len() ==> #[trigger] sanitized_filename(name)[i]
                != '\u{A0}',
        trim_ws(sanitized_filename(name)) == sanitized_filename(name),
{
    let mapped = trim_class(trim_ws(name), CharClass::Quote).map_values(
        |c: char| clean_filename_char(c),
    );
    let core = sanitized_core(name);
    lemma_trim_chars_from(mapped, CharClass::Whitespace);
    assert forall|j: int| 0 <= j < core.len() implies core[j] != '/' && core[j] != '\\'
        && core[j] != '\u{A0}' by {
        let c = core[j];
        assert(mapped.contains(c));
        let k = choose|k: int| 0 <= k < mapped.len() && mapped[k] == c;
        assert(mapped[k] == clean_filename_char(
            trim_class(trim_ws(name), CharClass::Quote)[k],
        ));
    }
    lemma_trim_idempotent(mapped, CharClass::Whitespace);
    let u = seq!['_'];
    if core.len() == 0 || core == seq!['.'] || core == seq!['.', '.'] {
        assert(!in_class(CharClass::Whitespace, '_'));
        lemma_trim_untouched(u, CharClass::Whitespace);
        assert(u[0] == '_');
    }
}

/// A name that is already a trimmed, unquoted, safe component comes back from
/// `sanitize_filename` unchanged.
pub proof fn lemma_sanitize_filename_keeps_safe_names(name: Seq<char>)
    requires
        trim_ws(name) == name,
        name.len() > 0,
        name != seq!['.'],
        name != seq!['.', '.'],
        !in_class(CharClass::Quote, name[0]),
        !in_class(CharClass::Quote, name.last()),
        forall|i: int|
            0 <= i < name.len() ==> #[trigger] name[i] != '/' && name[i] != '\\' && name[i]
                != '\u{A0}',
    ensures
        sanitized_filename(name) == name,
{
    lemma_trim_untouched(name, CharClass::Quote);
    let mapped = trim_class(trim_ws(name), CharClass::Quote).map_values(
        |c: char| clean_filename_char(c),
    );
    assert(mapped =~= name);
}

/// The decimal value of a string of ASCII digits.
pub open spec fn decimal_value(d: Seq<char>) -> int
    decreases d.len(),
{
    if d.len() == 0 {
        0
    } else {
        decimal_value(d.drop_last()) * 10 + (d.last() as int - '0' as int)
    }
}

pub open spec fn is_ascii_digit(c: char) -> bool {
    '0' <= c <= '9'
}

/// The digits of an unsigned number: `s` without one leading `+`.
pub open spec fn unsigned_digits(s: Seq<char>) -> Seq<char> {
    if s.len() > 0 && s[0] == '+' {
        s.drop_first()
    } else {
        s
    }
}

pub open spec fn all_ascii_digits(d: Seq<char>) -> bool {
    forall|i: int| 0 <= i < d.len() ==> is_ascii_digit(#[trigger] d[i])
}

/// What `str::parse::<u64>` returns: an optional `+`, then at least one ASCII
/// digit, with a value that fits in a `u64`.
pub open spec fn parsed_u64(s: Seq<char>) -> Option<u64> {
    let d = unsigned_digits(s);
    if d.len() > 0 && all_ascii_digits(d) && decimal_value(d) <= u64::MAX {
        Some(decimal_value(d) as u64)
    } else {
        None
    }
}

proof fn lemma_decimal_value_monotone(d: Seq<char>, k: int)
    requires
        0 <= k <= d.len(),
        forall|i: int| 0 <= i < d.len() ==> is_ascii_digit(d[i]),
    ensures
        0 <= decimal_value(d.take(k)) <= decimal_value(d),
    decreases d.len(),
{
    if k == d.len() {
        assert(d.take(k) =~= d);
        lemma_decimal_value_nonneg(d);
    } else {
        lemma_decimal_value_monotone(d.drop_last(), k);
        assert(d.drop_last().take(k) =~= d.take(k));
        lemma_decimal_value_nonneg(d.drop_last());
    }
}

proof fn lemma_decimal_value_nonneg(d: Seq<char>)
    requires
        forall|i: int| 0 <= i < d.len() ==> is_ascii_digit(d[i]),
    ensures
        0 <= decimal_value(d),
    decreases d.len(),
{
    if d.len() > 0 {
        lemma_decimal_value_nonneg(d.drop_last());
    }
}

/// Reads a `Content-Length` header value as a byte count.
///
/// Returns [`None`] when the header is absent or not an unsigned integer.
pub fn content_length(header: Option<&str>) -> (n: Option<u64>)
    ensures
        n == match header {
            Some(h) => parsed_u64(h@),
            None => None,
        },
{
    let h = match header {
        Some(h) => h,
        None => return None,
    };
    let s = chars_of(h);
    let start: usize = if s.len() > 0 && s[0] == '+' {
        1
    } else {
        0
    };
    let ghost d = s@.skip(start as int);
    assert(d =~= unsigned_digits(s@));
    if start >= s.len() {
        return None;
    }
    let mut v: u64 = 0;
    let mut i = start;
    while i < s.len()
        invariant
            start <= i <= s@.len(),
            header == Some(h),
            s@ == h@,
            d == s@.skip(start as int),
            d == unsigned_digits(s@),
            forall|j: int| start <= j < i ==> is_ascii_digit(s@[j]),
            v == decimal_value(s@.subrange(start as int, i as int)),
        decreases s.len() - i,
    {
        let c = s[i];
        if !('0' <= c && c <= '9') {
            assert(d[i - start] == c);
            assert(!is_ascii_digit(d[i - start]));
            assert(!all_ascii_digits(d));
            return None;
        }
        let digit = (c as u32 - '0' as u32) as u64;
        assert(s@.subrange(start as int, i + 1).drop_last() =~= s@.subrange(start as int, i as int));
        if v > (u64::MAX - digit) / 10 {
            proof {
                if all_ascii_digits(d) {
                    let k = (i + 1 - start) as int;
                    assert(d.take(k) =~= s@.subrange(start as int, i + 1));
                    lemma_decimal_value_monotone(d, k);
                    assert(decimal_value(d.take(k)) == v * 10 + digit);
                    assert(v * 10 + digit > u64::MAX) by (nonlinear_arith)
                        requires
                            v > (u64::MAX - digit) / 10,
                            digit <= 9,
                    ;
                }
            }
            return None;
        }
        v = v * 10 + digit;
        i = i + 1;
    }
    assert(s@.subrange(start as int, s@.len() as int) =~= d);
    Some(v)
}

/// Adds to `buf` as much of `chunk` as fits under [`MAX_RESPONSE_HTML_BYTES`],
/// and returns whether to keep reading: not once the limit is reached before
/// the chunk, nor when the chunk did not fit whole.
pub fn absorb_limited(buf: &mut Vec<u8>, chunk: &[u8]) -> (more: bool)
    ensures
        ({
            let room = if old(buf)@.len() < 524288 {
                524288 - old(buf)@.len()
            } else {
                0
            };
            let take = if chunk@.len() < room {
                chunk@.len() as int
            } else {
                room
            };
            &&& final(buf)@ == old(buf)@ + chunk@.take(take)
            &&& more == (room > 0 && take == chunk@.len())
        }),
        old(buf)@.len() <= 524288 ==> final(buf)@.len() <= 524288,
{
    let remaining = MAX_RESPONSE_HTML_BYTES.saturating_sub(buf.len());
    if remaining == 0 {
        assert(chunk@.take(0) =~= Seq::<u8>::empty());
        assert(buf@ =~= buf@ + Seq::<u8>::empty());
        return false;
    }
    let take = if chunk.len() < remaining {
        chunk.len()
    } else {
        remaining
    };
    let ghost b0 = buf@;
    let mut i: usize = 0;
    while i < take
        invariant
            i <= take <= chunk@.len(),
            buf@ == b0 + chunk@.take(i as int),
        decreases take - i,
    {
        buf.push(chunk[i]);
        assert(chunk@.take(i + 1) =~= chunk@.take(i as int).push(chunk@[i as int]));
        i = i + 1;
    }
    take == chunk.len()
}

/// The text of `bytes` with each invalid UTF-8 sequence replaced by U+FFFD, as
/// `String::from_utf8_lossy` makes it.
pub uninterp spec fn utf8_lossy(bytes: Seq<u8>) -> Seq<char>;

/// Decodes a response body as UTF-8, replacing invalid sequences
/// (`String::from_utf8_lossy`).
///
/// Trusted: the result is the named [`utf8_lossy`] of the bytes; for valid
/// UTF-8, as std documents, it is the decoded text.
#[verifier::external_body]
pub fn lossy_text(bytes: &[u8]) -> (r: String)
    ensures
        r@ == utf8_lossy(bytes@),
        vstd::utf8::valid_utf8(bytes@) ==> r@ == vstd::utf8::decode_utf8(bytes@),
{
    String::from_utf8_lossy(bytes).into_owned()
}

} // verus!
