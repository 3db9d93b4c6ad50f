//! Character-sequence helpers shared by the parsers, with their specifications.
//!
//! Everything here works on `Seq<char>` in specifications and on `&[char]` /
//! `Vec<char>` in executable code, so that string contracts can be stated
//! exactly.
use vstd::prelude::*;

verus! {

/// Copies the characters of `s` into a vector.
pub fn chars_of(s: &str) -> (v: Vec<char>)
    ensures
        v@ == s@,
{
    let mut v: Vec<char> = Vec::new();
    for c in it: s.chars()
        invariant
            v@ == it.seq().take(it.index() as int),
            it.seq() == s@,
    {
        v.push(c);
    }
    v
}

/// Collects characters into an owned string (`String: FromIterator<char>`).
#[verifier::external_body]
pub fn string_from_chars(v: &[char]) -> (s: String)
    ensures
        s@ == v@,
{
    v.iter().collect()
}

/// The characters that `char::is_whitespace` accepts: those with the Unicode
/// `White_Space` property.
pub open spec fn is_unicode_whitespace(c: char) -> bool {
    let u = c as u32;
    ||| 0x9 <= u <= 0xD
    ||| u == 0x20
    ||| u == 0x85
    ||| u == 0xA0
    ||| u == 0x1680
    ||| 0x2000 <= u <= 0x200A
    ||| u == 0x2028
    ||| u == 0x2029
    ||| u == 0x202F
    ||| u == 0x205F
    ||| u == 0x3000
}

/// Executable counterpart of [`is_unicode_whitespace`].
pub fn is_whitespace(c: char) -> (b: bool)
    ensures
        b == is_unicode_whitespace(c),
{
    let u = c as u32;
    (0x9 <= u && u <= 0xD) || u == 0x20 || u == 0x85 || u == 0xA0 || u == 0x1680 || (0x2000
        <= u && u <= 0x200A) || u == 0x2028 || u == 0x2029 || u == 0x202F || u == 0x205F || u
        == 0x3000
}

/// Character classes that the trimming helpers strip.
#[derive(Clone, Copy, PartialEq, Eq, Debug)]
pub enum CharClass {
    /// Unicode whitespace, as `str::trim` strips it.
    Whitespace,
    /// Single and double quotes.
    Quote,
}

pub open spec fn in_class(class: CharClass, c: char) -> bool {
    match class {
        CharClass::Whitespace => is_unicode_whitespace(c),
        CharClass::Quote => c == '\'' || c == '"',
    }
}

fn class_contains(class: CharClass, c: char) -> (b: bool)
    ensures
        b == in_class(class, c),
{
    match class {
        CharClass::Whitespace => is_whitespace(c),
        CharClass::Quote => c == '\'' || c == '"',
    }
}

/// `s` without its leading characters of `class`.
pub open spec fn trim_start_class(s: Seq<char>, class: CharClass) -> Seq<char>
    decreases s.len(),
{
    if s.len() > 0 && in_class(class, s[0]) {
        trim_start_class(s.drop_first(), class)
    } else {
        s
    }
}

/// `s` without its trailing characters of `class`.
pub open spec fn trim_end_class(s: Seq<char>, class: CharClass) -> Seq<char>
    decreases s.len(),
{
    if s.len() > 0 && in_class(class, s.last()) {
        trim_end_class(s.drop_last(), class)
    } else {
        s
    }
}

/// `s` without leading and trailing characters of `class` (`str::trim_matches`).
pub open spec fn trim_class(s: Seq<char>, class: CharClass) -> Seq<char> {
    trim_end_class(trim_start_class(s, class), class)
}

/// `str::trim`: strips Unicode whitespace at both ends.
pub open spec fn trim_ws(s: Seq<char>) -> Seq<char> {
    trim_class(s, CharClass::Whitespace)
}

/// Strips the characters of `class` at both ends of `s`.
pub fn trim_chars(s: &[char], class: CharClass) -> (r: Vec<char>)
    ensures
        r@ == trim_class(s@, class),
{
    let n = s.len();
    let mut lo: usize = 0;
    assert(s@.skip(0) =~= s@);
    while lo < n && class_contains(class, s[lo])
        invariant
            lo <= n,
            n == s@.len(),
            trim_start_class(s@, class) == trim_start_class(s@.skip(lo as int), class),
        decreases n - lo,
    {
        assert(s@.skip(lo as int).drop_first() =~= s@.skip(lo + 1));
        lo = lo + 1;
    }
    assert(trim_start_class(s@, class) == s@.skip(lo as int)) by {
        let t = s@.skip(lo as int);
        if t.len() > 0 {
            assert(t[0] == s@[lo as int]);
        }
    }
    let mut hi: usize = n;
    while hi > lo && class_contains(class, s[hi - 1])
        invariant
            lo <= hi <= n,
            n == s@.len(),
            trim_class(s@, class) == trim_end_class(s@.subrange(lo as int, hi as int), class),
        decreases hi,
    {
        let ghost t = s@.subrange(lo as int, hi as int);
        assert(t.last() == s@[hi - 1]);
        assert(t.drop_last() =~= s@.subrange(lo as int, hi - 1));
        hi = hi - 1;
    }
    let ghost t = s@.subrange(lo as int, hi as int);
    assert(trim_class(s@, class) == t) by {
        if t.len() > 0 {
            assert(t.last() == s@[hi - 1]);
        }
    }
    let mut r: Vec<char> = Vec::new();
    let mut i = lo;
    while i < hi
        invariant
            lo <= i <= hi <= n,
            n == s@.len(),
            r@ == s@.subrange(lo as int, i as int),
        decreases hi - i,
    {
        r.push(s[i]);
        assert(r@ =~= s@.subrange(lo as int, i + 1));
        i = i + 1;
    }
    r
}

/// `s` has `p` at position `i`.
pub open spec fn occurs_at(s: Seq<char>, i: int, p: Seq<char>) -> bool {
    0 <= i && i + p.len() <= s.len() && s.subrange(i, i + p.len()) == p
}

pub open spec fn starts_with(s: Seq<char>, p: Seq<char>) -> bool {
    occurs_at(s, 0, p)
}

pub open spec fn ends_with(s: Seq<char>, p: Seq<char>) -> bool {
    occurs_at(s, s.len() - p.len(), p)
}

/// Whether `p` occurs in `s` at position `i`.
pub fn matches_at(s: &[char], i: usize, p: &[char]) -> (b: bool)
    ensures
        b == occurs_at(s@, i as int, p@),
{
    if i > s.len() || p.len() > s.len() - i {
        return false;
    }
    let n = s.len();
    let mut k: usize = 0;
    while k < p.len()
        invariant
            n == s@.len(),
            i + p@.len() <= s@.len(),
            k <= p@.len(),
            forall|j: int| 0 <= j < k ==> s@[i + j] == p@[j],
        decreases p.len() - k,
    {
        assert(i + k < s@.len());
        if s[i + k] != p[k] {
            assert(s@.subrange(i as int, i + p@.len())[k as int] != p@[k as int]);
            return false;
        }
        k = k + 1;
    }
    assert(s@.subrange(i as int, i + p@.len()) =~= p@);
    true
}

/// Whether `s` begins with `p`.
pub fn has_prefix(s: &[char], p: &[char]) -> (b: bool)
    ensures
        b == starts_with(s@, p@),
{
    matches_at(s, 0, p)
}

/// Whether `s` ends with `p`.
pub fn has_suffix(s: &[char], p: &[char]) -> (b: bool)
    ensures
        b == ends_with(s@, p@),
{
    if p.len() > s.len() {
        false
    } else {
        matches_at(s, s.len() - p.len(), p)
    }
}

/// Whether two character sequences are equal.
pub fn chars_equal(a: &[char], b: &[char]) -> (r: bool)
    ensures
        r == (a@ == b@),
{
    if a.len() != b.len() {
        return false;
    }
    let r = matches_at(a, 0, b);
    assert(a@.subrange(0, a@.len() as int) =~= a@);
    r
}

/// The first position at or after `from` where `p` occurs in `s`.
pub open spec fn find_from(s: Seq<char>, p: Seq<char>, from: int) -> Option<int>
    decreases s.len() + 1 - from,
{
    if from < 0 || from + p.len() > s.len() {
        None
    } else if occurs_at(s, from, p) {
        Some(from)
    } else {
        find_from(s, p, from + 1)
    }
}

/// The first position where `p` occurs in `s` (`str::find`).
pub open spec fn find(s: Seq<char>, p: Seq<char>) -> Option<int> {
    find_from(s, p, 0)
}

/// What [`find_from`] returns: a position with an occurrence and none before it.
pub proof fn lemma_find_from(s: Seq<char>, p: Seq<char>, from: int)
    requires
        0 <= from,
    ensures
        match find_from(s, p, from) {
            Some(i) => from <= i && occurs_at(s, i, p) && forall|j: int|
                from <= j < i ==> !occurs_at(s, j, p),
            None => forall|j: int| from <= j ==> !occurs_at(s, j, p),
        },
    decreases s.len() + 1 - from,
{
    if from + p.len() > s.len() {
    } else if occurs_at(s, from, p) {
    } else {
        lemma_find_from(s, p, from + 1);
    }
}

/// Locates the first occurrence of `p` in `s` at or after `from`.
pub fn find_chars_from(s: &[char], p: &[char], from: usize) -> (r: Option<usize>)
    ensures
        r matches Some(i) ==> find_from(s@, p@, from as int) == Some(i as int),
        r is None ==> find_from(s@, p@, from as int) is None,
{
    let mut i = from;
    loop
        invariant
            from <= i,
            find_from(s@, p@, from as int) == find_from(s@, p@, i as int),
        decreases s.len() + 1 - i,
    {
        if i > s.len() || p.len() > s.len() - i {
            return None;
        }
        if matches_at(s, i, p) {
            return Some(i);
        }
        assert(p@.len() > 0) by {
            if p@.len() == 0 {
                assert(s@.subrange(i as int, i as int) =~= p@);
            }
        }
        i = i + 1;
    }
}

/// The last position where `p` occurs in `s`, looking at positions below `end` (`str::rfind`).
pub open spec fn rfind_before(s: Seq<char>, p: Seq<char>, end: int) -> Option<int>
    decreases end,
{
    if end <= 0 {
        None
    } else if occurs_at(s, end - 1, p) {
        Some(end - 1)
    } else {
        rfind_before(s, p, end - 1)
    }
}

/// The last position where `p` occurs in `s` (`str::rfind`).
pub open spec fn rfind(s: Seq<char>, p: Seq<char>) -> Option<int> {
    rfind_before(s, p, s.len() + 1int)
}

/// Locates the last occurrence of `p` in `s`.
pub fn rfind_chars(s: &[char], p: &[char]) -> (r: Option<usize>)
    ensures
        r matches Some(i) ==> rfind(s@, p@) == Some(i as int),
        r is None ==> rfind(s@, p@) is None,
{
    if matches_at(s, s.len(), p) {
        return Some(s.len());
    }
    let mut end = s.len();
    while end > 0
        invariant
            end <= s@.len() + 1,
            rfind(s@, p@) == rfind_before(s@, p@, end as int),
        decreases end,
    {
        if matches_at(s, end - 1, p) {
            return Some(end - 1);
        }
        end = end - 1;
    }
    None
}

/// `str::replace`: every non-overlapping occurrence of `p`, from the left, becomes `r`.
pub open spec fn replace_all(s: Seq<char>, p: Seq<char>, r: Seq<char>) -> Seq<char>
    recommends
        p.len() > 0,
    decreases s.len(),
{
    if s.len() == 0 || p.len() == 0 {
        s
    } else if starts_with(s, p) {
        r + replace_all(s.skip(p.len() as int), p, r)
    } else {
        seq![s[0]] + replace_all(s.drop_first(), p, r)
    }
}

proof fn lemma_replace_all_match(s: Seq<char>, p: Seq<char>, r: Seq<char>, i: int)
    requires
        p.len() > 0,
        0 <= i < s.len(),
        occurs_at(s, i, p),
    ensures
        replace_all(s.skip(i), p, r) == r + replace_all(s.skip(i + p.len()), p, r),
{
    let t = s.skip(i);
    assert(t.subrange(0, p.len() as int) =~= s.subrange(i, i + p.len()));
    assert(t.skip(p.len() as int) =~= s.skip(i + p.len()));
}

proof fn lemma_replace_all_no_match(s: Seq<char>, p: Seq<char>, r: Seq<char>, i: int)
    requires
        p.len() > 0,
        0 <= i < s.len(),
        !occurs_at(s, i, p),
    ensures
        replace_all(s.skip(i), p, r) == seq![s[i]] + replace_all(s.skip(i + 1), p, r),
{
    let t = s.skip(i);
    assert(t[0] == s[i]);
    assert(t.drop_first() =~= s.skip(i + 1));
    if starts_with(t, p) {
        assert(t.subrange(0, p.len() as int) =~= s.subrange(i, i + p.len()));
    }
}

/// Replaces every occurrence of `p` in `s` by `r`, scanning from the left.
pub fn replace_chars(s: &[char], p: &[char], r: &[char]) -> (out: Vec<char>)
    requires
        p@.len() > 0,
    ensures
        out@ == replace_all(s@, p@, r@),
{
    let mut out: Vec<char> = Vec::new();
    let mut i: usize = 0;
    assert(s@.skip(0) =~= s@);
    while i < s.len()
        invariant
            i <= s@.len(),
            p@.len() > 0,
            out@ + replace_all(s@.skip(i as int), p@, r@) == replace_all(s@, p@, r@),
        decreases s.len() - i,
    {
        let ghost before = out@;
        if matches_at(s, i, p) {
            proof {
                lemma_replace_all_match(s@, p@, r@, i as int);
            }
            push_all(&mut out, r);
            assert(before + (r@ + replace_all(s@.skip(i + p@.len()), p@, r@)) =~= (before + r@)
                + replace_all(s@.skip(i + p@.len()), p@, r@));
            i = i + p.len();
        } else {
            proof {
                lemma_replace_all_no_match(s@, p@, r@, i as int);
            }
            out.push(s[i]);
            assert(before + (seq![s@[i as int]] + replace_all(s@.skip(i + 1), p@, r@)) =~= (
            before.push(s@[i as int])) + replace_all(s@.skip(i + 1), p@, r@));
            i = i + 1;
        }
    }
    assert(s@.skip(i as int) =~= Seq::<char>::empty());
    assert(out@ + Seq::<char>::empty() =~= out@);
    out
}

/// Copies `s[from..to]`.
pub fn slice_chars(s: &[char], from: usize, to: usize) -> (r: Vec<char>)
    requires
        from <= to <= s@.len(),
    ensures
        r@ == s@.subrange(from as int, to as int),
{
    let mut r: Vec<char> = Vec::new();
    let mut i = from;
    while i < to
        invariant
            from <= i <= to <= s@.len(),
            r@ == s@.subrange(from as int, i as int),
        decreases to - i,
    {
        r.push(s[i]);
        assert(r@ =~= s@.subrange(from as int, i + 1));
        i = i + 1;
    }
    r
}

/// Appends `b` to `a`.
pub fn push_all(a: &mut Vec<char>, b: &[char])
    ensures
        final(a)@ == old(a)@ + b@,
{
    let ghost a0 = a@;
    let mut i: usize = 0;
    while i < b.len()
        invariant
            i <= b@.len(),
            a@ == a0 + b@.take(i as int),
        decreases b.len() - i,
    {
        a.push(b[i]);
        assert(b@.take(i + 1) =~= b@.take(i as int).push(b@[i as int]));
        i = i + 1;
    }
    assert(b@.take(b@.len() as int) =~= b@);
}

/// `a` followed by `b`.
pub fn cat(a: &str, b: &str) -> (r: String)
    ensures
        r@ == a@ + b@,
{
    let mut v = chars_of(a);
    let w = chars_of(b);
    push_all(&mut v, w.as_slice());
    string_from_chars(v.as_slice())
}

/// `prefix` followed by the characters `rest`.
pub fn joined(prefix: &str, rest: &[char]) -> (r: String)
    ensures
        r@ == prefix@ + rest@,
{
    let mut v = chars_of(prefix);
    push_all(&mut v, rest);
    string_from_chars(v.as_slice())
}

/// The character of the decimal digit `d` (`d < 10`).
pub open spec fn digit_char(d: nat) -> char {
    (48 + d) as char
}

/// The decimal representation of `n`, without leading zeros.
pub open spec fn decimal_digits(n: nat) -> Seq<char>
    decreases n,
{
    if n < 10 {
        seq![digit_char(n)]
    } else {
        decimal_digits(n / 10).push(digit_char(n % 10))
    }
}

fn digit(d: u64) -> (c: char)
    requires
        d < 10,
    ensures
        c == digit_char(d as nat),
{
    match d {
        0 => '0',
        1 => '1',
        2 => '2',
        3 => '3',
        4 => '4',
        5 => '5',
        6 => '6',
        7 => '7',
        8 => '8',
        _ => '9',
    }
}

fn decimal_chars(n: u64) -> (v: Vec<char>)
    ensures
        v@ == decimal_digits(n as nat),
    decreases n,
{
    if n < 10 {
        vec![digit(n)]
    } else {
        let mut v = decimal_chars(n / 10);
        v.push(digit(n % 10));
        v
    }
}

/// The decimal representation of `n` (`u64`'s `Display`).
pub fn decimal_text(n: u64) -> (s: String)
    ensures
        s@ == decimal_digits(n as nat),
{
    let v = decimal_chars(n);
    string_from_chars(v.as_slice())
}

/// The number of bytes `c` takes in UTF-8.
pub open spec fn char_utf8_len(c: char) -> nat {
    let u = c as u32;
    if u < 0x80 {
        1
    } else if u < 0x800 {
        2
    } else if u < 0x10000 {
        3
    } else {
        4
    }
}

/// The number of bytes `s` takes in UTF-8 (`String::len`).
pub open spec fn utf8_len(s: Seq<char>) -> nat
    decreases s.len(),
{
    if s.len() == 0 {
        0
    } else {
        utf8_len(s.drop_last()) + char_utf8_len(s.last())
    }
}

/// The number of bytes the characters `s` take in UTF-8.
pub fn utf8_len_of(s: &[char]) -> (n: u128)
    ensures
        n == utf8_len(s@),
{
    let mut n: u128 = 0;
    let mut i: usize = 0;
    while i < s.len()
        invariant
            i <= s@.len(),
            n == utf8_len(s@.take(i as int)),
            n <= 4 * i,
        decreases s.len() - i,
    {
        assert(s@.take(i + 1).drop_last() =~= s@.take(i as int));
        assert(s@.take(i + 1).last() == s@[i as int]);
        let u = s[i] as u32;
        let w: u128 = if u < 0x80 {
            1
        } else if u < 0x800 {
            2
        } else if u < 0x10000 {
            3
        } else {
            4
        };
        n = n + w;
        i = i + 1;
    }
    assert(s@.take(s@.len() as int) =~= s@);
    n
}

} // verus!
