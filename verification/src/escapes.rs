//! Decoding of the JavaScript string escapes that Google Drive pages embed data in.
use vstd::prelude::*;

use crate::text::{chars_of, push_all, string_from_chars};

verus! {

pub open spec fn is_hex_char(c: char) -> bool {
    ||| '0' <= c <= '9'
    ||| 'a' <= c <= 'f'
    ||| 'A' <= c <= 'F'
}

pub open spec fn hex_char_value(c: char) -> int {
    if '0' <= c <= '9' {
        c as int - '0' as int
    } else if 'a' <= c <= 'f' {
        c as int - 'a' as int + 10
    } else {
        c as int - 'A' as int + 10
    }
}

/// The value of a string of hexadecimal digits.
pub open spec fn hex_value(d: Seq<char>) -> int
    decreases d.len(),
{
    if d.len() == 0 {
        0
    } else {
        hex_value(d.drop_last()) * 16 + hex_char_value(d.last())
    }
}

/// `s` without one leading `+`.
pub open spec fn radix_digits(s: Seq<char>) -> Seq<char> {
    if s.len() > 0 && s[0] == '+' {
        s.drop_first()
    } else {
        s
    }
}

pub open spec fn all_hex(d: Seq<char>) -> bool {
    forall|i: int| 0 <= i < d.len() ==> is_hex_char(#[trigger] d[i])
}

/// What `from_str_radix(s, 16)` returns for an unsigned integer type wide enough
/// for the value: an optional `+`, then only hexadecimal digits, at least one.
pub open spec fn radix16_value(s: Seq<char>) -> Option<int> {
    if s.len() == 0 || (s.len() == 1 && (s[0] == '+' || s[0] == '-')) {
        None
    } else {
        let d = radix_digits(s);
        if all_hex(d) {
            Some(hex_value(d))
        } else {
            None
        }
    }
}

/// Code points that `char::from_u32` accepts.
pub open spec fn is_char_code(v: int) -> bool {
    (0 <= v < 0xD800) || (0xE000 <= v <= 0x10FFFF)
}

/// `char::from_u32`: the character with code point `v`, if there is one.
#[verifier::external_body]
fn char_from_u32(v: u32) -> (c: Option<char>)
    ensures
        c is Some <==> is_char_code(v as int),
        c matches Some(ch) ==> ch as int == v as int,
{
    char::from_u32(v)
}

/// What `\xHH` decodes to, given the (up to two) characters after `x`.
pub open spec fn decoded_x_escape(hex: Seq<char>) -> Seq<char> {
    match radix16_value(hex) {
        Some(v) => seq![v as char],
        None => seq!['\\', 'x'] + hex,
    }
}

/// What `\uHHHH` decodes to, given the (up to four) characters after `u`; a value
/// that is no character decodes to nothing.
pub open spec fn decoded_u_escape(hex: Seq<char>) -> Seq<char> {
    match radix16_value(hex) {
        Some(v) => if is_char_code(v) {
            seq![v as char]
        } else {
            seq![]
        },
        None => seq!['\\', 'u'] + hex,
    }
}

/// What `\c` decodes to for a `c` other than `x` and `u`.
pub open spec fn decoded_simple_escape(c: char) -> Seq<char> {
    if c == 'n' {
        seq!['\n']
    } else if c == 'r' {
        seq!['\r']
    } else if c == 't' {
        seq!['\t']
    } else if c == '\\' || c == '\'' || c == '"' || c == '/' {
        seq![c]
    } else {
        seq!['\\', c]
    }
}

pub open spec fn min_int(a: int, b: int) -> int {
    if a <= b {
        a
    } else {
        b
    }
}

/// The decoding of `s` from position `i` on.
pub open spec fn decoded_from(s: Seq<char>, i: int) -> Seq<char>
    decreases s.len() - i,
{
    if i < 0 || i >= s.len() {
        seq![]
    } else if s[i] != '\\' {
        seq![s[i]] + decoded_from(s, i + 1)
    } else if i + 1 >= s.len() {
        seq!['\\']
    } else if s[i + 1] == 'x' {
        let e = min_int(i + 4, s.len() as int);
        decoded_x_escape(s.subrange(i + 2, e)) + decoded_from(s, e)
    } else if s[i + 1] == 'u' {
        let e = min_int(i + 6, s.len() as int);
        decoded_u_escape(s.subrange(i + 2, e)) + decoded_from(s, e)
    } else {
        decoded_simple_escape(s[i + 1]) + decoded_from(s, i + 2)
    }
}

/// The decoding of JavaScript escapes in `s`.
pub open spec fn decoded_escapes(s: Seq<char>) -> Seq<char> {
    decoded_from(s, 0)
}

/// Parses up to four characters as `from_str_radix(_, 16)` does.
fn radix16(hex: &[char]) -> (r: Option<u32>)
    requires
        hex@.len() <= 4,
    ensures
        r matches Some(v) ==> radix16_value(hex@) == Some(v as int) && v < pow16(hex@.len() as int),
        r is None ==> radix16_value(hex@) is None,
{
    let n = hex.len();
    if n == 0 || (n == 1 && (hex[0] == '+' || hex[0] == '-')) {
        return None;
    }
    let start: usize = if hex[0] == '+' {
        1
    } else {
        0
    };
    let ghost d = radix_digits(hex@);
    assert(d =~= hex@.skip(start as int));
    let mut v: u32 = 0;
    let mut i = start;
    while i < n
        invariant
            start <= i <= n,
            n == hex@.len(),
            n <= 4,
            start <= 1,
            start == 1 <==> hex@[0] == '+',
            !(n == 0 || (n == 1 && (hex@[0] == '+' || hex@[0] == '-'))),
            d == radix_digits(hex@),
            d == hex@.skip(start as int),
            forall|j: int| start <= j < i ==> is_hex_char(#[trigger] hex@[j]),
            v == hex_value(hex@.subrange(start as int, i as int)),
            v < pow16(i - start),
        decreases n - i,
    {
        let c = hex[i];
        let dv: u32 = if '0' <= c && c <= '9' {
            (c as u32) - ('0' as u32)
        } else if 'a' <= c && c <= 'f' {
            (c as u32) - ('a' as u32) + 10
        } else if 'A' <= c && c <= 'F' {
            (c as u32) - ('A' as u32) + 10
        } else {
            assert(d[i - start] == c);
            assert(!is_hex_char(d[i - start]));
            assert(!all_hex(d));
            return None;
        };
        assert(hex@.subrange(start as int, i + 1).drop_last() =~= hex@.subrange(
            start as int,
            i as int,
        ));
        proof {
            lemma_pow16_small((i - start) as int);
        }
        assert(v * 16 + dv < pow16(i + 1 - start)) by (nonlinear_arith)
            requires
                v < pow16(i - start),
                dv < 16,
                pow16(i + 1 - start) == pow16(i - start) * 16,
        ;
        v = v * 16 + dv;
        i = i + 1;
    }
    assert(hex@.subrange(start as int, n as int) =~= d);
    proof {
        lemma_pow16_mono((n - start) as int, n as int);
    }
    assert forall|j: int| 0 <= j < d.len() implies is_hex_char(#[trigger] d[j]) by {
        assert(d[j] == hex@[start + j]);
    }
    assert(all_hex(d));
    Some(v)
}

proof fn lemma_pow16_small(k: int)
    requires
        0 <= k <= 3,
    ensures
        pow16(k) <= 4096,
        pow16(k + 1) == pow16(k) * 16,
{
    reveal_with_fuel(pow16, 5);
}

proof fn lemma_pow16_mono(a: int, b: int)
    requires
        0 <= a <= b,
    ensures
        1 <= pow16(a) <= pow16(b),
    decreases b,
{
    lemma_pow16_pos(b);
    if a < b {
        lemma_pow16_mono(a, b - 1);
    }
}

proof fn lemma_pow16_pos(k: int)
    ensures
        pow16(k) >= 1,
    decreases k,
{
    if k > 0 {
        lemma_pow16_pos(k - 1);
    }
}

pub open spec fn pow16(k: int) -> int
    decreases k,
{
    if k <= 0 {
        1
    } else {
        16 * pow16(k - 1)
    }
}

/// Decodes the escape that starts at `v[i]`: the characters it stands for and the
/// position after it.
fn escape_piece(v: &[char], i: usize) -> (r: (Vec<char>, usize))
    requires
        i + 1 < v@.len(),
        v@[i as int] == '\\',
    ensures
        i + 2 <= r.1 <= v@.len(),
        decoded_from(v@, i as int) == r.0@ + decoded_from(v@, r.1 as int),
{
    let n = v.len();
    let e = v[i + 1];
    let mut out: Vec<char> = Vec::new();
    if e == 'x' || e == 'u' {
        let width: usize = if e == 'x' {
            2
        } else {
            4
        };
        let end: usize = if width <= n - (i + 2) {
            i + 2 + width
        } else {
            n
        };
        let hex = crate::text::slice_chars(v, i + 2, end);
        match radix16(hex.as_slice()) {
            Some(code) => {
                if e == 'x' {
                    proof {
                        reveal_with_fuel(pow16, 3);
                    }
                    assert(code < 256);
                    match char_from_u32(code) {
                        Some(ch) => out.push(ch),
                        None => {
                            assert(false);
                        },
                    }
                } else {
                    match char_from_u32(code) {
                        Some(ch) => out.push(ch),
                        None => {},
                    }
                }
            },
            None => {
                out.push('\\');
                out.push(e);
                push_all(&mut out, hex.as_slice());
            },
        }
        if e == 'x' {
            assert(out@ =~= decoded_x_escape(hex@));
        } else {
            assert(out@ =~= decoded_u_escape(hex@));
        }
        (out, end)
    } else {
        if e == 'n' {
            out.push('\n');
        } else if e == 'r' {
            out.push('\r');
        } else if e == 't' {
            out.push('\t');
        } else if e == '\\' || e == '\'' || e == '"' || e == '/' {
            out.push(e);
        } else {
            out.push('\\');
            out.push(e);
        }
        assert(out@ =~= decoded_simple_escape(e));
        (out, i + 2)
    }
}

/// Decodes the JavaScript escapes (`\xHH`, `\uHHHH`, `\n`, `\r`, `\t`, `\\`,
/// `\'`, `\"`, `\/`) in `s`; malformed escapes are kept as written.
pub fn decode_unicode_escapes(s: &str) -> (r: String)
    ensures
        r@ == decoded_escapes(s@),
{
    let v = chars_of(s);
    let n = v.len();
    let mut out: Vec<char> = Vec::new();
    let mut i: usize = 0;
    while i < n
        invariant
            i <= n,
            n == v@.len(),
            out@ + decoded_from(v@, i as int) == decoded_from(v@, 0),
        decreases n - i,
    {
        let ghost before = out@;
        let c = v[i];
        if c != '\\' {
            out.push(c);
            assert(before + decoded_from(v@, i as int) =~= out@ + decoded_from(v@, i + 1));
            i = i + 1;
        } else if i + 1 >= n {
            out.push('\\');
            assert(decoded_from(v@, n as int) =~= Seq::<char>::empty());
            assert(before + decoded_from(v@, i as int) =~= out@ + decoded_from(v@, n as int));
            i = n;
        } else {
            let (piece, next) = escape_piece(v.as_slice(), i);
            push_all(&mut out, piece.as_slice());
            assert(before + decoded_from(v@, i as int) =~= out@ + decoded_from(v@, next as int));
            i = next;
        }
    }
    assert(decoded_from(v@, n as int) =~= Seq::<char>::empty());
    assert(out@ + decoded_from(v@, n as int) =~= out@);
    string_from_chars(out.as_slice())
}

proof fn lemma_plain_from(s: Seq<char>, i: int)
    requires
        0 <= i <= s.len(),
        forall|j: int| 0 <= j < s.len() ==> s[j] != '\\',
    ensures
        decoded_from(s, i) == s.skip(i),
    decreases s.len() - i,
{
    if i < s.len() {
        lemma_plain_from(s, i + 1);
        assert(s.skip(i) =~= seq![s[i]] + s.skip(i + 1));
    } else {
        assert(s.skip(i) =~= Seq::<char>::empty());
    }
}

/// Text without a backslash decodes to itself.
pub proof fn lemma_plain_text_unchanged(s: Seq<char>)
    requires
        forall|j: int| 0 <= j < s.len() ==> s[j] != '\\',
    ensures
        decoded_escapes(s) == s,
{
    lemma_plain_from(s, 0);
    assert(s.skip(0) =~= s);
}

/// Decoding `a + b` from inside `b` is decoding `b` alone: what comes before a
/// position is never looked at.
proof fn lemma_decoded_from_shift(a: Seq<char>, b: Seq<char>, j: int)
    requires
        0 <= j,
    ensures
        decoded_from(a + b, a.len() + j) == decoded_from(b, j),
    decreases b.len() - j,
{
    let s = a + b;
    let i = a.len() + j;
    if j >= b.len() {
    } else {
        assert(s[i] == b[j]);
        if b[j] != '\\' {
            lemma_decoded_from_shift(a, b, j + 1);
        } else if j + 1 >= b.len() {
        } else {
            assert(s[i + 1] == b[j + 1]);
            if b[j + 1] == 'x' {
                let e = min_int(j + 4, b.len() as int);
                assert(min_int(i + 4, s.len() as int) == a.len() + e);
                assert(s.subrange(i + 2, a.len() + e) =~= b.subrange(j + 2, e));
                lemma_decoded_from_shift(a, b, e);
            } else if b[j + 1] == 'u' {
                let e = min_int(j + 6, b.len() as int);
                assert(min_int(i + 6, s.len() as int) == a.len() + e);
                assert(s.subrange(i + 2, a.len() + e) =~= b.subrange(j + 2, e));
                lemma_decoded_from_shift(a, b, e);
            } else {
                lemma_decoded_from_shift(a, b, j + 2);
            }
        }
    }
}

proof fn lemma_plain_prefix_from(a: Seq<char>, b: Seq<char>, i: int)
    requires
        0 <= i <= a.len(),
        forall|j: int| 0 <= j < a.len() ==> a[j] != '\\',
    ensures
        decoded_from(a + b, i) == a.skip(i) + decoded_escapes(b),
    decreases a.len() - i,
{
    let s = a + b;
    if i == a.len() {
        lemma_decoded_from_shift(a, b, 0);
        assert(a.skip(i) =~= Seq::<char>::empty());
        assert(a.skip(i) + decoded_escapes(b) =~= decoded_escapes(b));
    } else {
        assert(s[i] == a[i]);
        lemma_plain_prefix_from(a, b, i + 1);
        assert(a.skip(i) =~= seq![a[i]] + a.skip(i + 1));
        assert(seq![a[i]] + (a.skip(i + 1) + decoded_escapes(b)) =~= a.skip(i)
            + decoded_escapes(b));
    }
}

/// `decode_unicode_escapes` returns text without a backslash unchanged, and
/// placed before any other text such a prefix is kept as it is while the rest
/// decodes as it would alone.
pub proof fn lemma_decode_escapes_plain_prefix(a: Seq<char>, b: Seq<char>)
    requires
        forall|j: int| 0 <= j < a.len() ==> a[j] != '\\',
    ensures
        decoded_escapes(a) == a,
        decoded_escapes(a + b) == a + decoded_escapes(b),
{
    lemma_plain_text_unchanged(a);
    lemma_plain_prefix_from(a, b, 0);
    assert(a.skip(0) =~= a);
}

} // verus!
