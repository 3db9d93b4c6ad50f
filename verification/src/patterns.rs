//! The fixed text patterns that Google Drive pages are scanned for.
//!
//! Each pattern is a literal prefix followed by a capture whose end is found by a
//! [`Tail`] rule; a match is the leftmost position where both succeed. These are
//! the leftmost-first, greedy semantics of the regular expressions
//! `P([^"]+)"`, `P([^"]+)`, `P(.*)`, `P(.*?)"`, `P(.*)T` and `P(.+)T`, where `.`
//! is any character but a newline.
use vstd::prelude::*;

use crate::text::{matches_at, occurs_at, rfind_before};

verus! {

/// How the captured text after a pattern's prefix ends.
#[derive(Debug)]
pub enum Tail {
    /// One or more characters other than `"`, then a `"` (`([^"]+)"`).
    QuotedRun,
    /// The longest run of characters other than `stop`, if at least `min` long
    /// (`([^"]+)` with `stop == '"'`, `(.*)` with `stop == '\n'`).
    StopRun { stop: char, min: usize },
    /// The shortest run of non-newline characters before a `"` (`(.*?)"`).
    LazyQuote,
    /// The longest run of at least `min` non-newline characters followed by
    /// `term` (`(.*)T`, `(.+)T`).
    GreedyTo { term: Vec<char>, min: usize },
}

/// The rule of a [`Tail`], over character sequences.
pub enum TailRule {
    QuotedRun,
    StopRun(char, int),
    LazyQuote,
    GreedyTo(Seq<char>, int),
}

impl Tail {
    /// The rule this tail follows.
    pub open spec fn rule(&self) -> TailRule {
        match self {
            Tail::QuotedRun => TailRule::QuotedRun,
            Tail::StopRun { stop, min } => TailRule::StopRun(*stop, *min as int),
            Tail::LazyQuote => TailRule::LazyQuote,
            Tail::GreedyTo { term, min } => TailRule::GreedyTo(term@, *min as int),
        }
    }
}

/// The first position at or after `k` that holds `c`, or `s.len()` if none does.
pub open spec fn first_stop(s: Seq<char>, k: int, c: char) -> int
    decreases s.len() - k,
{
    if k >= s.len() {
        s.len() as int
    } else if s[k] == c {
        k
    } else {
        first_stop(s, k + 1, c)
    }
}

/// Where the capture that starts at `k` ends (exclusive), if the tail matches there.
pub open spec fn tail_end(s: Seq<char>, k: int, tail: TailRule) -> Option<int> {
    match tail {
        TailRule::QuotedRun => {
            let j = first_stop(s, k, '"');
            if k < j < s.len() {
                Some(j)
            } else {
                None
            }
        },
        TailRule::StopRun(stop, min) => {
            let j = first_stop(s, k, stop);
            if j - k >= min {
                Some(j)
            } else {
                None
            }
        },
        TailRule::LazyQuote => {
            let q = first_stop(s, k, '"');
            if q < s.len() && q < first_stop(s, k, '\n') {
                Some(q)
            } else {
                None
            }
        },
        TailRule::GreedyTo(term, min) => match rfind_before(
            s,
            term,
            first_stop(s, k, '\n') + 1,
        ) {
            Some(j) => if j >= k + min {
                Some(j)
            } else {
                None
            },
            None => None,
        },
    }
}

/// The capture `(start, end)` of the leftmost match at or after `i` of `prefix`
/// followed by `tail`; the capture starts `skip` characters into the prefix.
pub open spec fn match_from(s: Seq<char>, i: int, prefix: Seq<char>, skip: int, tail: TailRule) -> Option<
    (int, int),
>
    decreases s.len() + 1 - i,
{
    if i < 0 || i > s.len() {
        None
    } else if occurs_at(s, i, prefix) && tail_end(s, i + prefix.len(), tail) is Some {
        Some((i + skip, tail_end(s, i + prefix.len(), tail).unwrap()))
    } else {
        match_from(s, i + 1, prefix, skip, tail)
    }
}

/// The text captured by the leftmost match of `prefix` and `tail` in `s`.
pub open spec fn first_capture(s: Seq<char>, prefix: Seq<char>, skip: int, tail: TailRule) -> Option<
    Seq<char>,
> {
    match match_from(s, 0, prefix, skip, tail) {
        Some((a, b)) => Some(s.subrange(a, b)),
        None => None,
    }
}

fn first_stop_exec(s: &[char], k: usize, c: char) -> (j: usize)
    requires
        k <= s@.len(),
    ensures
        j == first_stop(s@, k as int, c),
        k <= j <= s@.len(),
{
    let mut j = k;
    while j < s.len() && s[j] != c
        invariant
            k <= j <= s@.len(),
            first_stop(s@, k as int, c) == first_stop(s@, j as int, c),
        decreases s.len() - j,
    {
        j = j + 1;
    }
    j
}

proof fn lemma_first_stop_bounds(s: Seq<char>, k: int, c: char)
    requires
        0 <= k,
    ensures
        k <= s.len() ==> k <= first_stop(s, k, c) <= s.len(),
    decreases s.len() - k,
{
    if k < s.len() && s[k] != c {
        lemma_first_stop_bounds(s, k + 1, c);
    }
}

proof fn lemma_rfind_before_bounds(s: Seq<char>, p: Seq<char>, end: int)
    ensures
        rfind_before(s, p, end) matches Some(j) ==> j < end && occurs_at(s, j, p),
    decreases end,
{
    if end > 0 && !occurs_at(s, end - 1, p) {
        lemma_rfind_before_bounds(s, p, end - 1);
    }
}

fn rfind_before_exec(s: &[char], p: &[char], end: usize) -> (r: Option<usize>)
    requires
        end <= s@.len() + 1,
    ensures
        r matches Some(j) ==> rfind_before(s@, p@, end as int) == Some(j as int),
        r is None ==> rfind_before(s@, p@, end as int) is None,
{
    let mut e = end;
    while e > 0
        invariant
            e <= end,
            rfind_before(s@, p@, end as int) == rfind_before(s@, p@, e as int),
        decreases e,
    {
        if matches_at(s, e - 1, p) {
            return Some(e - 1);
        }
        e = e - 1;
    }
    None
}

/// Where the capture starting at `k` ends, if `tail` matches there.
pub fn tail_end_exec(s: &[char], k: usize, tail: &Tail) -> (r: Option<usize>)
    requires
        k <= s@.len(),
    ensures
        r matches Some(j) ==> tail_end(s@, k as int, tail.rule()) == Some(j as int),
        r is None ==> tail_end(s@, k as int, tail.rule()) is None,
{
    match tail {
        Tail::QuotedRun => {
            let j = first_stop_exec(s, k, '"');
            if k < j && j < s.len() {
                Some(j)
            } else {
                None
            }
        },
        Tail::StopRun { stop, min } => {
            let j = first_stop_exec(s, k, *stop);
            if j - k >= *min {
                Some(j)
            } else {
                None
            }
        },
        Tail::LazyQuote => {
            let q = first_stop_exec(s, k, '"');
            let nl = first_stop_exec(s, k, '\n');
            if q < s.len() && q < nl {
                Some(q)
            } else {
                None
            }
        },
        Tail::GreedyTo { term, min } => {
            let nl = first_stop_exec(s, k, '\n');
            let found = if matches_at(s, nl, term.as_slice()) {
                Some(nl)
            } else {
                rfind_before_exec(s, term.as_slice(), nl)
            };
            match found {
                Some(j) => if j >= k && j - k >= *min {
                    Some(j)
                } else {
                    None
                },
                None => None,
            }
        },
    }
}

/// Finds the leftmost match of `prefix` followed by `tail` in `s` and returns its
/// capture `(start, end)`, the capture starting `skip` characters into the prefix.
pub fn find_capture(s: &[char], prefix: &[char], skip: usize, tail: &Tail) -> (r: Option<
    (usize, usize),
>)
    requires
        skip <= prefix@.len(),
    ensures
        r matches Some((a, b)) ==> match_from(s@, 0, prefix@, skip as int, tail.rule()) == Some(
            (a as int, b as int),
        ) && a <= b <= s@.len(),
        r is None ==> match_from(s@, 0, prefix@, skip as int, tail.rule()) is None,
{
    let mut i: usize = 0;
    while i <= s.len()
        invariant
            i <= s@.len() + 1,
            skip <= prefix@.len(),
            match_from(s@, 0, prefix@, skip as int, tail.rule()) == match_from(
                s@,
                i as int,
                prefix@,
                skip as int,
                tail.rule(),
            ),
        decreases s.len() + 1 - i,
    {
        if matches_at(s, i, prefix) {
            let k = i + prefix.len();
            match tail_end_exec(s, k, tail) {
                Some(j) => {
                    proof {
                        lemma_first_stop_bounds(s@, k as int, '\n');
                        lemma_first_stop_bounds(s@, k as int, '"');
                        match tail {
                            Tail::GreedyTo { term, min } => {
                                lemma_rfind_before_bounds(
                                    s@,
                                    term@,
                                    first_stop(s@, k as int, '\n') + 1,
                                );
                            },
                            Tail::StopRun { stop, min } => {
                                lemma_first_stop_bounds(s@, k as int, *stop);
                            },
                            _ => {},
                        }
                    }
                    return Some((i + skip, j));
                },
                None => {},
            }
        }
        if i == s.len() {
            assert(match_from(s@, s@.len() + 1int, prefix@, skip as int, tail.rule()) is None);
            return None;
        }
        i = i + 1;
    }
    None
}

/// The text captured by the leftmost match of `prefix` followed by `tail` in `s`.
pub fn capture_text(s: &[char], prefix: &[char], skip: usize, tail: &Tail) -> (r: Option<Vec<char>>)
    requires
        skip <= prefix@.len(),
    ensures
        r matches Some(v) ==> first_capture(s@, prefix@, skip as int, tail.rule()) == Some(v@),
        r is None ==> first_capture(s@, prefix@, skip as int, tail.rule()) is None,
{
    match find_capture(s, prefix, skip, tail) {
        Some((a, b)) => Some(crate::text::slice_chars(s, a, b)),
        None => None,
    }
}

/// The end (exclusive) of a single-quoted JavaScript string body starting at `j`:
/// characters other than `'` and `\`, or `\` followed by a non-newline character,
/// up to the closing `'` (`(?:[^'\\]|\\.)*'`).
pub open spec fn js_string_end(s: Seq<char>, j: int) -> Option<int>
    decreases s.len() - j,
{
    if j < 0 || j >= s.len() {
        None
    } else if s[j] == '\'' {
        Some(j)
    } else if s[j] == '\\' {
        if j + 1 < s.len() && s[j + 1] != '\n' {
            js_string_end(s, j + 2)
        } else {
            None
        }
    } else {
        js_string_end(s, j + 1)
    }
}

/// The bodies of the successive non-overlapping single-quoted JavaScript strings
/// of `s` at or after `i`, as `'((?:[^'\\]|\\.)*)'` captures them.
pub open spec fn js_strings_from(s: Seq<char>, i: int) -> Seq<Seq<char>>
    decreases s.len() - i,
{
    if i < 0 || i >= s.len() {
        seq![]
    } else if s[i] == '\'' && js_string_end(s, i + 1) is Some {
        let e = js_string_end(s, i + 1).unwrap();
        if i < e < s.len() {
            seq![s.subrange(i + 1, e)] + js_strings_from(s, e + 1)
        } else {
            seq![]
        }
    } else {
        js_strings_from(s, i + 1)
    }
}

proof fn lemma_js_string_end_bounds(s: Seq<char>, j: int)
    ensures
        js_string_end(s, j) matches Some(e) ==> j <= e < s.len() && s[e] == '\'',
    decreases s.len() - j,
{
    if 0 <= j < s.len() && s[j] != '\'' {
        if s[j] == '\\' {
            if j + 1 < s.len() && s[j + 1] != '\n' {
                lemma_js_string_end_bounds(s, j + 2);
            }
        } else {
            lemma_js_string_end_bounds(s, j + 1);
        }
    }
}

fn js_string_end_exec(s: &[char], j: usize) -> (r: Option<usize>)
    ensures
        r matches Some(e) ==> js_string_end(s@, j as int) == Some(e as int),
        r is None ==> js_string_end(s@, j as int) is None,
{
    let mut k = j;
    loop
        invariant
            j <= k,
            js_string_end(s@, j as int) == js_string_end(s@, k as int),
        decreases s.len() + 2 - k,
    {
        if k >= s.len() {
            return None;
        }
        if s[k] == '\'' {
            return Some(k);
        }
        if s[k] == '\\' {
            if k + 1 < s.len() && s[k + 1] != '\n' {
                k = k + 2;
            } else {
                return None;
            }
        } else {
            k = k + 1;
        }
    }
}

/// The bodies of the single-quoted JavaScript strings of `s`, in order.
pub fn js_strings(s: &[char]) -> (r: Vec<Vec<char>>)
    ensures
        r@.map_values(|v: Vec<char>| v@) == js_strings_from(s@, 0),
{
    let mut r: Vec<Vec<char>> = Vec::new();
    let mut i: usize = 0;
    while i < s.len()
        invariant
            i <= s@.len(),
            r@.map_values(|v: Vec<char>| v@) + js_strings_from(s@, i as int) == js_strings_from(
                s@,
                0,
            ),
        decreases s.len() - i,
    {
        if s[i] == '\'' {
            match js_string_end_exec(s, i + 1) {
                Some(e) => {
                    proof {
                        lemma_js_string_end_bounds(s@, i + 1);
                    }
                    let body = crate::text::slice_chars(s, i + 1, e);
                    let ghost before = r@.map_values(|v: Vec<char>| v@);
                    r.push(body);
                    assert(r@.map_values(|v: Vec<char>| v@) =~= before.push(body@));
                    assert(before + js_strings_from(s@, i as int) =~= before.push(body@)
                        + js_strings_from(s@, e + 1));
                    i = e + 1;
                },
                None => {
                    i = i + 1;
                },
            }
        } else {
            i = i + 1;
        }
    }
    assert(r@.map_values(|v: Vec<char>| v@) + js_strings_from(s@, i as int) =~= r@.map_values(
        |v: Vec<char>| v@,
    ));
    r
}

} // verus!
