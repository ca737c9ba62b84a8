//! Recognisers for the lines of LaTeX and Pandoc compiler logs.
use vstd::prelude::*;
use crate::numbering::{lemma_skip_ws, skip_ws, skip_ws_exec};
use crate::text::{
    decimal_digit_char, has_at, has_at_exec, is_decimal_digit_char, is_white, is_ws, parse_digits,
    parse_usize,
};

verus! {

/// The end of the run of `\d` characters from `k`.
pub open spec fn digit_run_end(l: Seq<char>, k: int) -> int
    decreases l.len() - k,
{
    if 0 <= k < l.len() && decimal_digit_char(l[k]) {
        digit_run_end(l, k + 1)
    } else {
        k
    }
}

pub proof fn lemma_digit_run_end(l: Seq<char>, k: int)
    requires
        0 <= k,
    ensures
        k <= digit_run_end(l, k),
        k <= l.len() ==> digit_run_end(l, k) <= l.len(),
        k > l.len() ==> digit_run_end(l, k) == k,
    decreases l.len() - k,
{
    if 0 <= k < l.len() && decimal_digit_char(l[k]) {
        lemma_digit_run_end(l, k + 1);
    }
}

pub fn digit_run_end_exec(l: &Vec<char>, k: usize) -> (r: usize)
    ensures
        r as int == digit_run_end(l@, k as int),
{
    let mut i = k;
    while i < l.len() && is_decimal_digit_char(l[i])
        invariant
            k <= i,
            digit_run_end(l@, k as int) == digit_run_end(l@, i as int),
        decreases l.len() - i,
    {
        i = i + 1;
    }
    i
}

/// A line number as the log shows it; 0 where it does not parse.
pub open spec fn number_or_zero(d: Seq<char>) -> nat {
    match parse_usize(d) {
        Some(v) => v,
        None => 0,
    }
}

pub fn number_or_zero_exec(l: &Vec<char>, a: usize, b: usize) -> (r: usize)
    requires
        a <= b <= l.len(),
    ensures
        r as nat == number_or_zero(l@.subrange(a as int, b as int)),
{
    match parse_digits(l, a, b) {
        Some(v) => v,
        None => 0,
    }
}

// ---------------------------------------------------------------------------
// `file:line: message` (`^(.*?):(\d+):\s*(?:LaTeX Error:\s*)?(.*)$`).
// ---------------------------------------------------------------------------

/// `:DIGITS:` at `p`.
pub open spec fn file_line_colon_at(l: Seq<char>, p: int) -> bool {
    &&& 0 <= p < l.len()
    &&& l[p] == ':'
    &&& digit_run_end(l, p + 1) > p + 1
    &&& digit_run_end(l, p + 1) < l.len()
    &&& l[digit_run_end(l, p + 1)] == ':'
}

/// The leftmost `:DIGITS:` at or after `p`.
pub open spec fn first_file_line_colon(l: Seq<char>, p: int) -> Option<int>
    decreases l.len() - p,
{
    if p < 0 || p >= l.len() {
        None
    } else if file_line_colon_at(l, p) {
        Some(p)
    } else {
        first_file_line_colon(l, p + 1)
    }
}

pub proof fn lemma_first_file_line_colon(l: Seq<char>, p: int)
    requires
        0 <= p,
    ensures
        first_file_line_colon(l, p) matches Some(q) ==> p <= q && file_line_colon_at(l, q),
    decreases l.len() - p,
{
    if p < l.len() && !file_line_colon_at(l, p) {
        lemma_first_file_line_colon(l, p + 1);
    }
}

/// A `file:line: message` line: the bounds of the file name, the digits and
/// the message (after white space and an optional `LaTeX Error:`).
pub open spec fn file_line_parts(l: Seq<char>) -> Option<(int, int, int, int)> {
    match first_file_line_colon(l, 0) {
        Some(p) => {
            let d = digit_run_end(l, p + 1);
            let k = skip_ws(l, d + 1);
            let k2 = if has_at(l, k, "LaTeX Error:"@) {
                skip_ws(l, k + 12)
            } else {
                k
            };
            Some((p, p + 1, d, k2))
        },
        None => None,
    }
}

pub fn file_line_parts_exec(l: &Vec<char>, latex_error: &Vec<char>) -> (r: Option<
    (usize, usize, usize, usize),
>)
    requires
        latex_error@ == "LaTeX Error:"@,
    ensures
        r matches Some((a, b, c, d)) ==> file_line_parts(l@) == Some(
            (a as int, b as int, c as int, d as int),
        ) && a < b < c < d <= l@.len(),
        r is None ==> file_line_parts(l@) is None,
{
    proof {
        reveal_strlit("LaTeX Error:");
    }
    let ll = l.len();
    let mut p: usize = 0;
    while p < ll
        invariant
            p <= ll,
            ll == l@.len(),
            latex_error@ == "LaTeX Error:"@,
            latex_error@.len() == 12,
            first_file_line_colon(l@, 0) == first_file_line_colon(l@, p as int),
        decreases ll - p,
    {
        if l[p] == ':' {
            proof {
                lemma_digit_run_end(l@, p + 1);
            }
            let d = digit_run_end_exec(l, p + 1);
            if d > p + 1 && d < ll && l[d] == ':' {
                assert(file_line_colon_at(l@, p as int));
                let k = skip_ws_exec(l, d + 1);
                proof {
                    lemma_skip_ws(l@, d + 1);
                }
                let k2 = if has_at_exec(l, k, latex_error) {
                    assert(k + 12 <= ll);
                    proof {
                        lemma_skip_ws(l@, k + 12);
                    }
                    skip_ws_exec(l, k + 12)
                } else {
                    k
                };
                return Some((p, p + 1, d, k2));
            }
        }
        p = p + 1;
    }
    None
}

// ---------------------------------------------------------------------------
// `l.NN text` (`^l\.(\d+)\s*(.*)$`).
// ---------------------------------------------------------------------------

/// A TeX source-line marker: the bounds of its digits and where its text starts.
pub open spec fn tex_line_parts(l: Seq<char>) -> Option<(int, int, int)> {
    if has_at(l, 0, seq!['l', '.']) && digit_run_end(l, 2) > 2 {
        Some((2, digit_run_end(l, 2), skip_ws(l, digit_run_end(l, 2))))
    } else {
        None
    }
}

pub fn tex_line_parts_exec(l: &Vec<char>) -> (r: Option<(usize, usize, usize)>)
    ensures
        r matches Some((a, b, c)) ==> tex_line_parts(l@) == Some((a as int, b as int, c as int))
            && a < b <= c <= l@.len(),
        r is None ==> tex_line_parts(l@) is None,
{
    if l.len() >= 2 && l[0] == 'l' && l[1] == '.' {
        assert(l@.subrange(0, 2) =~= seq!['l', '.']);
        proof {
            lemma_digit_run_end(l@, 2);
        }
        let d = digit_run_end_exec(l, 2);
        if d > 2 {
            proof {
                lemma_skip_ws(l@, d as int);
            }
            return Some((2, d, skip_ws_exec(l, d)));
        }
        None
    } else {
        proof {
            if l@.len() >= 2 {
                assert(l@.subrange(0, 2)[0] == l@[0]);
                assert(l@.subrange(0, 2)[1] == l@[1]);
            }
        }
        None
    }
}

// ---------------------------------------------------------------------------
// Pandoc locations
// (`(?i)(?:at |on |near )?line\s+(\d+)(?:\s+column\s+\d+)?[:,:]?\s*(.*)`).
// ---------------------------------------------------------------------------

/// `c` matches the lowercase ASCII pattern character `p`, ignoring case.
/// (Of the letters used here, none has a non-ASCII case variant.)
pub open spec fn ci_eq(c: char, p: char) -> bool {
    c == p || ('a' <= p && p <= 'z' && (c as u32) + 32 == (p as u32))
}

/// The lowercase ASCII pattern `p` at `i`, ignoring case.
pub open spec fn has_at_ci(t: Seq<char>, i: int, p: Seq<char>) -> bool {
    &&& 0 <= i
    &&& i + p.len() <= t.len()
    &&& forall|k: int| 0 <= k < p.len() ==> ci_eq(#[trigger] t[i + k], p[k])
}

fn ci_eq_exec(c: char, p: char) -> (r: bool)
    ensures
        r == ci_eq(c, p),
{
    c == p || ('a' <= p && p <= 'z' && (c as u32) + 32 == (p as u32))
}

pub fn has_at_ci_exec(t: &Vec<char>, i: usize, p: &Vec<char>) -> (r: bool)
    ensures
        r == has_at_ci(t@, i as int, p@),
{
    if i > t.len() || p.len() > t.len() - i {
        return false;
    }
    let mut k: usize = 0;
    while k < p.len()
        invariant
            k <= p.len(),
            i + p.len() <= t.len(),
            forall|j: int| 0 <= j < k ==> ci_eq(#[trigger] t@[i + j], p@[j]),
        decreases p.len() - k,
    {
        if !ci_eq_exec(t[i + k], p[k]) {
            return false;
        }
        k = k + 1;
    }
    true
}

/// `line`, white space and digits at `k`: the bounds of the digits.
pub open spec fn line_word_at(l: Seq<char>, k: int) -> Option<(int, int)> {
    if has_at_ci(l, k, "line"@) && k + 4 < l.len() && is_ws(l[k + 4]) && digit_run_end(
        l,
        skip_ws(l, k + 4),
    ) > skip_ws(l, k + 4) {
        Some((skip_ws(l, k + 4), digit_run_end(l, skip_ws(l, k + 4))))
    } else {
        None
    }
}

/// The digits of a location at `s`, trying the prefixes `at `, `on `,
/// `near ` and then none, in that order.
pub open spec fn location_digits_at(l: Seq<char>, s: int) -> Option<(int, int)> {
    if has_at_ci(l, s, "at "@) && line_word_at(l, s + 3) is Some {
        line_word_at(l, s + 3)
    } else if has_at_ci(l, s, "on "@) && line_word_at(l, s + 3) is Some {
        line_word_at(l, s + 3)
    } else if has_at_ci(l, s, "near "@) && line_word_at(l, s + 5) is Some {
        line_word_at(l, s + 5)
    } else {
        line_word_at(l, s)
    }
}

/// The leftmost location at or after `s`: the bounds of its digits.
pub open spec fn first_location(l: Seq<char>, s: int) -> Option<(int, int)>
    decreases l.len() - s,
{
    if s < 0 || s >= l.len() {
        None
    } else if location_digits_at(l, s) is Some {
        location_digits_at(l, s)
    } else {
        first_location(l, s + 1)
    }
}

/// After the digits: an optional `column N`, an optional `:` or `,`, and
/// white space; where the message starts.
pub open spec fn location_message_start(l: Seq<char>, de: int) -> int {
    let after_col = if de < l.len() && is_ws(l[de]) && has_at_ci(l, skip_ws(l, de), "column"@)
        && skip_ws(l, de) + 6 < l.len() && is_ws(l[skip_ws(l, de) + 6]) && digit_run_end(
        l,
        skip_ws(l, skip_ws(l, de) + 6),
    ) > skip_ws(l, skip_ws(l, de) + 6) {
        digit_run_end(l, skip_ws(l, skip_ws(l, de) + 6))
    } else {
        de
    };
    let after_punct = if 0 <= after_col < l.len() && (l[after_col] == ':' || l[after_col] == ',') {
        after_col + 1
    } else {
        after_col
    };
    skip_ws(l, after_punct)
}

/// A Pandoc-style location in the line: the bounds of the digits and where
/// the message starts.
pub open spec fn location_parts(l: Seq<char>) -> Option<(int, int, int)> {
    match first_location(l, 0) {
        Some((ds, de)) => Some((ds, de, location_message_start(l, de))),
        None => None,
    }
}

fn line_word_at_exec(l: &Vec<char>, k: usize, line: &Vec<char>) -> (r: Option<(usize, usize)>)
    requires
        line@ == "line"@,
    ensures
        r matches Some((a, b)) ==> line_word_at(l@, k as int) == Some((a as int, b as int)) && k
            < a < b <= l@.len(),
        r is None ==> line_word_at(l@, k as int) is None,
{
    proof {
        reveal_strlit("line");
    }
    let ll = l.len();
    if has_at_ci_exec(l, k, line) && k + 4 < ll && is_white(l[k + 4]) {
        let a = skip_ws_exec(l, k + 4);
        proof {
            lemma_skip_ws(l@, k + 4);
            lemma_digit_run_end(l@, a as int);
        }
        let b = digit_run_end_exec(l, a);
        if b > a {
            return Some((a, b));
        }
    }
    None
}

pub struct LocationPatterns {
    pub at: Vec<char>,
    pub on: Vec<char>,
    pub near: Vec<char>,
    pub line: Vec<char>,
    pub column: Vec<char>,
}

impl LocationPatterns {
    pub open spec fn wf(&self) -> bool {
        &&& self.at@ == "at "@
        &&& self.on@ == "on "@
        &&& self.near@ == "near "@
        &&& self.line@ == "line"@
        &&& self.column@ == "column"@
    }

    pub fn new() -> (r: Self)
        ensures
            r.wf(),
    {
        LocationPatterns {
            at: crate::text::chars_of("at "),
            on: crate::text::chars_of("on "),
            near: crate::text::chars_of("near "),
            line: crate::text::chars_of("line"),
            column: crate::text::chars_of("column"),
        }
    }
}

fn location_digits_at_exec(l: &Vec<char>, s: usize, pats: &LocationPatterns) -> (r: Option<
    (usize, usize),
>)
    requires
        pats.wf(),
    ensures
        r matches Some((a, b)) ==> location_digits_at(l@, s as int) == Some((a as int, b as int))
            && a < b <= l@.len(),
        r is None ==> location_digits_at(l@, s as int) is None,
{
    proof {
        reveal_strlit("at ");
        reveal_strlit("on ");
        reveal_strlit("near ");
    }
    let ll = l.len();
    if has_at_ci_exec(l, s, &pats.at) {
        if let Some(r) = line_word_at_exec(l, s + 3, &pats.line) {
            return Some(r);
        }
    }
    if has_at_ci_exec(l, s, &pats.on) {
        if let Some(r) = line_word_at_exec(l, s + 3, &pats.line) {
            return Some(r);
        }
    }
    if has_at_ci_exec(l, s, &pats.near) {
        if let Some(r) = line_word_at_exec(l, s + 5, &pats.line) {
            return Some(r);
        }
    }
    line_word_at_exec(l, s, &pats.line)
}

fn location_message_start_exec(l: &Vec<char>, de: usize, pats: &LocationPatterns) -> (r: usize)
    requires
        pats.wf(),
        de <= l.len(),
    ensures
        r as int == location_message_start(l@, de as int),
        de <= r <= l@.len(),
{
    proof {
        reveal_strlit("column");
        lemma_skip_ws(l@, de as int);
    }
    let ll = l.len();
    let mut after_col = de;
    if de < ll && is_white(l[de]) {
        let c = skip_ws_exec(l, de);
        if has_at_ci_exec(l, c, &pats.column) && c + 6 < ll && is_white(l[c + 6]) {
            let c2 = skip_ws_exec(l, c + 6);
            proof {
                lemma_skip_ws(l@, c + 6);
                lemma_digit_run_end(l@, c2 as int);
            }
            let c3 = digit_run_end_exec(l, c2);
            if c3 > c2 {
                after_col = c3;
            }
        }
    }
    let after_punct = if after_col < ll && (l[after_col] == ':' || l[after_col] == ',') {
        after_col + 1
    } else {
        after_col
    };
    proof {
        lemma_skip_ws(l@, after_punct as int);
    }
    skip_ws_exec(l, after_punct)
}

pub fn location_parts_exec(l: &Vec<char>, pats: &LocationPatterns) -> (r: Option<
    (usize, usize, usize),
>)
    requires
        pats.wf(),
    ensures
        r matches Some((a, b, c)) ==> location_parts(l@) == Some((a as int, b as int, c as int))
            && a < b <= c <= l@.len(),
        r is None ==> location_parts(l@) is None,
{
    let ll = l.len();
    let mut s: usize = 0;
    while s < ll
        invariant
            s <= ll,
            ll == l@.len(),
            pats.wf(),
            first_location(l@, 0) == first_location(l@, s as int),
        decreases ll - s,
    {
        if let Some((a, b)) = location_digits_at_exec(l, s, pats) {
            let c = location_message_start_exec(l, b, pats);
            return Some((a, b, c));
        }
        s = s + 1;
    }
    None
}

} // verus!
