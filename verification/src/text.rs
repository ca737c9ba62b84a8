//! Character-level text model shared by the rest of the library.
//!
//! Documents, logs and messages are modelled as sequences of Unicode scalar
//! values (`Seq<char>`, the view of `str` and `String`).  This module holds
//! the small vocabulary that the other modules build their contracts from:
//! white space, trimming, line splitting, literal search, decimal numbers,
//! and the two character classes and the case mapping that come from outside.
use vstd::prelude::*;
use vstd::string::*;

verus! {

/// `String::push` appends one character to the end of the string.
pub assume_specification[ String::push ](s: &mut String, ch: char)
    ensures
        final(s)@ == old(s)@.push(ch),
;

// ---------------------------------------------------------------------------
// Names for what outside code computes.
// ---------------------------------------------------------------------------

/// Unicode lowercase mapping of a whole string, as `str::to_lowercase` computes it.
pub uninterp spec fn lowercase(s: Seq<char>) -> Seq<char>;

/// Membership in the regex crate's Unicode `\w` class.
pub uninterp spec fn word_char(c: char) -> bool;

/// Membership in the regex crate's Unicode `\d` class (general category Nd).
pub uninterp spec fn decimal_digit_char(c: char) -> bool;

/// Calls `str::to_lowercase`.  Claimed: the result is the lowercase mapping
/// of the argument (a function of the argument alone), and on a text of
/// ASCII characters alone that mapping turns `A`..`Z` into `a`..`z` and keeps
/// every other character, as the standard library documents; nothing is said
/// of other texts.
#[verifier::external_body]
pub(crate) fn to_lowercase(s: &str) -> (r: String)
    ensures
        r@ == lowercase(s@),
        is_ascii_text(s@) ==> r@ == ascii_lower(s@),
{
    s.to_lowercase()
}

/// Tests one character against the regex crate's `\w` class by matching the
/// pattern `^\w$` (from `regex::Regex`) on that character alone.  Claimed:
/// the answer is the class membership, and on ASCII the class is exactly
/// letters, digits and `_`, as the crate documents.
#[verifier::external_body]
pub(crate) fn is_word_char(c: char) -> (r: bool)
    ensures
        r == word_char(c),
        is_ascii_char(c) ==> (r <==> (is_ascii_letter(c) || is_ascii_digit(c) || c == '_')),
{
    let mut buf = [0u8;4];
    regex::Regex::new(r"^\w$").unwrap().is_match(c.encode_utf8(&mut buf))
}

/// Tests one character against the regex crate's `\d` class by matching the
/// pattern `^\d$` (from `regex::Regex`) on that character alone.  Claimed:
/// the answer is the class membership, and on ASCII the class is exactly
/// `0`..`9`, as the crate documents.
#[verifier::external_body]
pub(crate) fn is_decimal_digit_char(c: char) -> (r: bool)
    ensures
        r == decimal_digit_char(c),
        is_ascii_char(c) ==> (r <==> is_ascii_digit(c)),
{
    let mut buf = [0u8;4];
    regex::Regex::new(r"^\d$").unwrap().is_match(c.encode_utf8(&mut buf))
}

// ---------------------------------------------------------------------------
// Character classes.
// ---------------------------------------------------------------------------

pub open spec fn is_ascii_char(c: char) -> bool {
    (c as u32) < 128
}

/// Every character is ASCII.
pub open spec fn is_ascii_text(s: Seq<char>) -> bool {
    forall|i: int| 0 <= i < s.len() ==> is_ascii_char(#[trigger] s[i])
}

/// `A`..`Z` made `a`..`z`; every other character kept.
pub open spec fn ascii_lower_char(c: char) -> char {
    if 'A' <= c && c <= 'Z' {
        ((c as u32) + 32) as char
    } else {
        c
    }
}

/// The ASCII lowercase mapping, character by character.
pub open spec fn ascii_lower(s: Seq<char>) -> Seq<char> {
    s.map_values(|c: char| ascii_lower_char(c))
}

pub open spec fn is_ascii_digit(c: char) -> bool {
    '0' <= c && c <= '9'
}

pub open spec fn is_ascii_letter(c: char) -> bool {
    ('a' <= c && c <= 'z') || ('A' <= c && c <= 'Z')
}

/// The Unicode `White_Space` property: what `char::is_whitespace`, `str::trim`
/// and the regex class `\s` all use.
pub open spec fn is_ws(c: char) -> bool {
    ||| ('\t' <= c && c <= '\r')
    ||| c == ' '
    ||| c == '\u{85}'
    ||| c == '\u{a0}'
    ||| c == '\u{1680}'
    ||| ('\u{2000}' <= c && c <= '\u{200a}')
    ||| c == '\u{2028}'
    ||| c == '\u{2029}'
    ||| c == '\u{202f}'
    ||| c == '\u{205f}'
    ||| c == '\u{3000}'
}

pub fn is_white(c: char) -> (r: bool)
    ensures
        r == is_ws(c),
{
    ('\t' <= c && c <= '\r') || c == ' ' || c == '\u{85}' || c == '\u{a0}' || c == '\u{1680}'
        || ('\u{2000}' <= c && c <= '\u{200a}') || c == '\u{2028}' || c == '\u{2029}'
        || c == '\u{202f}' || c == '\u{205f}' || c == '\u{3000}'
}

pub fn is_digit(c: char) -> (r: bool)
    ensures
        r == is_ascii_digit(c),
{
    '0' <= c && c <= '9'
}

pub fn is_letter(c: char) -> (r: bool)
    ensures
        r == is_ascii_letter(c),
{
    ('a' <= c && c <= 'z') || ('A' <= c && c <= 'Z')
}

// ---------------------------------------------------------------------------
// Literal search.
// ---------------------------------------------------------------------------

/// `p` occurs in `t` starting at index `i`.
pub open spec fn has_at(t: Seq<char>, i: int, p: Seq<char>) -> bool {
    0 <= i && i + p.len() <= t.len() && t.subrange(i, i + p.len()) == p
}

pub open spec fn contains(t: Seq<char>, p: Seq<char>) -> bool {
    exists|i: int| has_at(t, i, p)
}

pub open spec fn starts_with(t: Seq<char>, p: Seq<char>) -> bool {
    has_at(t, 0, p)
}

pub open spec fn ends_with(t: Seq<char>, p: Seq<char>) -> bool {
    p.len() <= t.len() && has_at(t, t.len() - p.len(), p)
}

/// The first index `>= i` at which `p` occurs in `t`.
pub open spec fn find_from(t: Seq<char>, p: Seq<char>, i: int) -> Option<int>
    decreases t.len() + 1 - i,
{
    if i < 0 || i + p.len() > t.len() {
        None
    } else if has_at(t, i, p) {
        Some(i)
    } else {
        find_from(t, p, i + 1)
    }
}

pub proof fn lemma_find_from(t: Seq<char>, p: Seq<char>, i: int)
    requires
        0 <= i,
    ensures
        find_from(t, p, i) matches Some(k) ==> i <= k && has_at(t, k, p) && forall|j: int|
            i <= j < k ==> !has_at(t, j, p),
        find_from(t, p, i) is None ==> forall|j: int| i <= j ==> !has_at(t, j, p),
    decreases t.len() + 1 - i,
{
    if i + p.len() > t.len() {
    } else if has_at(t, i, p) {
    } else {
        lemma_find_from(t, p, i + 1);
    }
}

pub fn has_at_exec(t: &Vec<char>, i: usize, p: &Vec<char>) -> (r: bool)
    ensures
        r == has_at(t@, i as int, p@),
{
    if i > t.len() || p.len() > t.len() - i {
        return false;
    }
    let mut k: usize = 0;
    while k < p.len()
        invariant
            k <= p.len(),
            i + p.len() <= t.len(),
            forall|j: int| 0 <= j < k ==> t@[i + j] == p@[j],
        decreases p.len() - k,
    {
        if t[i + k] != p[k] {
            assert(t@.subrange(i as int, i + p.len())[k as int] != p@[k as int]);
            return false;
        }
        k = k + 1;
    }
    assert(t@.subrange(i as int, i + p.len()) =~= p@);
    true
}

pub fn find_from_exec(t: &Vec<char>, p: &Vec<char>, from: usize) -> (r: Option<usize>)
    ensures
        r matches Some(k) ==> find_from(t@, p@, from as int) == Some(k as int),
        r is None ==> find_from(t@, p@, from as int) is None,
{
    let mut i = from;
    while i <= t.len() && p.len() <= t.len() - i
        invariant
            from <= i,
            find_from(t@, p@, from as int) == find_from(t@, p@, i as int),
        decreases t.len() + 1 - i,
    {
        proof {
            if p@.len() == 0 {
                assert(t@.subrange(i as int, i as int) =~= p@);
            }
        }
        if has_at_exec(t, i, p) {
            return Some(i);
        }
        i = i + 1;
    }
    None
}

pub fn contains_exec(t: &Vec<char>, p: &Vec<char>) -> (r: bool)
    ensures
        r == contains(t@, p@),
{
    proof {
        lemma_find_from(t@, p@, 0);
    }
    match find_from_exec(t, p, 0) {
        Some(k) => true,
        None => {
            assert forall|j: int| !has_at(t@, j, p@) by {
                if j >= 0 {
                }
            }
            false
        },
    }
}

// ---------------------------------------------------------------------------
// Trimming.
// ---------------------------------------------------------------------------

pub open spec fn trim_start(s: Seq<char>) -> Seq<char>
    decreases s.len(),
{
    if s.len() > 0 && is_ws(s[0]) {
        trim_start(s.drop_first())
    } else {
        s
    }
}

pub open spec fn trim_end(s: Seq<char>) -> Seq<char>
    decreases s.len(),
{
    if s.len() > 0 && is_ws(s.last()) {
        trim_end(s.drop_last())
    } else {
        s
    }
}

/// What `str::trim` returns: white space removed at both ends.
pub open spec fn trim(s: Seq<char>) -> Seq<char> {
    trim_end(trim_start(s))
}

/// The bounds, within `t[a..b]`, of its trimmed start.
pub fn trim_start_range(t: &Vec<char>, a: usize, b: usize) -> (r: usize)
    requires
        a <= b <= t.len(),
    ensures
        a <= r <= b,
        t@.subrange(r as int, b as int) == trim_start(t@.subrange(a as int, b as int)),
{
    let mut i = a;
    while i < b && is_white(t[i])
        invariant
            a <= i <= b <= t.len(),
            trim_start(t@.subrange(a as int, b as int)) == trim_start(t@.subrange(i as int, b as int)),
        decreases b - i,
    {
        assert(t@.subrange(i as int, b as int).drop_first() =~= t@.subrange(i + 1, b as int));
        i = i + 1;
    }
    i
}

/// The end bound, within `t[a..b]`, of its trimmed end.
pub fn trim_end_range(t: &Vec<char>, a: usize, b: usize) -> (r: usize)
    requires
        a <= b <= t.len(),
    ensures
        a <= r <= b,
        t@.subrange(a as int, r as int) == trim_end(t@.subrange(a as int, b as int)),
{
    let mut j = b;
    while j > a && is_white(t[j - 1])
        invariant
            a <= j <= b <= t.len(),
            trim_end(t@.subrange(a as int, b as int)) == trim_end(t@.subrange(a as int, j as int)),
        decreases j - a,
    {
        assert(t@.subrange(a as int, j as int).drop_last() =~= t@.subrange(a as int, j - 1));
        j = j - 1;
    }
    j
}

/// The bounds of `trim(t[a..b])`.
pub fn trim_range(t: &Vec<char>, a: usize, b: usize) -> (r: (usize, usize))
    requires
        a <= b <= t.len(),
    ensures
        a <= r.0 <= r.1 <= b,
        t@.subrange(r.0 as int, r.1 as int) == trim(t@.subrange(a as int, b as int)),
{
    let s = trim_start_range(t, a, b);
    let e = trim_end_range(t, s, b);
    (s, e)
}

// ---------------------------------------------------------------------------
// Lines.
// ---------------------------------------------------------------------------

/// A `\r` that ended a line before its `\n` is not part of the line.
pub open spec fn strip_cr(s: Seq<char>) -> Seq<char> {
    if s.len() > 0 && s.last() == '\r' {
        s.drop_last()
    } else {
        s
    }
}

/// The lines of `s` from index `i`, the current line having begun at `start`:
/// lines end at `\n` (a `\r` just before it is dropped), and a final line
/// ending is optional, as `str::lines` documents.
pub open spec fn lines_from(s: Seq<char>, i: int, start: int) -> Seq<Seq<char>>
    decreases s.len() - i,
{
    if i >= s.len() {
        if start < s.len() {
            seq![s.subrange(start, s.len() as int)]
        } else {
            seq![]
        }
    } else if s[i] == '\n' {
        seq![strip_cr(s.subrange(start, i))] + lines_from(s, i + 1, i + 1)
    } else {
        lines_from(s, i + 1, start)
    }
}

/// What `str::lines` yields.
pub open spec fn lines(s: Seq<char>) -> Seq<Seq<char>> {
    lines_from(s, 0, 0)
}

pub open spec fn views(v: Seq<Vec<char>>) -> Seq<Seq<char>> {
    v.map_values(|x: Vec<char>| x@)
}

pub fn split_lines(t: &Vec<char>) -> (r: Vec<Vec<char>>)
    ensures
        views(r@) == lines(t@),
{
    let mut r: Vec<Vec<char>> = Vec::new();
    let mut start: usize = 0;
    let mut i: usize = 0;
    while i < t.len()
        invariant
            start <= i <= t.len(),
            views(r@) + lines_from(t@, i as int, start as int) == lines(t@),
        decreases t.len() - i,
    {
        if t[i] == '\n' {
            let mut e = i;
            if e > start && t[e - 1] == '\r' {
                e = e - 1;
            }
            let line = copy_range(t, start, e);
            proof {
                assert(line@ == strip_cr(t@.subrange(start as int, i as int))) by {
                    if i > start && t@[i - 1] == '\r' {
                        assert(t@.subrange(start as int, i as int).drop_last() =~= t@.subrange(
                            start as int,
                            i - 1,
                        ));
                    }
                }
                assert(views(r@.push(line)) =~= views(r@).push(line@));
                assert(views(r@).push(line@) + lines_from(t@, i + 1, i + 1) =~= views(r@) + (seq![
                    line@,
                ] + lines_from(t@, i + 1, i + 1)));
            }
            r.push(line);
            start = i + 1;
        }
        i = i + 1;
    }
    if start < t.len() {
        let line = copy_range(t, start, t.len());
        proof {
            assert(views(r@.push(line)) =~= views(r@).push(line@));
        }
        r.push(line);
    } else {
        assert(views(r@) + seq![] =~= views(r@));
    }
    r
}

/// A fresh vector holding `t[a..b]`.
pub fn copy_range(t: &Vec<char>, a: usize, b: usize) -> (r: Vec<char>)
    requires
        a <= b <= t.len(),
    ensures
        r@ == t@.subrange(a as int, b as int),
{
    let mut r: Vec<char> = Vec::new();
    let mut k = a;
    while k < b
        invariant
            a <= k <= b <= t.len(),
            r@ == t@.subrange(a as int, k as int),
        decreases b - k,
    {
        r.push(t[k]);
        k = k + 1;
        assert(r@ =~= t@.subrange(a as int, k as int));
    }
    r
}

// ---------------------------------------------------------------------------
// Conversions between `str`, `String` and character vectors.
// ---------------------------------------------------------------------------

/// The characters of `s`, in order.
pub fn chars_of(s: &str) -> (r: Vec<char>)
    ensures
        r@ == s@,
{
    let mut r: Vec<char> = Vec::new();
    for c in it: s.chars()
        invariant
            r@ == it.seq().take(it.index() as int),
    {
        r.push(c);
    }
    r
}

/// Appends `t[a..b]` to `out`.
pub fn push_range(out: &mut String, t: &Vec<char>, a: usize, b: usize)
    requires
        a <= b <= t.len(),
    ensures
        final(out)@ == old(out)@ + t@.subrange(a as int, b as int),
{
    let mut k = a;
    while k < b
        invariant
            a <= k <= b <= t.len(),
            out@ == old(out)@ + t@.subrange(a as int, k as int),
        decreases b - k,
    {
        out.push(t[k]);
        k = k + 1;
        assert(out@ =~= old(out)@ + t@.subrange(a as int, k as int));
    }
}

/// Appends all of `v` to `out`.
pub fn push_chars(out: &mut String, v: &Vec<char>)
    ensures
        final(out)@ == old(out)@ + v@,
{
    push_range(out, v, 0, v.len());
    assert(v@.subrange(0, v@.len() as int) =~= v@);
}

/// Appends a string slice to `out`.
pub fn push_str(out: &mut String, s: &str)
    ensures
        final(out)@ == old(out)@ + s@,
{
    out.append(s);
}

/// A `String` holding `t[a..b]`.
pub fn string_of_range(t: &Vec<char>, a: usize, b: usize) -> (r: String)
    requires
        a <= b <= t.len(),
    ensures
        r@ == t@.subrange(a as int, b as int),
{
    let mut r = String::new();
    push_range(&mut r, t, a, b);
    assert(r@ =~= t@.subrange(a as int, b as int));
    r
}

/// A `String` holding `v`.
pub fn string_of(v: &Vec<char>) -> (r: String)
    ensures
        r@ == v@,
{
    let mut r = String::new();
    push_chars(&mut r, v);
    assert(r@ =~= v@);
    r
}

// ---------------------------------------------------------------------------
// Decimal numbers.
// ---------------------------------------------------------------------------

pub open spec fn digit_char(d: nat) -> char {
    seq!['0', '1', '2', '3', '4', '5', '6', '7', '8', '9'][d as int]
}

/// The decimal digits of `n`, as `{}` formats an unsigned integer.
pub open spec fn decimal(n: nat) -> Seq<char>
    decreases n,
{
    if n < 10 {
        seq![digit_char(n)]
    } else {
        decimal(n / 10).push(digit_char(n % 10))
    }
}

fn digit_of(d: usize) -> (c: char)
    requires
        d < 10,
    ensures
        c == digit_char(d as nat),
{
    match d {
        0 => '0',
        1 => '1',
        2 => '2',
        3 => '3',
        4 => '4',
        5 => '5',
        6 => '6',
        7 => '7',
        8 => '8',
        _ => '9',
    }
}

/// Appends the decimal digits of `n` to `out`.
pub fn push_decimal(out: &mut String, n: usize)
    ensures
        final(out)@ == old(out)@ + decimal(n as nat),
    decreases n,
{
    if n < 10 {
        out.push(digit_of(n));
        assert(out@ =~= old(out)@ + decimal(n as nat));
    } else {
        push_decimal(out, n / 10);
        out.push(digit_of(n % 10));
        assert(out@ =~= old(out)@ + decimal(n as nat));
    }
}

/// Value of a run of ASCII digits.
pub open spec fn digits_value(s: Seq<char>) -> nat
    decreases s.len(),
{
    if s.len() == 0 {
        0
    } else {
        digits_value(s.drop_last()) * 10 + ((s.last() as u32) - ('0' as u32)) as nat
    }
}

pub open spec fn all_ascii_digits(s: Seq<char>) -> bool {
    forall|i: int| 0 <= i < s.len() ==> is_ascii_digit(#[trigger] s[i])
}

/// What `str::parse::<usize>` gives for a non-empty run of characters of the
/// class `\d`: the value when every digit is ASCII and the value fits.
pub open spec fn parse_usize(s: Seq<char>) -> Option<nat> {
    if s.len() > 0 && all_ascii_digits(s) && digits_value(s) <= usize::MAX {
        Some(digits_value(s))
    } else {
        None
    }
}

proof fn lemma_digits_value_mono(s: Seq<char>, k: int)
    requires
        0 <= k <= s.len(),
        all_ascii_digits(s),
    ensures
        digits_value(s.subrange(0, k)) <= digits_value(s),
    decreases s.len() - k,
{
    if k < s.len() {
        lemma_digits_value_mono(s, k + 1);
        let a = s.subrange(0, k + 1);
        assert(a.drop_last() =~= s.subrange(0, k));
        assert(digits_value(s.subrange(0, k)) <= digits_value(a)) by (nonlinear_arith)
            requires
                digits_value(a) == digits_value(s.subrange(0, k)) * 10 + ((a.last() as u32) - ('0' as u32)) as nat,
        ;
    } else {
        assert(s.subrange(0, k) =~= s);
    }
}

/// `t[a..b]` parsed as `str::parse::<usize>` parses a run of `\d` digits;
/// `None` where it fails.
pub fn parse_digits(t: &Vec<char>, a: usize, b: usize) -> (r: Option<usize>)
    requires
        a <= b <= t.len(),
    ensures
        r matches Some(v) ==> parse_usize(t@.subrange(a as int, b as int)) == Some(v as nat),
        r is None ==> parse_usize(t@.subrange(a as int, b as int)) is None,
{
    let ghost s = t@.subrange(a as int, b as int);
    if a == b {
        return None;
    }
    let mut v: usize = 0;
    let mut k = a;
    while k < b
        invariant
            a <= k <= b <= t.len(),
            s == t@.subrange(a as int, b as int),
            all_ascii_digits(t@.subrange(a as int, k as int)),
            v as nat == digits_value(t@.subrange(a as int, k as int)),
        decreases b - k,
    {
        let c = t[k];
        if !is_digit(c) {
            assert(s[k - a] == c);
            return None;
        }
        let d = (c as u32 - '0' as u32) as usize;
        let ghost prefix = t@.subrange(a as int, k + 1);
        assert(prefix.drop_last() =~= t@.subrange(a as int, k as int));
        assert(prefix.last() == c);
        if v > (usize::MAX - d) / 10 {
            proof {
                assert(all_ascii_digits(prefix));
                assert(digits_value(prefix) > usize::MAX) by (nonlinear_arith)
                    requires
                        v > (usize::MAX - d) / 10,
                        d < 10,
                        digits_value(prefix) == v * 10 + d,
                ;
                assert(all_ascii_digits(s) ==> digits_value(prefix) <= digits_value(s)) by {
                    if all_ascii_digits(s) {
                        lemma_digits_value_mono(s, k + 1 - a);
                        assert(s.subrange(0, k + 1 - a) =~= prefix);
                    }
                }
            }
            return None;
        }
        assert(v * 10 + d <= usize::MAX) by (nonlinear_arith)
            requires
                v <= (usize::MAX - d) / 10,
                d < 10,
        ;
        v = v * 10 + d;
        k = k + 1;
        assert forall|i: int| 0 <= i < prefix.len() implies is_ascii_digit(#[trigger] prefix[i]) by {
            if i < prefix.len() - 1 {
                assert(prefix[i] == t@.subrange(a as int, k - 1)[i]);
            }
        }
    }
    assert(t@.subrange(a as int, k as int) =~= s);
    Some(v)
}

/// No word character follows index `k` (a `\b` after a word character).
pub open spec fn word_ends_at(t: Seq<char>, k: int) -> bool {
    k == t.len() || (0 <= k < t.len() && !word_char(t[k]))
}

pub fn word_ends_at_exec(t: &Vec<char>, k: usize) -> (r: bool)
    ensures
        r == word_ends_at(t@, k as int),
{
    k == t.len() || (k < t.len() && !is_word_char(t[k]))
}

} // verus!
