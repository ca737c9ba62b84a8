//! Turning compiler logs into located, explained errors.
use vstd::prelude::*;
use crate::logparse::{
    file_line_parts, file_line_parts_exec, location_parts, location_parts_exec, number_or_zero,
    number_or_zero_exec, tex_line_parts, tex_line_parts_exec, LocationPatterns,
};
use crate::numbering::utf8_width;
use crate::suggest::{first_command, first_command_exec, generate_suggestion, suggestion};
use crate::text::{
    ascii_lower, ascii_lower_char, chars_of, contains, contains_exec, copy_range, ends_with, has_at,
    has_at_exec, is_ascii_char, is_ascii_digit, is_ascii_text, is_white, is_ws, lines, lowercase,
    split_lines, starts_with, string_of, to_lowercase, trim, trim_end, trim_end_range, trim_range,
    views,
};

verus! {

/// One compiler error, located in the manuscript and explained.
#[derive(Debug)]
pub struct LaTeXError {
    pub line: usize,
    pub message: String,
    pub context: String,
    pub suggestion: String,
}

/// What a `LaTeXError` holds.
pub struct Diagnostic {
    pub line: nat,
    pub message: Seq<char>,
    pub context: Seq<char>,
    pub suggestion: Seq<char>,
}

impl View for LaTeXError {
    type V = Diagnostic;

    open spec fn view(&self) -> Diagnostic {
        Diagnostic {
            line: self.line as nat,
            message: self.message@,
            context: self.context@,
            suggestion: self.suggestion@,
        }
    }
}

pub open spec fn diagnostics_of(v: Seq<LaTeXError>) -> Seq<Diagnostic> {
    v.map_values(|e: LaTeXError| e@)
}

// ---------------------------------------------------------------------------
// Source lines.
// ---------------------------------------------------------------------------

/// The trimmed text of source line `n` (counting from 1); empty for 0 or
/// past the end.
pub open spec fn context_line(ls: Seq<Seq<char>>, n: nat) -> Seq<char> {
    if n == 0 || n > ls.len() {
        seq![]
    } else {
        trim(ls[n - 1])
    }
}

pub(crate) fn context_of(ls: &Vec<Vec<char>>, n: usize) -> (r: Vec<char>)
    ensures
        r@ == context_line(views(ls@), n as nat),
{
    if n == 0 || n > ls.len() {
        return Vec::new();
    }
    let l = &ls[n - 1];
    let (a, b) = trim_range(l, 0, l.len());
    assert(l@.subrange(0, l@.len() as int) =~= l@);
    copy_range(l, a, b)
}

pub fn context_from_source(source: &str, line: usize) -> (r: String)
    ensures
        r@ == context_line(lines(source@), line as nat),
{
    let ls = split_lines(&chars_of(source));
    string_of(&context_of(&ls, line))
}

// ---------------------------------------------------------------------------
// Finding the manuscript line behind a reported line.
// ---------------------------------------------------------------------------

/// The (1-based) numbers of the lines from the `k`-th on that contain `p`.
pub open spec fn lines_containing(ls: Seq<Seq<char>>, p: Seq<char>, k: int) -> Seq<nat>
    decreases ls.len() - k,
{
    if k < 0 || k >= ls.len() {
        seq![]
    } else {
        (if contains(ls[k], p) {
            seq![(k + 1) as nat]
        } else {
            seq![]
        }) + lines_containing(ls, p, k + 1)
    }
}

pub open spec fn distance(a: nat, b: nat) -> nat {
    if a >= b {
        (a - b) as nat
    } else {
        (b - a) as nat
    }
}

/// The first of the numbers closest to `r`.
pub open spec fn nearest(hs: Seq<nat>, r: nat) -> nat
    decreases hs.len(),
{
    if hs.len() <= 1 {
        hs[0]
    } else {
        let b = nearest(hs.drop_last(), r);
        if distance(hs.last(), r) < distance(b, r) {
            hs.last()
        } else {
            b
        }
    }
}

/// Digits, dots and white space that number a line of a listing.
pub open spec fn numbering_char(c: char) -> bool {
    is_ascii_digit(c) || c == '.' || is_ws(c)
}

pub open spec fn strip_numbering(s: Seq<char>) -> Seq<char>
    decreases s.len(),
{
    if s.len() > 0 && numbering_char(s[0]) {
        strip_numbering(s.drop_first())
    } else {
        s
    }
}

/// UTF-8 length of a text.
pub open spec fn utf8_len(s: Seq<char>) -> nat
    decreases s.len(),
{
    if s.len() == 0 {
        0
    } else {
        utf8_len(s.drop_last()) + utf8_width(s.last())
    }
}

/// The index of the first line from the `k`-th on that contains `p`.
pub open spec fn first_line_containing(ls: Seq<Seq<char>>, p: Seq<char>, k: int) -> Option<int>
    decreases ls.len() - k,
{
    if k < 0 || k >= ls.len() {
        None
    } else if contains(ls[k], p) {
        Some(k)
    } else {
        first_line_containing(ls, p, k + 1)
    }
}

/// The manuscript line that a reported error most likely refers to, or 0
/// when none can be told: the line holding the command named in the
/// context (the one nearest the reported line if several do), else the
/// first line holding the start (48 characters) of the context stripped of
/// leading numbering, if that is at least 8 bytes long.  Without source
/// lines, the reported line (at least 1).
pub open spec fn inferred_line(ls: Seq<Seq<char>>, reported: nat, context: Seq<char>) -> nat {
    if ls.len() == 0 {
        if reported < 1 {
            1
        } else {
            reported
        }
    } else {
        let hits = match first_command(context) {
            Some((a, b)) => lines_containing(ls, context.subrange(a, b), 0),
            None => seq![],
        };
        if hits.len() > 0 {
            nearest(hits, reported)
        } else {
            let needle = strip_numbering(trim(context));
            if utf8_len(needle) >= 8 {
                let short = if needle.len() <= 48 {
                    needle
                } else {
                    needle.subrange(0, 48)
                };
                match first_line_containing(ls, short, 0) {
                    Some(k) => (k + 1) as nat,
                    None => 0,
                }
            } else {
                0
            }
        }
    }
}

proof fn lemma_lines_containing(ls: Seq<Seq<char>>, p: Seq<char>, k: int)
    requires
        0 <= k <= ls.len(),
    ensures
        forall|j: int|
            0 <= j < lines_containing(ls, p, k).len() ==> 1 <= #[trigger] lines_containing(
                ls,
                p,
                k,
            )[j] <= ls.len(),
    decreases ls.len() - k,
{
    if k < ls.len() {
        lemma_lines_containing(ls, p, k + 1);
        let head = if contains(ls[k], p) {
            seq![(k + 1) as nat]
        } else {
            seq![]
        };
        let tail = lines_containing(ls, p, k + 1);
        assert forall|j: int|
            0 <= j < lines_containing(ls, p, k).len() implies 1 <= #[trigger] lines_containing(
            ls,
            p,
            k,
        )[j] <= ls.len() by {
            if j < head.len() {
            } else {
                assert(lines_containing(ls, p, k)[j] == tail[j - head.len()]);
            }
        }
    }
}

fn strip_numbering_exec(t: &Vec<char>, a: usize, b: usize) -> (r: usize)
    requires
        a <= b <= t.len(),
    ensures
        a <= r <= b,
        t@.subrange(r as int, b as int) == strip_numbering(t@.subrange(a as int, b as int)),
{
    let mut i = a;
    while i < b && (crate::text::is_digit(t[i]) || t[i] == '.' || is_white(t[i]))
        invariant
            a <= i <= b <= t.len(),
            strip_numbering(t@.subrange(a as int, b as int)) == strip_numbering(
                t@.subrange(i as int, b as int),
            ),
        decreases b - i,
    {
        assert(t@.subrange(i as int, b as int).drop_first() =~= t@.subrange(i + 1, b as int));
        i = i + 1;
    }
    i
}

/// UTF-8 length of `t[a..b]`, or `None` when it reaches `limit`.
pub(crate) fn utf8_len_at_least(t: &Vec<char>, a: usize, b: usize, limit: usize) -> (r: bool)
    requires
        a <= b <= t.len(),
        0 < limit < 1000,
    ensures
        r == (utf8_len(t@.subrange(a as int, b as int)) >= limit),
{
    let mut total: usize = 0;
    assert(t@.subrange(a as int, a as int) =~= Seq::<char>::empty());
    let mut k = a;
    while k < b
        invariant
            a <= k <= b <= t.len(),
            total as nat == utf8_len(t@.subrange(a as int, k as int)),
            total < limit,
            limit < 1000,
        decreases b - k,
    {
        let v = t[k] as u32;
        let w: usize = if v < 0x80 {
            1
        } else if v < 0x800 {
            2
        } else if v < 0x10000 {
            3
        } else {
            4
        };
        assert(t@.subrange(a as int, k + 1).drop_last() =~= t@.subrange(a as int, k as int));
        total = total + w;
        k = k + 1;
        if total >= limit {
            proof {
                lemma_utf8_len_mono(t@.subrange(a as int, b as int), (k - a) as int);
                assert(t@.subrange(a as int, b as int).subrange(0, (k - a) as int) =~= t@.subrange(
                    a as int,
                    k as int,
                ));
            }
            return true;
        }
    }
    false
}

pub(crate) proof fn lemma_utf8_len_mono(s: Seq<char>, k: int)
    requires
        0 <= k <= s.len(),
    ensures
        utf8_len(s.subrange(0, k)) <= utf8_len(s),
    decreases s.len() - k,
{
    if k < s.len() {
        lemma_utf8_len_mono(s, k + 1);
        assert(s.subrange(0, k + 1).drop_last() =~= s.subrange(0, k));
    } else {
        assert(s.subrange(0, k) =~= s);
    }
}

#[verifier::loop_isolation(false)]
fn infer_lines(ls: &Vec<Vec<char>>, reported_line: usize, ctx: &Vec<char>) -> (r: usize)
    ensures
        r as nat == inferred_line(views(ls@), reported_line as nat, ctx@),
{
    let ghost vs = views(ls@);
    let ghost spec_hits = match first_command(ctx@) {
        Some((a, b)) => lines_containing(vs, ctx@.subrange(a, b), 0),
        None => seq![],
    };
    if ls.len() == 0 {
        return if reported_line < 1 {
            1
        } else {
            reported_line
        };
    }
    match first_command_exec(ctx) {
        Some((a, b)) => {
            let cmd = copy_range(ctx, a, b);
            let ghost hits = lines_containing(vs, cmd@, 0);
            proof {
                lemma_lines_containing(vs, cmd@, 0);
            }
            let mut found = false;
            let mut best: usize = 0;
            let mut k: usize = 0;
            while k < ls.len()
                invariant
                    k <= ls.len(),
                    vs == views(ls@),
                    hits == lines_containing(vs, cmd@, 0),
                    ({
                        let pre = lines_containing(vs, cmd@, 0).subrange(
                            0,
                            hits.len() - lines_containing(vs, cmd@, k as int).len(),
                        );
                        &&& hits == pre + lines_containing(vs, cmd@, k as int)
                        &&& found == (pre.len() > 0)
                        &&& found ==> best as nat == nearest(pre, reported_line as nat)
                    }),
                decreases ls.len() - k,
            {
                let ghost rest = lines_containing(vs, cmd@, k as int);
                let ghost rest2 = lines_containing(vs, cmd@, k + 1);
                let ghost pre = hits.subrange(0, hits.len() - rest.len());
                assert(ls@[k as int]@ == vs[k as int]);
                if contains_exec(&ls[k], &cmd) {
                    let line = k + 1;
                    proof {
                        assert(rest =~= seq![line as nat] + rest2);
                        let pre2 = hits.subrange(0, hits.len() - rest2.len());
                        assert(pre2 =~= pre.push(line as nat));
                        assert(pre2.drop_last() =~= pre);
                    }
                    let d_new = if line >= reported_line {
                        line - reported_line
                    } else {
                        reported_line - line
                    };
                    let d_best = if best >= reported_line {
                        best - reported_line
                    } else {
                        reported_line - best
                    };
                    if !found || d_new < d_best {
                        best = line;
                    }
                    found = true;
                } else {
                    proof {
                        assert(rest =~= rest2);
                    }
                }
                k = k + 1;
            }
            proof {
                assert(lines_containing(vs, cmd@, k as int) =~= Seq::<nat>::empty());
                assert(hits.subrange(0, hits.len() as int) =~= hits);
            }
            if found {
                return best;
            }
            assert(spec_hits.len() == 0);
        },
        None => {},
    }
    assert(spec_hits.len() == 0);
    let (ta, tb) = trim_range(ctx, 0, ctx.len());
    assert(ctx@.subrange(0, ctx@.len() as int) =~= ctx@);
    let na = strip_numbering_exec(ctx, ta, tb);
    let ghost needle = ctx@.subrange(na as int, tb as int);
    proof {
        assert(ctx@.subrange(ta as int, tb as int).subrange(0, (tb - ta) as int) =~= ctx@.subrange(
            ta as int,
            tb as int,
        ));
    }
    if !utf8_len_at_least(ctx, na, tb, 8) {
        return 0;
    }
    let end = if tb - na <= 48 {
        tb
    } else {
        na + 48
    };
    let short = copy_range(ctx, na, end);
    proof {
        if tb - na > 48 {
            assert(short@ =~= needle.subrange(0, 48));
        } else {
            assert(short@ =~= needle);
        }
    }
    assert(strip_numbering(trim(ctx@)) == needle);
    assert(utf8_len(needle) >= 8);
    assert(short@ == if needle.len() <= 48 {
        needle
    } else {
        needle.subrange(0, 48)
    });
    let mut k: usize = 0;
    while k < ls.len()
        invariant
            k <= ls.len(),
            vs == views(ls@),
            first_line_containing(vs, short@, 0) == first_line_containing(vs, short@, k as int),
        decreases ls.len() - k,
    {
        assert(ls@[k as int]@ == vs[k as int]);
        if contains_exec(&ls[k], &short) {
            assert(first_line_containing(vs, short@, k as int) == Some(k as int));
            assert(vs.len() == ls@.len());
            return k + 1;
        }
        k = k + 1;
    }
    0
}

pub fn infer_source_line(source: &str, reported_line: usize, context: &str) -> (r: usize)
    ensures
        r as nat == inferred_line(lines(source@), reported_line as nat, context@),
{
    let ls = split_lines(&chars_of(source));
    infer_lines(&ls, reported_line, &chars_of(context))
}

// ---------------------------------------------------------------------------
// Reading a log.
// ---------------------------------------------------------------------------

pub const DEPENDENCY_PREFIX: &'static str = "LaTeX dependency file: ";

pub const DEPENDENCY_SUFFIX: &'static str = " (not a manuscript source line).";

pub const GENERATED_PREAMBLE: &'static str =
    "Generated LaTeX preamble (not a manuscript source line).";

pub const NO_DETAIL: &'static str = "LaTeX reported an error without additional detail.";

pub const PACKAGE_CONFLICT_CONTEXT: &'static str =
    "LaTeX package/preamble conflict (not a manuscript source line).";

pub const CONFLICT_BEFORE: &'static str = "Symbol package conflict: ";

pub const CONFLICT_AFTER: &'static str = " are already defined.";

/// A line that ends a wrapped message: blank, a source marker, a new error,
/// another `file:line:` line, or TeX's help texts.
pub open spec fn continuation_stop(c: Seq<char>) -> bool {
    ||| c.len() == 0
    ||| starts_with(c, "l."@)
    ||| starts_with(c, "! "@)
    ||| file_line_parts(c) is Some
    ||| starts_with(c, "Type H"@)
    ||| starts_with(c, "See the LaTeX manual"@)
    ||| starts_with(c, "<"@)
}

/// TeX wrapped the message: it breaks inside `LaTeX Error`, or the message
/// does not end a sentence.
pub open spec fn looks_wrapped(msg: Seq<char>, c: Seq<char>) -> bool {
    ||| starts_with(c, "ror:"@)
    ||| ends_with(msg, "LaTeX Er"@)
    ||| ends_with(msg, "Package Er"@)
    ||| (!ends_with(msg, "."@) && !ends_with(msg, "!"@) && !ends_with(msg, "?"@))
}

/// A broken word is rejoined directly; otherwise lines join with a space.
pub open spec fn joined_continuation(msg: Seq<char>, c: Seq<char>) -> Seq<char> {
    if starts_with(c, "ror:"@) && ends_with(msg, "Er"@) {
        msg + c
    } else {
        msg + seq![' '] + c
    }
}

/// The message with the wrapped continuation lines `k..stop` appended.
pub open spec fn continue_message(ls: Seq<Seq<char>>, k: int, stop: int, msg: Seq<char>) -> Seq<
    char,
>
    decreases stop - k,
{
    if k < 0 || k >= stop || k >= ls.len() {
        msg
    } else {
        let c = trim(ls[k]);
        if continuation_stop(c) || !looks_wrapped(msg, c) {
            msg
        } else {
            continue_message(ls, k + 1, stop, joined_continuation(msg, c))
        }
    }
}

pub open spec fn ascii_lower_code(c: char) -> u32 {
    if 'A' <= c && c <= 'Z' {
        ((c as u32) + 32) as u32
    } else {
        c as u32
    }
}

/// Equal up to ASCII case (`str::eq_ignore_ascii_case`).
pub open spec fn eq_ignore_ascii_case(a: Seq<char>, b: Seq<char>) -> bool {
    a.len() == b.len() && forall|i: int| 0 <= i < a.len() ==> ascii_lower_code(a[i]) == ascii_lower_code(b[i])
}

/// A message that says no more than that there was an error.
pub open spec fn bare_message(m: Seq<char>) -> bool {
    m.len() == 0 || eq_ignore_ascii_case(m, "latex error:"@) || eq_ignore_ascii_case(
        m,
        "latex error"@,
    )
}

pub open spec fn is_detail_line(n: Seq<char>) -> bool {
    &&& n.len() > 0
    &&& !starts_with(n, "l."@)
    &&& !starts_with(n, "!"@)
    &&& !starts_with(n, "Type H"@)
    &&& !starts_with(n, "See the LaTeX manual"@)
}

/// The first of the lines `k..stop` that can stand as the message.
pub open spec fn first_detail(ls: Seq<Seq<char>>, k: int, stop: int) -> Option<Seq<char>>
    decreases stop - k,
{
    if k < 0 || k >= stop || k >= ls.len() {
        None
    } else if is_detail_line(trim(ls[k])) {
        Some(trim(ls[k]))
    } else {
        first_detail(ls, k + 1, stop)
    }
}

/// The text of the first source-line marker among the lines `k..stop`.
pub open spec fn first_tex_context(ls: Seq<Seq<char>>, k: int, stop: int) -> Option<Seq<char>>
    decreases stop - k,
{
    if k < 0 || k >= stop || k >= ls.len() {
        None
    } else {
        match tex_line_parts(trim(ls[k])) {
            Some((_, _, c)) => Some(trim(trim(ls[k]).subrange(c, trim(ls[k]).len() as int))),
            None => first_tex_context(ls, k + 1, stop),
        }
    }
}

/// After a `! message` line at `i`, the lines from `j` up to the next error
/// or 30 lines on: the line number and text of the first source-line marker
/// (the next line's text where the marker's is blank), and where the scan
/// stopped.
pub open spec fn bang_scan(ls: Seq<Seq<char>>, i: int, j: int) -> (nat, Seq<char>, int)
    decreases ls.len() - j,
{
    if j < 0 || j >= ls.len() || j >= i + 30 {
        (0, seq![], j)
    } else {
        let n = trim(ls[j]);
        if starts_with(n, "! "@) {
            (0, seq![], j)
        } else {
            match tex_line_parts(n) {
                Some((a, b, c)) => {
                    let ctx = trim(n.subrange(c, n.len() as int));
                    (
                        number_or_zero(n.subrange(a, b)),
                        if ctx.len() == 0 && j + 1 < ls.len() {
                            trim(ls[j + 1])
                        } else {
                            ctx
                        },
                        j,
                    )
                },
                None => bang_scan(ls, i, j + 1),
            }
        }
    }
}

pub open spec fn has_same(errors: Seq<Diagnostic>, line: nat, msg: Seq<char>) -> bool {
    exists|k: int| 0 <= k < errors.len() && errors[k].line == line && errors[k].message == msg
}

/// Records the error read from one log line: located (a dependency file is
/// put at line 1; with remapping, the line is inferred from the context, and
/// an error that cannot be placed is put at line 1 as a preamble error),
/// explained, and kept unless an error with the same line and message is
/// already recorded.  A line-less `! Emergency stop` is recorded only when
/// nothing else was.
pub open spec fn record(
    src: Seq<Seq<char>>,
    remap: bool,
    line: Seq<char>,
    msg: Seq<char>,
    num: nat,
    ctx: Seq<char>,
    errors: Seq<Diagnostic>,
) -> Seq<Diagnostic> {
    if msg.len() > 0 && num > 0 {
        let located: (nat, Seq<char>) = if starts_with(ctx, "LaTeX dependency file:"@) {
            (1, ctx)
        } else if remap {
            let inferred = inferred_line(src, num, ctx);
            if inferred == 0 {
                (1, GENERATED_PREAMBLE@)
            } else {
                (
                    inferred,
                    if ctx.len() == 0 {
                        context_line(src, inferred)
                    } else {
                        ctx
                    },
                )
            }
        } else {
            (num, ctx)
        };
        if has_same(errors, located.0, msg) {
            errors
        } else {
            errors.push(
                Diagnostic {
                    line: located.0,
                    message: msg,
                    context: located.1,
                    suggestion: suggestion(msg, located.1),
                },
            )
        }
    } else if starts_with(line, "! Emergency stop"@) && errors.len() == 0 {
        errors.push(
            Diagnostic {
                line: 1,
                message: "Emergency stop"@,
                context: context_line(src, 1),
                suggestion: suggestion("Emergency stop"@, seq![]),
            },
        )
    } else {
        errors
    }
}

/// Reads the log line `i`: the errors after it, and the next line to read.
pub open spec fn line_step(
    ls: Seq<Seq<char>>,
    i: int,
    src: Seq<Seq<char>>,
    remap: bool,
    errors: Seq<Diagnostic>,
) -> (Seq<Diagnostic>, int) {
    let line = trim_end(ls[i]);
    match file_line_parts(line) {
        Some((p, ds, de, ms)) => {
            let file = trim(line.subrange(0, p));
            let dependency = ends_with(file, ".sty"@) || ends_with(file, ".cls"@);
            let num = number_or_zero(line.subrange(ds, de));
            let m1 = continue_message(ls, i + 1, i + 9, trim(line.subrange(ms, line.len() as int)));
            let msg = if bare_message(m1) {
                match first_detail(ls, i + 1, i + 9) {
                    Some(n) => n,
                    None => NO_DETAIL@,
                }
            } else {
                m1
            };
            let ctx0 = if dependency {
                DEPENDENCY_PREFIX@ + file + DEPENDENCY_SUFFIX@
            } else if remap {
                seq![]
            } else {
                context_line(src, num)
            };
            let ctx = if remap && !dependency {
                match first_tex_context(ls, i + 1, i + 13) {
                    Some(c) => c,
                    None => ctx0,
                }
            } else {
                ctx0
            };
            (record(src, remap, line, msg, num, ctx, errors), i + 1)
        },
        None => if starts_with(line, "! "@) {
            let b = bang_scan(ls, i, i + 1);
            (record(src, remap, line, trim(line.subrange(2, line.len() as int)), b.0, b.1, errors), b.2 + 1)
        } else {
            match location_parts(line) {
                Some((ds, de, ms)) => {
                    let num = number_or_zero(line.subrange(ds, de));
                    let m = trim(line.subrange(ms, line.len() as int));
                    let msg = if m.len() == 0 {
                        trim(line)
                    } else {
                        m
                    };
                    (record(src, remap, line, msg, num, context_line(src, num), errors), i + 1)
                },
                None => (record(src, remap, line, seq![], 0, seq![], errors), i + 1),
            }
        },
    }
}

/// The errors of the log lines from `i` on, added to `errors`.
pub open spec fn read_from(
    ls: Seq<Seq<char>>,
    i: int,
    src: Seq<Seq<char>>,
    remap: bool,
    errors: Seq<Diagnostic>,
) -> Seq<Diagnostic>
    decreases ls.len() - i,
{
    if i < 0 || i >= ls.len() {
        errors
    } else {
        let s = line_step(ls, i, src, remap, errors);
        if i < s.1 <= ls.len() {
            read_from(ls, s.1, src, remap, s.0)
        } else {
            s.0
        }
    }
}

/// `d` placed after every element of the line-sorted `s` whose line is not
/// greater (a stable insertion).
pub open spec fn insert_by_line(s: Seq<Diagnostic>, d: Diagnostic) -> Seq<Diagnostic>
    decreases s.len(),
{
    if s.len() == 0 || s.last().line <= d.line {
        s.push(d)
    } else {
        insert_by_line(s.drop_last(), d).push(s.last())
    }
}

/// `s` stably sorted by line.
pub open spec fn sort_by_line(s: Seq<Diagnostic>) -> Seq<Diagnostic>
    decreases s.len(),
{
    if s.len() == 0 {
        s
    } else {
        insert_by_line(sort_by_line(s.drop_last()), s.last())
    }
}

/// The `amssymb` symbols that `unicode-math` also defines.
pub open spec fn conflict_symbol(k: int) -> Seq<char> {
    if k == 0 {
        "\\eth"@
    } else if k == 1 {
        "\\smallsetminus"@
    } else if k == 2 {
        "\\digamma"@
    } else {
        "\\backepsilon"@
    }
}

pub open spec fn already_defined(d: Diagnostic) -> bool {
    contains(lowercase(d.message), "already defined"@)
}

/// Some error reports the symbol as already defined.
pub open spec fn reported_symbol(es: Seq<Diagnostic>, k: int) -> bool {
    exists|j: int| 0 <= j < es.len() && already_defined(es[j]) && contains(es[j].message, conflict_symbol(k))
}

/// The reported symbols among the `k`-th on, in the order of the list.
pub open spec fn reported_symbols(es: Seq<Diagnostic>, k: int) -> Seq<Seq<char>>
    decreases 4 - k,
{
    if k < 0 || k >= 4 {
        seq![]
    } else {
        (if reported_symbol(es, k) {
            seq![conflict_symbol(k)]
        } else {
            seq![]
        }) + reported_symbols(es, k + 1)
    }
}

pub open spec fn is_symbol_conflict(d: Diagnostic) -> bool {
    already_defined(d) && exists|k: int| 0 <= k < 4 && contains(d.message, conflict_symbol(k))
}

/// The texts joined by `, `.
pub open spec fn join_comma(ws: Seq<Seq<char>>) -> Seq<char>
    decreases ws.len(),
{
    if ws.len() == 0 {
        seq![]
    } else if ws.len() == 1 {
        ws[0]
    } else {
        join_comma(ws.drop_last()) + seq![',', ' '] + ws.last()
    }
}

/// The errors that are not symbol conflicts, in order.
pub open spec fn without_symbol_conflicts(es: Seq<Diagnostic>) -> Seq<Diagnostic>
    decreases es.len(),
{
    if es.len() == 0 {
        es
    } else if is_symbol_conflict(es.last()) {
        without_symbol_conflicts(es.drop_last())
    } else {
        without_symbol_conflicts(es.drop_last()).push(es.last())
    }
}

/// Two or more reported symbol conflicts are replaced by one package
/// conflict at line 1.
pub open spec fn consolidated(es: Seq<Diagnostic>) -> Seq<Diagnostic> {
    let found = reported_symbols(es, 0);
    if found.len() >= 2 {
        let list = join_comma(found);
        let msg = CONFLICT_BEFORE@ + list + CONFLICT_AFTER@;
        sort_by_line(
            without_symbol_conflicts(es).push(
                Diagnostic {
                    line: 1,
                    message: msg,
                    context: PACKAGE_CONFLICT_CONTEXT@,
                    suggestion: suggestion(msg, list),
                },
            ),
        )
    } else {
        es
    }
}

/// The errors a compiler log reports about a manuscript, sorted by line.
pub open spec fn compiler_errors(output: Seq<char>, source: Seq<char>, remap: bool) -> Seq<
    Diagnostic,
> {
    consolidated(sort_by_line(read_from(lines(output), 0, lines(source), remap, seq![])))
}

// ---------------------------------------------------------------------------
// The consolidated message is itself a symbol conflict.
// ---------------------------------------------------------------------------

/// The lowercase mapping is known to be the ASCII one on every ASCII
/// message of `ds` (what a call of `to_lowercase` on each tells).
pub open spec fn ascii_messages_lowered(ds: Seq<Diagnostic>) -> bool {
    forall|i: int|
        0 <= i < ds.len() && is_ascii_text(#[trigger] ds[i].message) ==> lowercase(ds[i].message)
            == ascii_lower(ds[i].message)
}

proof fn lemma_conflict_symbols_ascii(k: int)
    ensures
        is_ascii_text(conflict_symbol(k)),
        conflict_symbol(k).len() > 0,
{
    reveal_strlit("\\eth");
    reveal_strlit("\\smallsetminus");
    reveal_strlit("\\digamma");
    reveal_strlit("\\backepsilon");
}

/// One of the four symbols.
pub open spec fn is_conflict_symbol(s: Seq<char>) -> bool {
    s == conflict_symbol(0) || s == conflict_symbol(1) || s == conflict_symbol(2) || s == conflict_symbol(3)
}

proof fn lemma_reported_are_symbols(es: Seq<Diagnostic>, k: int)
    ensures
        forall|i: int|
            0 <= i < reported_symbols(es, k).len() ==> is_conflict_symbol(#[trigger] reported_symbols(es, k)[i]),
    decreases 4 - k,
{
    if 0 <= k < 4 {
        lemma_reported_are_symbols(es, k + 1);
        let head: Seq<Seq<char>> = if reported_symbol(es, k) {
            seq![conflict_symbol(k)]
        } else {
            seq![]
        };
        let r = reported_symbols(es, k);
        assert(r == head + reported_symbols(es, k + 1));
        assert forall|i: int| 0 <= i < r.len() implies is_conflict_symbol(#[trigger] r[i]) by {
            if i < head.len() {
                assert(r[i] == conflict_symbol(k));
            } else {
                assert(r[i] == reported_symbols(es, k + 1)[i - head.len()]);
            }
        }
    }
}

proof fn lemma_ascii_concat(a: Seq<char>, b: Seq<char>)
    requires
        is_ascii_text(a),
        is_ascii_text(b),
    ensures
        is_ascii_text(a + b),
{
    assert forall|i: int| 0 <= i < (a + b).len() implies is_ascii_char(#[trigger] (a + b)[i]) by {
        if i < a.len() {
            assert((a + b)[i] == a[i]);
        } else {
            assert((a + b)[i] == b[i - a.len()]);
        }
    }
}

proof fn lemma_join_comma_ascii(ws: Seq<Seq<char>>)
    requires
        forall|i: int| 0 <= i < ws.len() ==> is_ascii_text(#[trigger] ws[i]),
    ensures
        is_ascii_text(join_comma(ws)),
    decreases ws.len(),
{
    if ws.len() > 1 {
        let t = ws.drop_last();
        assert forall|i: int| 0 <= i < t.len() implies is_ascii_text(#[trigger] t[i]) by {
            assert(t[i] == ws[i]);
        }
        lemma_join_comma_ascii(t);
        assert(is_ascii_text(seq![',', ' ']));
        lemma_ascii_concat(join_comma(t), seq![',', ' ']);
        assert(is_ascii_text(ws.last()));
        lemma_ascii_concat(join_comma(t) + seq![',', ' '], ws.last());
    } else if ws.len() == 1 {
        assert(is_ascii_text(ws[0]));
    }
}

proof fn lemma_join_comma_starts(ws: Seq<Seq<char>>)
    requires
        ws.len() >= 1,
    ensures
        has_at(join_comma(ws), 0, ws[0]),
    decreases ws.len(),
{
    if ws.len() > 1 {
        let t = ws.drop_last();
        lemma_join_comma_starts(t);
        let j = join_comma(t);
        let whole = join_comma(ws);
        assert(whole == j + seq![',', ' '] + ws.last());
        assert(whole.subrange(0, ws[0].len() as int) =~= j.subrange(0, ws[0].len() as int));
    } else {
        assert(join_comma(ws).subrange(0, ws[0].len() as int) =~= ws[0]);
    }
}

proof fn lemma_ascii_lower_concat(a: Seq<char>, b: Seq<char>)
    ensures
        ascii_lower(a + b) == ascii_lower(a) + ascii_lower(b),
{
    assert(ascii_lower(a + b) =~= ascii_lower(a) + ascii_lower(b));
}

/// The consolidated message is ASCII, reports the symbols as already
/// defined (in any case) and names the first of them.
proof fn lemma_conflict_message(found: Seq<Seq<char>>)
    requires
        found.len() >= 1,
        forall|i: int| 0 <= i < found.len() ==> is_conflict_symbol(#[trigger] found[i]),
    ensures
        is_ascii_text(CONFLICT_BEFORE@ + join_comma(found) + CONFLICT_AFTER@),
        contains(ascii_lower(CONFLICT_BEFORE@ + join_comma(found) + CONFLICT_AFTER@), "already defined"@),
        contains(CONFLICT_BEFORE@ + join_comma(found) + CONFLICT_AFTER@, found[0]),
{
    reveal_strlit("Symbol package conflict: ");
    reveal_strlit(" are already defined.");
    reveal_strlit("already defined");
    let b = CONFLICT_BEFORE@;
    let a = CONFLICT_AFTER@;
    let j = join_comma(found);
    lemma_conflict_symbols_ascii(0);
    lemma_conflict_symbols_ascii(1);
    lemma_conflict_symbols_ascii(2);
    lemma_conflict_symbols_ascii(3);
    assert forall|i: int| 0 <= i < found.len() implies is_ascii_text(#[trigger] found[i]) by {
        assert(is_conflict_symbol(found[i]));
    }
    lemma_join_comma_ascii(found);
    assert(is_ascii_text(b));
    assert(is_ascii_text(a));
    lemma_ascii_concat(b, j);
    lemma_ascii_concat(b + j, a);
    lemma_ascii_lower_concat(b, j);
    lemma_ascii_lower_concat(b + j, a);
    assert(ascii_lower(a) =~= a);
    let low = ascii_lower(b + j + a);
    assert(low == ascii_lower(b) + ascii_lower(j) + a);
    let off: int = b.len() + j.len() + 5int;
    assert(low.subrange(off, off + 15) =~= "already defined"@);
    assert(has_at(low, off, "already defined"@));
    lemma_join_comma_starts(found);
    let msg = b + j + a;
    assert(msg.subrange(b.len() as int, b.len() + found[0].len() as int) =~= j.subrange(0, found[0].len() as int));
    assert(has_at(msg, b.len() as int, found[0]));
}

proof fn lemma_without_not_conflict(es: Seq<Diagnostic>)
    ensures
        forall|i: int|
            0 <= i < without_symbol_conflicts(es).len() ==> !is_symbol_conflict(
                #[trigger] without_symbol_conflicts(es)[i],
            ),
    decreases es.len(),
{
    if es.len() > 0 {
        let t = es.drop_last();
        lemma_without_not_conflict(t);
        let w = without_symbol_conflicts(t);
        if !is_symbol_conflict(es.last()) {
            assert forall|i: int| 0 <= i < w.push(es.last()).len() implies !is_symbol_conflict(
                #[trigger] w.push(es.last())[i],
            ) by {
                if i < w.len() {
                    assert(w.push(es.last())[i] == w[i]);
                }
            }
        }
    }
}

/// Where the lowercase mapping is the ASCII one on the ASCII messages, no
/// error kept beside the consolidated entry repeats it: an error with that
/// message would itself be a symbol conflict, and those are taken out.
proof fn lemma_no_conflict_entry_repeats(ds: Seq<Diagnostic>)
    requires
        ascii_messages_lowered(ds),
    ensures
        !conflict_entry_repeats(ds),
{
    let found = reported_symbols(ds, 0);
    if found.len() >= 2 {
        lemma_reported_are_symbols(ds, 0);
        lemma_conflict_message(found);
        let msg = CONFLICT_BEFORE@ + join_comma(found) + CONFLICT_AFTER@;
        let w = without_symbol_conflicts(ds);
        lemma_without_conflicts(ds);
        lemma_without_not_conflict(ds);
        assert(is_conflict_symbol(found[0]));
        let m0: int = if found[0] == conflict_symbol(0) {
            0
        } else if found[0] == conflict_symbol(1) {
            1
        } else if found[0] == conflict_symbol(2) {
            2
        } else {
            3
        };
        assert forall|k: int| 0 <= k < w.len() && #[trigger] w[k].line == 1 implies w[k].message != msg by {
            if w[k].message == msg {
                let jj = choose|jj: int| 0 <= jj < ds.len() && w[k] == ds[jj];
                assert(is_ascii_text(ds[jj].message));
                assert(lowercase(ds[jj].message) == ascii_lower(ds[jj].message));
                assert(already_defined(w[k]));
                assert(contains(w[k].message, conflict_symbol(m0)));
                assert(is_symbol_conflict(w[k]));
            }
        }
    }
}

// ---------------------------------------------------------------------------
// Reading a log: the executable side.
// ---------------------------------------------------------------------------

fn starts_with_str(t: &Vec<char>, p: &str) -> (r: bool)
    ensures
        r == starts_with(t@, p@),
{
    has_at_exec(t, 0, &chars_of(p))
}

fn ends_with_str(t: &Vec<char>, p: &str) -> (r: bool)
    ensures
        r == ends_with(t@, p@),
{
    let pc = chars_of(p);
    if pc.len() > t.len() {
        return false;
    }
    has_at_exec(t, t.len() - pc.len(), &pc)
}

/// The trimmed line `k`.
fn trimmed(ls: &Vec<Vec<char>>, k: usize) -> (r: Vec<char>)
    requires
        k < ls.len(),
    ensures
        r@ == trim(views(ls@)[k as int]),
{
    let l = &ls[k];
    let (a, b) = trim_range(l, 0, l.len());
    assert(l@.subrange(0, l@.len() as int) =~= l@);
    copy_range(l, a, b)
}

fn continuation_stop_exec(c: &Vec<char>, latex_error: &Vec<char>) -> (r: bool)
    requires
        latex_error@ == "LaTeX Error:"@,
    ensures
        r == continuation_stop(c@),
{
    c.len() == 0 || starts_with_str(c, "l.") || starts_with_str(c, "! ")
        || file_line_parts_exec(c, latex_error).is_some() || starts_with_str(c, "Type H")
        || starts_with_str(c, "See the LaTeX manual") || starts_with_str(c, "<")
}

fn looks_wrapped_exec(msg: &Vec<char>, c: &Vec<char>) -> (r: bool)
    ensures
        r == looks_wrapped(msg@, c@),
{
    starts_with_str(c, "ror:") || ends_with_str(msg, "LaTeX Er") || ends_with_str(msg, "Package Er")
        || (!ends_with_str(msg, ".") && !ends_with_str(msg, "!") && !ends_with_str(msg, "?"))
}

fn push_all(out: &mut Vec<char>, v: &Vec<char>)
    ensures
        final(out)@ == old(out)@ + v@,
{
    let mut k: usize = 0;
    while k < v.len()
        invariant
            k <= v.len(),
            out@ == old(out)@ + v@.subrange(0, k as int),
        decreases v.len() - k,
    {
        out.push(v[k]);
        k = k + 1;
        assert(out@ =~= old(out)@ + v@.subrange(0, k as int));
    }
    assert(v@.subrange(0, k as int) =~= v@);
}

fn continue_message_exec(
    ls: &Vec<Vec<char>>,
    i: usize,
    msg: Vec<char>,
    latex_error: &Vec<char>,
) -> (r: Vec<char>)
    requires
        latex_error@ == "LaTeX Error:"@,
        i < ls.len(),
    ensures
        r@ == continue_message(views(ls@), i + 1, i + 9, msg@),
{
    let ghost vs = views(ls@);
    let mut m = msg;
    let mut k = i + 1;
    while k < ls.len() && k - i < 9
        invariant
            i + 1 <= k,
            i < ls.len(),
            vs == views(ls@),
            latex_error@ == "LaTeX Error:"@,
            continue_message(vs, i + 1, i + 9, msg@) == continue_message(vs, k as int, i + 9, m@),
        decreases ls.len() - k,
    {
        let c = trimmed(ls, k);
        if continuation_stop_exec(&c, latex_error) || !looks_wrapped_exec(&m, &c) {
            return m;
        }
        let ghost old_m = m@;
        if starts_with_str(&c, "ror:") && ends_with_str(&m, "Er") {
            push_all(&mut m, &c);
        } else {
            m.push(' ');
            push_all(&mut m, &c);
        }
        assert(m@ =~= joined_continuation(old_m, c@));
        k = k + 1;
    }
    m
}

fn ascii_lower_code_exec(c: char) -> (r: u32)
    ensures
        r == ascii_lower_code(c),
{
    if 'A' <= c && c <= 'Z' {
        (c as u32) + 32
    } else {
        c as u32
    }
}

fn eq_ignore_ascii_case_exec(a: &Vec<char>, b: &str) -> (r: bool)
    ensures
        r == eq_ignore_ascii_case(a@, b@),
{
    let bc = chars_of(b);
    if a.len() != bc.len() {
        return false;
    }
    let mut k: usize = 0;
    while k < a.len()
        invariant
            k <= a.len(),
            a@.len() == bc@.len(),
            bc@ == b@,
            forall|i: int| 0 <= i < k ==> ascii_lower_code(a@[i]) == ascii_lower_code(bc@[i]),
        decreases a.len() - k,
    {
        if ascii_lower_code_exec(a[k]) != ascii_lower_code_exec(bc[k]) {
            assert(ascii_lower_code(a@[k as int]) != ascii_lower_code(b@[k as int]));
            return false;
        }
        k = k + 1;
    }
    true
}

fn first_detail_exec(ls: &Vec<Vec<char>>, i: usize) -> (r: Option<Vec<char>>)
    requires
        i < ls.len(),
    ensures
        r matches Some(v) ==> first_detail(views(ls@), i + 1, i + 9) == Some(v@),
        r is None ==> first_detail(views(ls@), i + 1, i + 9) is None,
{
    let ghost vs = views(ls@);
    let mut k = i + 1;
    while k < ls.len() && k - i < 9
        invariant
            i + 1 <= k,
            i < ls.len(),
            vs == views(ls@),
            first_detail(vs, i + 1, i + 9) == first_detail(vs, k as int, i + 9),
        decreases ls.len() - k,
    {
        let n = trimmed(ls, k);
        if n.len() > 0 && !starts_with_str(&n, "l.") && !starts_with_str(&n, "!")
            && !starts_with_str(&n, "Type H") && !starts_with_str(&n, "See the LaTeX manual") {
            return Some(n);
        }
        k = k + 1;
    }
    None
}

fn first_tex_context_exec(ls: &Vec<Vec<char>>, i: usize) -> (r: Option<Vec<char>>)
    requires
        i < ls.len(),
    ensures
        r matches Some(v) ==> first_tex_context(views(ls@), i + 1, i + 13) == Some(v@),
        r is None ==> first_tex_context(views(ls@), i + 1, i + 13) is None,
{
    let ghost vs = views(ls@);
    let mut k = i + 1;
    while k < ls.len() && k - i < 13
        invariant
            i + 1 <= k,
            i < ls.len(),
            vs == views(ls@),
            first_tex_context(vs, i + 1, i + 13) == first_tex_context(vs, k as int, i + 13),
        decreases ls.len() - k,
    {
        let n = trimmed(ls, k);
        match tex_line_parts_exec(&n) {
            Some((_, _, c)) => {
                let (a, b) = trim_range(&n, c, n.len());
                return Some(copy_range(&n, a, b));
            },
            None => {},
        }
        k = k + 1;
    }
    None
}

fn bang_scan_exec(ls: &Vec<Vec<char>>, i: usize) -> (r: (usize, Vec<char>, usize))
    requires
        i < ls.len(),
    ensures
        ({
            let b = bang_scan(views(ls@), i as int, i + 1);
            &&& r.0 as nat == b.0
            &&& r.1@ == b.1
            &&& r.2 as int == b.2
            &&& i < r.2 <= ls.len()
        }),
{
    let ghost vs = views(ls@);
    let mut j = i + 1;
    while j < ls.len() && j - i < 30
        invariant
            i + 1 <= j <= ls.len(),
            vs == views(ls@),
            bang_scan(vs, i as int, i + 1) == bang_scan(vs, i as int, j as int),
        decreases ls.len() - j,
    {
        let n = trimmed(ls, j);
        if starts_with_str(&n, "! ") {
            return (0, Vec::new(), j);
        }
        match tex_line_parts_exec(&n) {
            Some((a, b, c)) => {
                let num = number_or_zero_exec(&n, a, b);
                let (ca, cb) = trim_range(&n, c, n.len());
                let ctx = if ca == cb && j + 1 < ls.len() {
                    trimmed(ls, j + 1)
                } else {
                    copy_range(&n, ca, cb)
                };
                return (num, ctx, j);
            },
            None => {},
        }
        j = j + 1;
    }
    (0, Vec::new(), j)
}

fn has_same_exec(errors: &Vec<LaTeXError>, line: usize, msg: &String) -> (r: bool)
    ensures
        r == has_same(diagnostics_of(errors@), line as nat, msg@),
{
    let ghost ds = diagnostics_of(errors@);
    let mut k: usize = 0;
    while k < errors.len()
        invariant
            k <= errors.len(),
            ds == diagnostics_of(errors@),
            forall|j: int| 0 <= j < k ==> !(ds[j].line == line as nat && ds[j].message == msg@),
        decreases errors.len() - k,
    {
        if errors[k].line == line && errors[k].message == *msg {
            assert(ds[k as int].line == line as nat && ds[k as int].message == msg@);
            return true;
        }
        k = k + 1;
    }
    false
}

fn record_exec(
    src: &Vec<Vec<char>>,
    remap: bool,
    line: &Vec<char>,
    msg: Vec<char>,
    num: usize,
    ctx: Vec<char>,
    errors: &mut Vec<LaTeXError>,
)
    ensures
        diagnostics_of(final(errors)@) == record(
            views(src@),
            remap,
            line@,
            msg@,
            num as nat,
            ctx@,
            diagnostics_of(old(errors)@),
        ),
{
    let ghost before = diagnostics_of(errors@);
    if msg.len() > 0 && num > 0 {
        let (ln, c) = if starts_with_str(&ctx, "LaTeX dependency file:") {
            (1, ctx)
        } else if remap {
            let inferred = infer_lines(src, num, &ctx);
            if inferred == 0 {
                (1usize, chars_of(GENERATED_PREAMBLE))
            } else if ctx.len() == 0 {
                (inferred, context_of(src, inferred))
            } else {
                (inferred, ctx)
            }
        } else {
            (num, ctx)
        };
        let msg_s = string_of(&msg);
        if has_same_exec(errors, ln, &msg_s) {
            return ;
        }
        let ctx_s = string_of(&c);
        let sugg = generate_suggestion(msg_s.as_str(), ctx_s.as_str());
        errors.push(LaTeXError { line: ln, message: msg_s, context: ctx_s, suggestion: sugg });
        assert(diagnostics_of(errors@) =~= before.push(errors@.last()@));
    } else if starts_with_str(line, "! Emergency stop") && errors.len() == 0 {
        let sugg = generate_suggestion("Emergency stop", "");
        proof {
            reveal_strlit("");
            assert(""@ =~= Seq::<char>::empty());
        }
        let context = string_of(&context_of(src, 1));
        errors.push(
            LaTeXError {
                line: 1,
                message: String::from_str("Emergency stop"),
                context,
                suggestion: sugg,
            },
        );
        assert(diagnostics_of(errors@) =~= before.push(errors@.last()@));
    }
}

fn line_step_exec(
    ls: &Vec<Vec<char>>,
    i: usize,
    src: &Vec<Vec<char>>,
    remap: bool,
    errors: &mut Vec<LaTeXError>,
    latex_error: &Vec<char>,
    pats: &LocationPatterns,
) -> (next: usize)
    requires
        i < ls.len(),
        latex_error@ == "LaTeX Error:"@,
        pats.wf(),
    ensures
        ({
            let s = line_step(views(ls@), i as int, views(src@), remap, diagnostics_of(old(errors)@));
            &&& diagnostics_of(final(errors)@) == s.0
            &&& (next as int == s.1 || (next == ls.len() && s.1 == ls.len() + 1))
            &&& i < next <= ls.len()
        }),
{
    let ghost vs = views(ls@);
    let raw = &ls[i];
    let e = trim_end_range(raw, 0, raw.len());
    let line = copy_range(raw, 0, e);
    assert(raw@.subrange(0, raw@.len() as int) =~= raw@);
    assert(vs[i as int] == raw@);
    match file_line_parts_exec(&line, latex_error) {
        Some((p, ds, de, ms)) => {
            let (fa, fb) = trim_range(&line, 0, p);
            let file = copy_range(&line, fa, fb);
            let dependency = ends_with_str(&file, ".sty") || ends_with_str(&file, ".cls");
            let num = number_or_zero_exec(&line, ds, de);
            let (ma, mb) = trim_range(&line, ms, line.len());
            let m1 = continue_message_exec(ls, i, copy_range(&line, ma, mb), latex_error);
            let msg = if m1.len() == 0 || eq_ignore_ascii_case_exec(&m1, "latex error:")
                || eq_ignore_ascii_case_exec(&m1, "latex error") {
                match first_detail_exec(ls, i) {
                    Some(n) => n,
                    None => chars_of(NO_DETAIL),
                }
            } else {
                m1
            };
            let ctx0 = if dependency {
                let mut c = chars_of(DEPENDENCY_PREFIX);
                push_all(&mut c, &file);
                push_all(&mut c, &chars_of(DEPENDENCY_SUFFIX));
                c
            } else if remap {
                Vec::new()
            } else {
                context_of(src, num)
            };
            let ctx = if remap && !dependency {
                match first_tex_context_exec(ls, i) {
                    Some(c) => c,
                    None => ctx0,
                }
            } else {
                ctx0
            };
            record_exec(src, remap, &line, msg, num, ctx, errors);
            i + 1
        },
        None => {
            if starts_with_str(&line, "! ") {
                proof {
                    reveal_strlit("! ");
                }
                assert(line@.len() >= 2);
                let (a, b) = trim_range(&line, 2, line.len());
                let msg = copy_range(&line, a, b);
                let (num, ctx, j) = bang_scan_exec(ls, i);
                record_exec(src, remap, &line, msg, num, ctx, errors);
                if j < ls.len() {
                    j + 1
                } else {
                    j
                }
            } else {
                match location_parts_exec(&line, pats) {
                    Some((ds, de, ms)) => {
                        let num = number_or_zero_exec(&line, ds, de);
                        let (ma, mb) = trim_range(&line, ms, line.len());
                        let msg = if ma == mb {
                            let (la, lb) = trim_range(&line, 0, line.len());
                            assert(line@.subrange(0, line@.len() as int) =~= line@);
                            copy_range(&line, la, lb)
                        } else {
                            copy_range(&line, ma, mb)
                        };
                        let ctx = context_of(src, num);
                        record_exec(src, remap, &line, msg, num, ctx, errors);
                        i + 1
                    },
                    None => {
                        record_exec(src, remap, &line, Vec::new(), 0, Vec::new(), errors);
                        i + 1
                    },
                }
            }
        },
    }
}

fn read_log(ls: &Vec<Vec<char>>, src: &Vec<Vec<char>>, remap: bool) -> (r: Vec<LaTeXError>)
    ensures
        diagnostics_of(r@) == read_from(views(ls@), 0, views(src@), remap, seq![]),
{
    let latex_error = chars_of("LaTeX Error:");
    let pats = LocationPatterns::new();
    let mut errors: Vec<LaTeXError> = Vec::new();
    assert(diagnostics_of(errors@) =~= Seq::<Diagnostic>::empty());
    let mut i: usize = 0;
    while i < ls.len()
        invariant
            i <= ls.len(),
            latex_error@ == "LaTeX Error:"@,
            pats.wf(),
            read_from(views(ls@), 0, views(src@), remap, seq![]) == read_from(
                views(ls@),
                i as int,
                views(src@),
                remap,
                diagnostics_of(errors@),
            ),
        decreases ls.len() - i,
    {
        i = line_step_exec(ls, i, src, remap, &mut errors, &latex_error, &pats);
    }
    errors
}

proof fn lemma_insert_by_line(s: Seq<Diagnostic>, d: Diagnostic, k: int)
    requires
        0 <= k <= s.len(),
        forall|j: int| k <= j < s.len() ==> s[j].line > d.line,
        k == 0 || s[k - 1].line <= d.line,
    ensures
        insert_by_line(s, d) == s.insert(k, d),
    decreases s.len(),
{
    if k == s.len() {
        assert(s.insert(k, d) =~= s.push(d));
    } else {
        lemma_insert_by_line(s.drop_last(), d, k);
        assert(s.drop_last().insert(k, d).push(s.last()) =~= s.insert(k, d));
    }
}

fn sort_errors(v: Vec<LaTeXError>) -> (r: Vec<LaTeXError>)
    ensures
        diagnostics_of(r@) == sort_by_line(diagnostics_of(v@)),
{
    let ghost orig = diagnostics_of(v@);
    let mut rest = v;
    let mut res: Vec<LaTeXError> = Vec::new();
    let ghost mut n: int = 0;
    assert(diagnostics_of(res@) =~= sort_by_line(orig.subrange(0, 0)));
    assert(diagnostics_of(rest@) =~= orig.subrange(0, orig.len() as int));
    while rest.len() > 0
        invariant
            0 <= n <= orig.len(),
            n + rest@.len() == orig.len(),
            diagnostics_of(rest@) == orig.subrange(n, orig.len() as int),
            diagnostics_of(res@) == sort_by_line(orig.subrange(0, n)),
        decreases rest.len(),
    {
        let ghost before_rest = rest@;
        let e = rest.remove(0);
        assert(diagnostics_of(before_rest)[0] == e@);
        assert forall|i: int| 0 <= i < rest@.len() implies diagnostics_of(rest@)[i] == orig[n + 1 + i] by {
            assert(rest@[i] == before_rest[i + 1]);
            assert(diagnostics_of(before_rest)[i + 1] == orig.subrange(n, orig.len() as int)[i + 1]);
        }
        assert(diagnostics_of(rest@) =~= orig.subrange(n + 1, orig.len() as int));
        let ghost sorted = diagnostics_of(res@);
        let mut k = res.len();
        while k > 0 && res[k - 1].line > e.line
            invariant
                k <= res.len(),
                sorted == diagnostics_of(res@),
                forall|j: int| k <= j < sorted.len() ==> sorted[j].line > e.line,
            decreases k,
        {
            k = k - 1;
        }
        proof {
            lemma_insert_by_line(sorted, e@, k as int);
            assert(orig.subrange(0, n + 1).drop_last() =~= orig.subrange(0, n));
            assert(orig.subrange(0, n + 1).last() == e@);
        }
        let ghost res_before = res@;
        res.insert(k, e);
        assert(diagnostics_of(res@) =~= diagnostics_of(res_before).insert(k as int, e@));
        proof {
            n = n + 1;
        }
    }
    assert(orig.subrange(0, n) =~= orig);
    res
}

fn conflict_symbol_exec(k: usize) -> (r: Vec<char>)
    ensures
        r@ == conflict_symbol(k as int),
{
    if k == 0 {
        chars_of("\\eth")
    } else if k == 1 {
        chars_of("\\smallsetminus")
    } else if k == 2 {
        chars_of("\\digamma")
    } else {
        chars_of("\\backepsilon")
    }
}

fn consolidate(es: Vec<LaTeXError>) -> (r: Vec<LaTeXError>)
    ensures
        diagnostics_of(r@) == consolidated(diagnostics_of(es@)),
        !conflict_entry_repeats(diagnostics_of(es@)),
{
    let ghost ds = diagnostics_of(es@);
    // Which errors report a symbol as already defined, and which are conflicts.
    let mut already: Vec<bool> = Vec::new();
    let mut j: usize = 0;
    while j < es.len()
        invariant
            j <= es.len(),
            ds == diagnostics_of(es@),
            already@.len() == j,
            forall|i: int| 0 <= i < j ==> already@[i] == already_defined(ds[i]),
            forall|i: int|
                0 <= i < j && is_ascii_text(#[trigger] ds[i].message) ==> lowercase(ds[i].message)
                    == ascii_lower(ds[i].message),
        decreases es.len() - j,
    {
        let lower = to_lowercase(es[j].message.as_str());
        assert(ds[j as int].message == es[j as int].message@);
        let a = contains_exec(&chars_of(lower.as_str()), &chars_of("already defined"));
        already.push(a);
        j = j + 1;
    }
    let mut found: Vec<Vec<char>> = Vec::new();
    let mut k: usize = 0;
    while k < 4
        invariant
            k <= 4,
            ds == diagnostics_of(es@),
            already@.len() == es@.len(),
            forall|i: int| 0 <= i < es@.len() ==> already@[i] == already_defined(ds[i]),
            views(found@) + reported_symbols(ds, k as int) == reported_symbols(ds, 0),
        decreases 4 - k,
    {
        let sym = conflict_symbol_exec(k);
        let mut hit = false;
        let mut i: usize = 0;
        while i < es.len()
            invariant
                i <= es.len(),
                ds == diagnostics_of(es@),
                already@.len() == es@.len(),
                forall|m: int| 0 <= m < es@.len() ==> already@[m] == already_defined(ds[m]),
                sym@ == conflict_symbol(k as int),
                hit == exists|m: int| 0 <= m < i && already_defined(ds[m]) && contains(ds[m].message, sym@),
            decreases es.len() - i,
        {
            if already[i] && contains_exec(&chars_of(es[i].message.as_str()), &sym) {
                hit = true;
            }
            i = i + 1;
        }
        let ghost before = views(found@);
        if hit {
            found.push(sym);
            assert(views(found@) =~= before.push(conflict_symbol(k as int)));
        }
        assert(views(found@) + reported_symbols(ds, k + 1) =~= before + reported_symbols(ds, k as int));
        k = k + 1;
    }
    assert(views(found@) =~= reported_symbols(ds, 0));
    proof {
        lemma_no_conflict_entry_repeats(ds);
    }
    if found.len() < 2 {
        return es;
    }
    // Conflicts among the errors.
    let mut conflict: Vec<bool> = Vec::new();
    let mut j: usize = 0;
    while j < es.len()
        invariant
            j <= es.len(),
            ds == diagnostics_of(es@),
            already@.len() == es@.len(),
            forall|i: int| 0 <= i < es@.len() ==> already@[i] == already_defined(ds[i]),
            conflict@.len() == j,
            forall|i: int| 0 <= i < j ==> conflict@[i] == is_symbol_conflict(ds[i]),
        decreases es.len() - j,
    {
        let msg = chars_of(es[j].message.as_str());
        let mut any = false;
        let mut k: usize = 0;
        while k < 4
            invariant
                k <= 4,
                j < ds.len(),
                msg@ == ds[j as int].message,
                any == exists|m: int| 0 <= m < k && contains(msg@, conflict_symbol(m)),
            decreases 4 - k,
        {
            if contains_exec(&msg, &conflict_symbol_exec(k)) {
                any = true;
            }
            k = k + 1;
        }
        conflict.push(already[j] && any);
        j = j + 1;
    }
    let mut kept: Vec<LaTeXError> = Vec::new();
    let mut rest = es;
    let ghost mut n: int = 0;
    let mut idx: usize = 0;
    assert(diagnostics_of(kept@) =~= without_symbol_conflicts(ds.subrange(0, 0)));
    assert(diagnostics_of(rest@) =~= ds.subrange(0, ds.len() as int));
    while rest.len() > 0
        invariant
            0 <= n <= ds.len(),
            idx == n,
            n + rest@.len() == ds.len(),
            conflict@.len() == ds.len(),
            forall|i: int| 0 <= i < ds.len() ==> conflict@[i] == is_symbol_conflict(ds[i]),
            diagnostics_of(rest@) == ds.subrange(n, ds.len() as int),
            diagnostics_of(kept@) == without_symbol_conflicts(ds.subrange(0, n)),
        decreases rest.len(),
    {
        let ghost before_rest = rest@;
        let e = rest.remove(0);
        assert(diagnostics_of(before_rest)[0] == e@);
        assert forall|i: int| 0 <= i < rest@.len() implies diagnostics_of(rest@)[i] == ds[n + 1 + i] by {
            assert(rest@[i] == before_rest[i + 1]);
            assert(diagnostics_of(before_rest)[i + 1] == ds.subrange(n, ds.len() as int)[i + 1]);
        }
        assert(diagnostics_of(rest@) =~= ds.subrange(n + 1, ds.len() as int));
        assert(ds.subrange(0, n + 1).drop_last() =~= ds.subrange(0, n));
        assert(ds.subrange(0, n + 1).last() == e@);
        assert(idx < conflict.len());
        let drop = conflict[idx];
        if !drop {
            let ghost kb = kept@;
            kept.push(e);
            assert(diagnostics_of(kept@) =~= diagnostics_of(kb).push(e@));
        }
        idx = idx + 1;
        proof {
            n = n + 1;
        }
    }
    assert(ds.subrange(0, n) =~= ds);
    let mut list: Vec<char> = Vec::new();
    let mut q: usize = 0;
    while q < found.len()
        invariant
            q <= found.len(),
            list@ == join_comma(views(found@).subrange(0, q as int)),
        decreases found.len() - q,
    {
        if q > 0 {
            list.push(',');
            list.push(' ');
        }
        let ghost before = list@;
        push_all(&mut list, &found[q]);
        assert(views(found@).subrange(0, q + 1).drop_last() =~= views(found@).subrange(0, q as int));
        assert(list@ =~= join_comma(views(found@).subrange(0, q + 1)));
        q = q + 1;
    }
    assert(views(found@).subrange(0, q as int) =~= views(found@));
    let mut msg: Vec<char> = chars_of(CONFLICT_BEFORE);
    push_all(&mut msg, &list);
    push_all(&mut msg, &chars_of(CONFLICT_AFTER));
    let msg_s = string_of(&msg);
    let list_s = string_of(&list);
    let sugg = generate_suggestion(msg_s.as_str(), list_s.as_str());
    let ghost kd = diagnostics_of(kept@);
    kept.push(
        LaTeXError {
            line: 1,
            message: msg_s,
            context: String::from_str(PACKAGE_CONFLICT_CONTEXT),
            suggestion: sugg,
        },
    );
    assert(diagnostics_of(kept@) =~= kd.push(kept@.last()@));
    sort_errors(kept)
}

/// Reads the errors that a LaTeX or Pandoc log reports about `source`.
/// With `remap_generated_lines`, reported lines belong to a generated file
/// and are mapped back to the manuscript through their context.  The same
/// error is never reported twice: no two errors returned name the same line
/// with the same message.
pub fn parse_compiler_errors(output: &str, source: &str, remap_generated_lines: bool) -> (r: Vec<
    LaTeXError,
>)
    ensures
        diagnostics_of(r@) == compiler_errors(output@, source@, remap_generated_lines),
        distinct_reports(diagnostics_of(r@)),
{
    let ls = split_lines(&chars_of(output));
    let src = split_lines(&chars_of(source));
    let errors = read_log(&ls, &src, remap_generated_lines);
    let sorted = sort_errors(errors);
    let r = consolidate(sorted);
    proof {
        lemma_reports_distinct_unless_entry_repeats(output@, source@, remap_generated_lines);
    }
    r
}

// ---------------------------------------------------------------------------
// Laws.
// ---------------------------------------------------------------------------

/// The errors are in order of line.
pub open spec fn sorted_by_line(s: Seq<Diagnostic>) -> bool {
    forall|i: int, j: int| 0 <= i < j < s.len() ==> s[i].line <= s[j].line
}

/// Every error points at a line of the manuscript (lines count from 1).
pub open spec fn all_located(s: Seq<Diagnostic>) -> bool {
    forall|i: int| 0 <= i < s.len() ==> #[trigger] s[i].line >= 1
}

proof fn lemma_insert_sorted(s: Seq<Diagnostic>, d: Diagnostic)
    requires
        sorted_by_line(s),
    ensures
        sorted_by_line(insert_by_line(s, d)),
        insert_by_line(s, d).len() == s.len() + 1,
        forall|i: int|
            0 <= i < insert_by_line(s, d).len() ==> (#[trigger] insert_by_line(s, d)[i] == d
                || exists|j: int| 0 <= j < s.len() && insert_by_line(s, d)[i] == s[j]),
        s.len() > 0 && s.last().line > d.line ==> insert_by_line(s, d).last() == s.last(),
        s.len() == 0 || s.last().line <= d.line ==> insert_by_line(s, d).last() == d,
    decreases s.len(),
{
    if s.len() == 0 || s.last().line <= d.line {
    } else {
        let t = s.drop_last();
        lemma_insert_sorted(t, d);
        let r = insert_by_line(t, d);
        assert forall|i: int| 0 <= i < r.len() implies #[trigger] r[i].line <= s.last().line by {
            if r[i] == d {
            } else {
                let j = choose|j: int| 0 <= j < t.len() && r[i] == t[j];
                assert(s[j] == t[j]);
            }
        }
        assert forall|i: int|
            0 <= i < insert_by_line(s, d).len() implies (#[trigger] insert_by_line(s, d)[i] == d
                || exists|j: int| 0 <= j < s.len() && insert_by_line(s, d)[i] == s[j]) by {
            if i < r.len() {
                if r[i] != d {
                    let j = choose|j: int| 0 <= j < t.len() && r[i] == t[j];
                    assert(s[j] == t[j]);
                }
            } else {
                assert(insert_by_line(s, d)[i] == s[s.len() - 1]);
            }
        }
    }
}

proof fn lemma_sort_sorted(s: Seq<Diagnostic>)
    ensures
        sorted_by_line(sort_by_line(s)),
        sort_by_line(s).len() == s.len(),
        forall|i: int|
            0 <= i < sort_by_line(s).len() ==> exists|j: int|
                0 <= j < s.len() && #[trigger] sort_by_line(s)[i] == s[j],
    decreases s.len(),
{
    if s.len() > 0 {
        let t = s.drop_last();
        lemma_sort_sorted(t);
        lemma_insert_sorted(sort_by_line(t), s.last());
        let r = sort_by_line(s);
        assert forall|i: int| 0 <= i < r.len() implies exists|j: int|
            0 <= j < s.len() && #[trigger] r[i] == s[j] by {
            if r[i] == s.last() {
                assert(r[i] == s[s.len() - 1]);
            } else {
                let j = choose|j: int| 0 <= j < sort_by_line(t).len() && r[i] == sort_by_line(t)[j];
                let q = choose|q: int| 0 <= q < t.len() && sort_by_line(t)[j] == t[q];
                assert(s[q] == t[q]);
            }
        }
    }
}

proof fn lemma_read_located(ls: Seq<Seq<char>>, i: int, src: Seq<Seq<char>>, remap: bool, errors: Seq<Diagnostic>)
    requires
        all_located(errors),
    ensures
        all_located(read_from(ls, i, src, remap, errors)),
    decreases ls.len() - i,
{
    if 0 <= i < ls.len() {
        let line = trim_end(ls[i]);
        let s = line_step(ls, i, src, remap, errors);
        assert(all_located(s.0));
        if i < s.1 <= ls.len() {
            lemma_read_located(ls, s.1, src, remap, s.0);
        }
    }
}

proof fn lemma_without_conflicts(es: Seq<Diagnostic>)
    ensures
        forall|i: int|
            0 <= i < without_symbol_conflicts(es).len() ==> exists|j: int|
                0 <= j < es.len() && #[trigger] without_symbol_conflicts(es)[i] == es[j],
    decreases es.len(),
{
    if es.len() > 0 {
        let t = es.drop_last();
        lemma_without_conflicts(t);
        let r = without_symbol_conflicts(es);
        assert forall|i: int| 0 <= i < r.len() implies exists|j: int|
            0 <= j < es.len() && #[trigger] r[i] == es[j] by {
            if i < without_symbol_conflicts(t).len() {
                let j = choose|j: int| 0 <= j < t.len() && without_symbol_conflicts(t)[i] == t[j];
                assert(es[j] == t[j]);
            } else {
                assert(r[i] == es[es.len() - 1]);
            }
        }
    }
}

/// The errors read from a compiler log come in order of line, and every one
/// points at a line of the manuscript (line 1 or later).
pub proof fn law_compiler_errors_sorted_and_located(output: Seq<char>, source: Seq<char>, remap: bool)
    ensures
        sorted_by_line(compiler_errors(output, source, remap)),
        all_located(compiler_errors(output, source, remap)),
{
    let read = read_from(lines(output), 0, lines(source), remap, seq![]);
    lemma_read_located(lines(output), 0, lines(source), remap, seq![]);
    lemma_sort_sorted(read);
    let es = sort_by_line(read);
    assert(all_located(es)) by {
        assert forall|i: int| 0 <= i < es.len() implies #[trigger] es[i].line >= 1 by {
            let j = choose|j: int| 0 <= j < read.len() && es[i] == read[j];
        }
    }
    let found = reported_symbols(es, 0);
    if found.len() >= 2 {
        let list = join_comma(found);
        let msg = CONFLICT_BEFORE@ + list + CONFLICT_AFTER@;
        let kept = without_symbol_conflicts(es);
        lemma_without_conflicts(es);
        let pushed = kept.push(
            Diagnostic {
                line: 1,
                message: msg,
                context: PACKAGE_CONFLICT_CONTEXT@,
                suggestion: suggestion(msg, list),
            },
        );
        assert(all_located(pushed)) by {
            assert forall|i: int| 0 <= i < pushed.len() implies #[trigger] pushed[i].line >= 1 by {
                if i < kept.len() {
                    let j = choose|j: int| 0 <= j < es.len() && kept[i] == es[j];
                }
            }
        }
        lemma_sort_sorted(pushed);
        let r = sort_by_line(pushed);
        assert forall|i: int| 0 <= i < r.len() implies #[trigger] r[i].line >= 1 by {
            let j = choose|j: int| 0 <= j < pushed.len() && r[i] == pushed[j];
        }
    }
}

/// No two errors name the same line with the same message.
pub open spec fn distinct_reports(s: Seq<Diagnostic>) -> bool {
    forall|i: int, j: int|
        0 <= i < j < s.len() ==> !(#[trigger] s[i].line == #[trigger] s[j].line && s[i].message == s[j].message)
}

/// `d` repeats the line and message of some error of `s`.
pub open spec fn repeats(s: Seq<Diagnostic>, d: Diagnostic) -> bool {
    exists|j: int| 0 <= j < s.len() && s[j].line == d.line && s[j].message == d.message
}

proof fn lemma_record_distinct(
    src: Seq<Seq<char>>,
    remap: bool,
    line: Seq<char>,
    msg: Seq<char>,
    num: nat,
    ctx: Seq<char>,
    errors: Seq<Diagnostic>,
)
    requires
        distinct_reports(errors),
    ensures
        distinct_reports(record(src, remap, line, msg, num, ctx, errors)),
{
    let r = record(src, remap, line, msg, num, ctx, errors);
    if r.len() == errors.len() + 1 && errors.len() > 0 {
        assert forall|i: int, j: int| 0 <= i < j < r.len() implies !(#[trigger] r[i].line == #[trigger] r[j].line
            && r[i].message == r[j].message) by {
            if j == errors.len() {
                assert(r[i] == errors[i]);
            } else {
                assert(r[i] == errors[i] && r[j] == errors[j]);
            }
        }
    }
}

proof fn lemma_read_distinct(ls: Seq<Seq<char>>, i: int, src: Seq<Seq<char>>, remap: bool, errors: Seq<Diagnostic>)
    requires
        distinct_reports(errors),
    ensures
        distinct_reports(read_from(ls, i, src, remap, errors)),
    decreases ls.len() - i,
{
    if 0 <= i < ls.len() {
        let line = trim_end(ls[i]);
        let s = line_step(ls, i, src, remap, errors);
        assert(distinct_reports(s.0)) by {
            match file_line_parts(line) {
                Some((p, ds, de, ms)) => {
                    let file = trim(line.subrange(0, p));
                    let dependency = ends_with(file, ".sty"@) || ends_with(file, ".cls"@);
                    let num = number_or_zero(line.subrange(ds, de));
                    let m1 = continue_message(ls, i + 1, i + 9, trim(line.subrange(ms, line.len() as int)));
                    let msg = if bare_message(m1) {
                        match first_detail(ls, i + 1, i + 9) {
                            Some(n) => n,
                            None => NO_DETAIL@,
                        }
                    } else {
                        m1
                    };
                    let ctx0 = if dependency {
                        DEPENDENCY_PREFIX@ + file + DEPENDENCY_SUFFIX@
                    } else if remap {
                        seq![]
                    } else {
                        context_line(src, num)
                    };
                    let ctx = if remap && !dependency {
                        match first_tex_context(ls, i + 1, i + 13) {
                            Some(c) => c,
                            None => ctx0,
                        }
                    } else {
                        ctx0
                    };
                    lemma_record_distinct(src, remap, line, msg, num, ctx, errors);
                },
                None => if starts_with(line, "! "@) {
                    let b = bang_scan(ls, i, i + 1);
                    lemma_record_distinct(src, remap, line, trim(line.subrange(2, line.len() as int)), b.0, b.1, errors);
                } else {
                    match location_parts(line) {
                        Some((ds, de, ms)) => {
                            let num = number_or_zero(line.subrange(ds, de));
                            let m = trim(line.subrange(ms, line.len() as int));
                            let msg = if m.len() == 0 {
                                trim(line)
                            } else {
                                m
                            };
                            lemma_record_distinct(src, remap, line, msg, num, context_line(src, num), errors);
                        },
                        None => {
                            lemma_record_distinct(src, remap, line, seq![], 0, seq![], errors);
                        },
                    }
                },
            }
        }
        if i < s.1 <= ls.len() {
            lemma_read_distinct(ls, s.1, src, remap, s.0);
        }
    }
}

proof fn lemma_insert_distinct(s: Seq<Diagnostic>, d: Diagnostic)
    requires
        sorted_by_line(s),
        distinct_reports(s),
        !repeats(s, d),
    ensures
        distinct_reports(insert_by_line(s, d)),
    decreases s.len(),
{
    if s.len() == 0 || s.last().line <= d.line {
        let r = s.push(d);
        assert forall|i: int, j: int| 0 <= i < j < r.len() implies !(#[trigger] r[i].line == #[trigger] r[j].line
            && r[i].message == r[j].message) by {
            if j == s.len() {
                assert(r[i] == s[i]);
            } else {
                assert(r[i] == s[i] && r[j] == s[j]);
            }
        }
    } else {
        let t = s.drop_last();
        assert(sorted_by_line(t));
        assert(distinct_reports(t));
        assert(!repeats(t, d)) by {
            if repeats(t, d) {
                let j = choose|j: int| 0 <= j < t.len() && t[j].line == d.line && t[j].message == d.message;
                assert(s[j] == t[j]);
            }
        }
        lemma_insert_distinct(t, d);
        lemma_insert_sorted(t, d);
        let q = insert_by_line(t, d);
        let r = q.push(s.last());
        assert forall|i: int, j: int| 0 <= i < j < r.len() implies !(#[trigger] r[i].line == #[trigger] r[j].line
            && r[i].message == r[j].message) by {
            if j == q.len() {
                assert(r[i] == q[i]);
                assert(r[j] == s.last());
                if q[i] != d {
                    let k = choose|k: int| 0 <= k < t.len() && q[i] == t[k];
                    assert(s[k] == t[k]);
                    assert(k < s.len() - 1);
                }
            } else {
                assert(r[i] == q[i] && r[j] == q[j]);
            }
        }
    }
}

proof fn lemma_sort_distinct(s: Seq<Diagnostic>)
    requires
        distinct_reports(s),
    ensures
        distinct_reports(sort_by_line(s)),
    decreases s.len(),
{
    if s.len() > 0 {
        let t = s.drop_last();
        assert(distinct_reports(t));
        lemma_sort_distinct(t);
        lemma_sort_sorted(t);
        let st = sort_by_line(t);
        assert(!repeats(st, s.last())) by {
            if repeats(st, s.last()) {
                let j = choose|j: int| 0 <= j < st.len() && st[j].line == s.last().line && st[j].message
                    == s.last().message;
                let k = choose|k: int| 0 <= k < t.len() && st[j] == t[k];
                assert(s[k] == t[k]);
                assert(k < s.len() - 1);
            }
        }
        lemma_insert_distinct(st, s.last());
    }
}

proof fn lemma_without_distinct(es: Seq<Diagnostic>)
    requires
        distinct_reports(es),
    ensures
        distinct_reports(without_symbol_conflicts(es)),
    decreases es.len(),
{
    if es.len() > 0 {
        let t = es.drop_last();
        assert(distinct_reports(t));
        lemma_without_distinct(t);
        lemma_without_conflicts(t);
        let w = without_symbol_conflicts(t);
        if !is_symbol_conflict(es.last()) {
            let r = w.push(es.last());
            assert forall|i: int, j: int| 0 <= i < j < r.len() implies !(#[trigger] r[i].line == #[trigger] r[j].line
                && r[i].message == r[j].message) by {
                if j == w.len() {
                    assert(r[i] == w[i]);
                    let k = choose|k: int| 0 <= k < t.len() && w[i] == t[k];
                    assert(es[k] == t[k]);
                    assert(k < es.len() - 1);
                } else {
                    assert(r[i] == w[i] && r[j] == w[j]);
                }
            }
        }
    }
}

/// Consolidating symbol conflicts would add an entry that repeats the line
/// and message of an error already read.
pub open spec fn conflict_entry_repeats(es: Seq<Diagnostic>) -> bool {
    let found = reported_symbols(es, 0);
    found.len() >= 2 && exists|k: int|
        0 <= k < without_symbol_conflicts(es).len() && #[trigger] without_symbol_conflicts(es)[k].line == 1
            && without_symbol_conflicts(es)[k].message == CONFLICT_BEFORE@ + join_comma(found) + CONFLICT_AFTER@
}

/// No two errors read from a log name the same line with the same message,
/// as long as the consolidated package-conflict entry repeats no error kept
/// beside it (which `consolidate` shows, from what the lowercase mapping
/// does to ASCII text).
proof fn lemma_reports_distinct_unless_entry_repeats(output: Seq<char>, source: Seq<char>, remap: bool)
    requires
        !conflict_entry_repeats(sort_by_line(read_from(lines(output), 0, lines(source), remap, seq![]))),
    ensures
        distinct_reports(compiler_errors(output, source, remap)),
{
    let read = read_from(lines(output), 0, lines(source), remap, seq![]);
    lemma_read_distinct(lines(output), 0, lines(source), remap, seq![]);
    lemma_sort_distinct(read);
    let es = sort_by_line(read);
    let found = reported_symbols(es, 0);
    if found.len() >= 2 {
        let list = join_comma(found);
        let msg = CONFLICT_BEFORE@ + list + CONFLICT_AFTER@;
        let kept = without_symbol_conflicts(es);
        lemma_without_distinct(es);
        let entry = Diagnostic {
            line: 1,
            message: msg,
            context: PACKAGE_CONFLICT_CONTEXT@,
            suggestion: suggestion(msg, list),
        };
        let pushed = kept.push(entry);
        assert(distinct_reports(pushed)) by {
            assert forall|i: int, j: int| 0 <= i < j < pushed.len() implies !(#[trigger] pushed[i].line
                == #[trigger] pushed[j].line && pushed[i].message == pushed[j].message) by {
                if j == kept.len() {
                    assert(pushed[i] == kept[i]);
                } else {
                    assert(pushed[i] == kept[i] && pushed[j] == kept[j]);
                }
            }
        }
        lemma_sort_distinct(pushed);
    }
}

/// The file named by a `FILE:LINE: message` log line, trimmed.
pub open spec fn log_line_file(l: Seq<char>) -> Option<Seq<char>> {
    match file_line_parts(l) {
        Some((p, _, _, _)) => Some(trim(l.subrange(0, p))),
        None => None,
    }
}

/// The line number given by a `FILE:LINE: message` log line (0 where there
/// is none).
pub open spec fn log_line_number(l: Seq<char>) -> nat {
    match file_line_parts(l) {
        Some((_, ds, de, _)) => number_or_zero(l.subrange(ds, de)),
        None => 0,
    }
}

/// An error that a log reports in a package (`.sty`) or class (`.cls`)
/// file is no error of a manuscript line: it is put at line 1, with a
/// context that names the file, whatever line of the file the log gives.
/// Such a log line adds at most that one error, and adds it where no error
/// at line 1 was read before and the log gives a line number.
pub proof fn law_dependency_errors_at_line_one(
    ls: Seq<Seq<char>>,
    i: int,
    src: Seq<Seq<char>>,
    remap: bool,
    errors: Seq<Diagnostic>,
    file: Seq<char>,
)
    requires
        0 <= i < ls.len(),
        log_line_file(trim_end(ls[i])) == Some(file),
        ends_with(file, ".sty"@) || ends_with(file, ".cls"@),
        !starts_with(trim_end(ls[i]), "! Emergency stop"@),
    ensures
        line_step(ls, i, src, remap, errors).1 == i + 1,
        line_step(ls, i, src, remap, errors).0.len() <= errors.len() + 1,
        line_step(ls, i, src, remap, errors).0.subrange(0, errors.len() as int) == errors,
        line_step(ls, i, src, remap, errors).0.len() == errors.len() + 1 ==> line_step(
            ls,
            i,
            src,
            remap,
            errors,
        ).0.last().line == 1 && line_step(ls, i, src, remap, errors).0.last().context
            == DEPENDENCY_PREFIX@ + file + DEPENDENCY_SUFFIX@,
        log_line_number(trim_end(ls[i])) > 0 && (forall|k: int| 0 <= k < errors.len() ==> errors[k].line != 1)
            ==> line_step(ls, i, src, remap, errors).0.len() == errors.len() + 1,
{
    reveal_strlit("LaTeX dependency file: ");
    reveal_strlit("LaTeX dependency file:");
    let ctx = DEPENDENCY_PREFIX@ + file + DEPENDENCY_SUFFIX@;
    assert(ctx.subrange(0, 22) =~= "LaTeX dependency file:"@);
    assert(starts_with(ctx, "LaTeX dependency file:"@));
    reveal_strlit("LaTeX reported an error without additional detail.");
    let line = trim_end(ls[i]);
    if let Some((p, ds, de, ms)) = file_line_parts(line) {
        let m1 = continue_message(ls, i + 1, i + 9, trim(line.subrange(ms, line.len() as int)));
        if bare_message(m1) {
            if let Some(n) = first_detail(ls, i + 1, i + 9) {
                lemma_first_detail_nonempty(ls, i + 1, i + 9);
            }
        }
    }
    let r = line_step(ls, i, src, remap, errors).0;
    if r.len() == errors.len() + 1 {
        assert(r.subrange(0, errors.len() as int) =~= errors);
    } else {
        assert(r.subrange(0, errors.len() as int) =~= errors);
    }
}

proof fn lemma_first_detail_nonempty(ls: Seq<Seq<char>>, k: int, stop: int)
    ensures
        first_detail(ls, k, stop) matches Some(n) ==> n.len() > 0,
    decreases stop - k,
{
    if 0 <= k < stop && k < ls.len() && !is_detail_line(trim(ls[k])) {
        lemma_first_detail_nonempty(ls, k + 1, stop);
    }
}

} // verus!
