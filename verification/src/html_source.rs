//! The source given to Pandoc for an HTML page: bra-ket notation written
//! with delimiters, citations moved out of displayed equations, and
//! equation environments written as display brackets.
use vstd::prelude::*;
use crate::mathfix::{append, append_range, star_brace, star_brace_exec};
use crate::numbering::{lemma_skip_ws, skip_ws, skip_ws_exec};
use crate::spelling::{lemma_run_until, run_until, run_until_exec};
use crate::text::{chars_of, find_from, find_from_exec, has_at, has_at_exec, is_white, is_ws, lemma_find_from, string_of};
use crate::unicode_math::{rewrite_braced, rewrite_braced_exec};

verus! {

// ---------------------------------------------------------------------------
// Bra-ket notation.
// ---------------------------------------------------------------------------

/// `\braket{A}{B}` at `i`: the bounds of both groups.
pub open spec fn braket_at(s: Seq<char>, i: int) -> Option<(int, int, int, int)> {
    if has_at(s, i, "\\braket{"@) {
        let a = i + "\\braket{"@.len();
        let e = run_until(s, a, '}');
        if e > a && e < s.len() && e + 1 < s.len() && s[e + 1] == '{' {
            let b = e + 2;
            let f = run_until(s, b, '}');
            if f > b && f < s.len() {
                Some((a, e, b, f))
            } else {
                None
            }
        } else {
            None
        }
    } else {
        None
    }
}

pub open spec fn braket_rewritten_from(s: Seq<char>, i: int) -> Seq<char>
    decreases s.len() - i,
{
    if i < 0 || i >= s.len() {
        seq![]
    } else {
        match braket_at(s, i) {
            Some((a, e, b, f)) => if i < f + 1 <= s.len() {
                "\\left\\langle "@ + s.subrange(a, e) + "\\middle| "@ + s.subrange(b, f) + "\\right\\rangle"@
                    + braket_rewritten_from(s, f + 1)
            } else {
                seq![s[i]] + braket_rewritten_from(s, i + 1)
            },
            None => seq![s[i]] + braket_rewritten_from(s, i + 1),
        }
    }
}

/// `\ket{A}`, `\bra{A}` and `\braket{A}{B}` written with `\left`/`\right`
/// delimiters.
pub open spec fn braket_written(s: Seq<char>) -> Seq<char> {
    let t1 = rewrite_braced(s, "\\ket{"@, "\\left| "@, "\\right\\rangle"@);
    let t2 = rewrite_braced(t1, "\\bra{"@, "\\left\\langle "@, "\\right|"@);
    braket_rewritten_from(t2, 0)
}

// ---------------------------------------------------------------------------
// Citations inside displayed equations.
//
// A display `OPEN BODY1 [SEP] \text{ ~ \cite{KEY} } BODY2 CLOSE`, where SEP
// is `\quad`, `\qquad`, `,`, `~` or `;` with white space after it, or white
// space alone, is written `OPEN BODY1 BODY2 CLOSE~\cite{KEY}`.  BODY1 is as
// short as possible, and so is BODY2.
// ---------------------------------------------------------------------------

/// Where the optional separator at `p` ends.
pub open spec fn separator_end(s: Seq<char>, p: int) -> int {
    if has_at(s, p, "\\quad"@) {
        skip_ws(s, p + "\\quad"@.len())
    } else if has_at(s, p, "\\qquad"@) {
        skip_ws(s, p + "\\qquad"@.len())
    } else if 0 <= p < s.len() && (s[p] == ',' || s[p] == '~' || s[p] == ';') {
        skip_ws(s, p + 1)
    } else {
        skip_ws(s, p)
    }
}

/// `\text{ ~ \cite{KEY} }` at `t`: the bounds of KEY and the end.
pub open spec fn cite_text_at(s: Seq<char>, t: int) -> Option<(int, int, int)> {
    if has_at(s, t, "\\text{"@) {
        let w1 = skip_ws(s, t + "\\text{"@.len());
        let w2 = if 0 <= w1 < s.len() && s[w1] == '~' {
            w1 + 1
        } else {
            w1
        };
        let w3 = skip_ws(s, w2);
        if has_at(s, w3, "\\cite{"@) {
            let a = w3 + "\\cite{"@.len();
            let b = run_until(s, a, '}');
            if b > a && b < s.len() {
                let w4 = skip_ws(s, b + 1);
                if 0 <= w4 < s.len() && s[w4] == '}' {
                    Some((a, b, w4 + 1))
                } else {
                    None
                }
            } else {
                None
            }
        } else {
            None
        }
    } else {
        None
    }
}

/// The first split of a display body from `p` on: where BODY1 ends, the
/// bounds of KEY, where the citation ends and where CLOSE starts.
pub open spec fn cite_split_from(s: Seq<char>, p: int, close: Seq<char>) -> Option<(int, int, int, int, int)>
    decreases s.len() - p,
{
    if p < 0 || p >= s.len() {
        None
    } else {
        match cite_text_at(s, separator_end(s, p)) {
            Some((a, b, e)) => match find_from(s, close, e) {
                Some(q) => Some((p, a, b, e, q)),
                None => cite_split_from(s, p + 1, close),
            },
            None => cite_split_from(s, p + 1, close),
        }
    }
}

/// The display at `i` with its citation moved after it: where the display
/// ends and what replaces it.  With `nl`, line breaks frame the body.
pub open spec fn cite_move_at(s: Seq<char>, i: int, open: Seq<char>, close: Seq<char>, nl: bool) -> Option<
    (int, Seq<char>),
> {
    if has_at(s, i, open) {
        match cite_split_from(s, i + open.len(), close) {
            Some((p, a, b, e, q)) => {
                let brk: Seq<char> = if nl {
                    seq!['\n']
                } else {
                    seq![]
                };
                Some(
                    (
                        q + close.len(),
                        open + brk + s.subrange(i + open.len(), p) + s.subrange(e, q) + brk + close
                            + "~\\cite{"@ + s.subrange(a, b) + "}"@,
                    ),
                )
            },
            None => None,
        }
    } else {
        None
    }
}

pub open spec fn cite_moved_from(s: Seq<char>, i: int, open: Seq<char>, close: Seq<char>, nl: bool) -> Seq<char>
    decreases s.len() - i,
{
    if i < 0 || i >= s.len() {
        seq![]
    } else {
        match cite_move_at(s, i, open, close, nl) {
            Some((e, rep)) => if i < e <= s.len() {
                rep + cite_moved_from(s, e, open, close, nl)
            } else {
                seq![s[i]] + cite_moved_from(s, i + 1, open, close, nl)
            },
            None => seq![s[i]] + cite_moved_from(s, i + 1, open, close, nl),
        }
    }
}

pub open spec fn env_cites_moved(s: Seq<char>, env: Seq<char>) -> Seq<char> {
    cite_moved_from(s, 0, "\\begin{"@ + env + "}"@, "\\end{"@ + env + "}"@, false)
}

/// Citations moved out of every numbered or starred `equation`, `align`
/// and `gather`, then out of `$$` displays.
pub open spec fn cites_moved(s: Seq<char>) -> Seq<char> {
    let t1 = env_cites_moved(s, "equation"@);
    let t2 = env_cites_moved(t1, "equation*"@);
    let t3 = env_cites_moved(t2, "align"@);
    let t4 = env_cites_moved(t3, "align*"@);
    let t5 = env_cites_moved(t4, "gather"@);
    let t6 = env_cites_moved(t5, "gather*"@);
    cite_moved_from(t6, 0, "$$"@, "$$"@, true)
}

// ---------------------------------------------------------------------------
// Display brackets.
// ---------------------------------------------------------------------------

/// `open` (such as `\begin{equation`) with an optional star and `}` at `i`:
/// where it ends.
pub open spec fn marker_at(s: Seq<char>, i: int, open: Seq<char>) -> Option<int> {
    if has_at(s, i, open) {
        match star_brace(s, i + open.len()) {
            Some((_, e)) => Some(e),
            None => None,
        }
    } else {
        None
    }
}

pub open spec fn markers_replaced_from(s: Seq<char>, i: int, open: Seq<char>, rep: Seq<char>) -> Seq<char>
    decreases s.len() - i,
{
    if i < 0 || i >= s.len() {
        seq![]
    } else {
        match marker_at(s, i, open) {
            Some(e) => if i < e <= s.len() {
                rep + markers_replaced_from(s, e, open, rep)
            } else {
                seq![s[i]] + markers_replaced_from(s, i + 1, open, rep)
            },
            None => seq![s[i]] + markers_replaced_from(s, i + 1, open, rep),
        }
    }
}

pub open spec fn markers_replaced(s: Seq<char>, open: Seq<char>, rep: Seq<char>) -> Seq<char> {
    markers_replaced_from(s, 0, open, rep)
}

/// `equation` as `\[ \]`, `align` as `aligned` and `gather` as `gathered`
/// inside `\[ \]`, starred or not.
pub open spec fn displays_bracketed(s: Seq<char>) -> Seq<char> {
    let t1 = markers_replaced(s, "\\begin{equation"@, "\\["@);
    let t2 = markers_replaced(t1, "\\end{equation"@, "\\]"@);
    let t3 = markers_replaced(t2, "\\begin{align"@, "\\[ \\begin{aligned}"@);
    let t4 = markers_replaced(t3, "\\end{align"@, "\\end{aligned} \\]"@);
    let t5 = markers_replaced(t4, "\\begin{gather"@, "\\[ \\begin{gathered}"@);
    markers_replaced(t5, "\\end{gather"@, "\\end{gathered} \\]"@)
}

/// The source of an HTML page.
pub open spec fn html_source(s: Seq<char>) -> Seq<char> {
    displays_bracketed(cites_moved(braket_written(s)))
}

// ---------------------------------------------------------------------------
// The executable side.
// ---------------------------------------------------------------------------

fn braket_at_exec(s: &Vec<char>, i: usize, open: &Vec<char>) -> (r: Option<(usize, usize, usize, usize)>)
    requires
        open@ == "\\braket{"@,
    ensures
        match r {
            Some((a, e, b, f)) => braket_at(s@, i as int) == Some((a as int, e as int, b as int, f as int))
                && i < a <= e < b <= f < s.len(),
            None => braket_at(s@, i as int) is None,
        },
{
    proof {
        reveal_strlit("\\braket{");
    }
    if has_at_exec(s, i, open) {
        assert(i + open@.len() <= s.len());
        let a = i + open.len();
        proof {
            lemma_run_until(s@, a as int, '}');
        }
        let e = run_until_exec(s, a, '}');
        if e > a && e < s.len() && e + 1 < s.len() && s[e + 1] == '{' {
            let b = e + 2;
            proof {
                lemma_run_until(s@, b as int, '}');
            }
            let f = run_until_exec(s, b, '}');
            if f > b && f < s.len() {
                return Some((a, e, b, f));
            }
        }
    }
    None
}

fn braket_pass(s: &Vec<char>) -> (r: Vec<char>)
    ensures
        r@ == braket_rewritten_from(s@, 0),
{
    let open = chars_of("\\braket{");
    let lang = chars_of("\\left\\langle ");
    let mid = chars_of("\\middle| ");
    let rang = chars_of("\\right\\rangle");
    let mut out: Vec<char> = Vec::new();
    let mut i: usize = 0;
    while i < s.len()
        invariant
            i <= s.len(),
            open@ == "\\braket{"@,
            lang@ == "\\left\\langle "@,
            mid@ == "\\middle| "@,
            rang@ == "\\right\\rangle"@,
            out@ + braket_rewritten_from(s@, i as int) == braket_rewritten_from(s@, 0),
        decreases s.len() - i,
    {
        let ghost prev = out@;
        match braket_at_exec(s, i, &open) {
            Some((a, e, b, f)) => {
                append(&mut out, &lang);
                append_range(&mut out, s, a, e);
                append(&mut out, &mid);
                append_range(&mut out, s, b, f);
                append(&mut out, &rang);
                assert(out@ + braket_rewritten_from(s@, f + 1) =~= prev + ("\\left\\langle "@ + s@.subrange(
                    a as int,
                    e as int,
                ) + "\\middle| "@ + s@.subrange(b as int, f as int) + "\\right\\rangle"@ + braket_rewritten_from(
                    s@,
                    f + 1,
                )));
                i = f + 1;
            },
            None => {
                out.push(s[i]);
                assert(out@ + braket_rewritten_from(s@, i + 1) =~= prev + (seq![s@[i as int]]
                    + braket_rewritten_from(s@, i + 1)));
                i = i + 1;
            },
        }
    }
    assert(out@ + braket_rewritten_from(s@, i as int) =~= out@);
    out
}

/// The literals a citation is read by.
struct CiteWords {
    quad: Vec<char>,
    qquad: Vec<char>,
    text: Vec<char>,
    cite: Vec<char>,
}

impl CiteWords {
    spec fn wf(&self) -> bool {
        &&& self.quad@ == "\\quad"@
        &&& self.qquad@ == "\\qquad"@
        &&& self.text@ == "\\text{"@
        &&& self.cite@ == "\\cite{"@
    }

    fn new() -> (r: CiteWords)
        ensures
            r.wf(),
    {
        CiteWords {
            quad: chars_of("\\quad"),
            qquad: chars_of("\\qquad"),
            text: chars_of("\\text{"),
            cite: chars_of("\\cite{"),
        }
    }
}

fn separator_end_exec(s: &Vec<char>, p: usize, w: &CiteWords) -> (r: usize)
    requires
        w.wf(),
        p <= s.len(),
    ensures
        r as int == separator_end(s@, p as int),
        p <= r <= s.len(),
{
    if has_at_exec(s, p, &w.quad) {
        assert(p + w.quad@.len() <= s.len());
        proof {
            lemma_skip_ws(s@, p + w.quad@.len());
        }
        skip_ws_exec(s, p + w.quad.len())
    } else if has_at_exec(s, p, &w.qquad) {
        assert(p + w.qquad@.len() <= s.len());
        proof {
            lemma_skip_ws(s@, p + w.qquad@.len());
        }
        skip_ws_exec(s, p + w.qquad.len())
    } else if p < s.len() && (s[p] == ',' || s[p] == '~' || s[p] == ';') {
        proof {
            lemma_skip_ws(s@, p + 1);
        }
        skip_ws_exec(s, p + 1)
    } else {
        proof {
            lemma_skip_ws(s@, p as int);
        }
        skip_ws_exec(s, p)
    }
}

fn cite_text_exec(s: &Vec<char>, t: usize, w: &CiteWords) -> (r: Option<(usize, usize, usize)>)
    requires
        w.wf(),
    ensures
        match r {
            Some((a, b, e)) => cite_text_at(s@, t as int) == Some((a as int, b as int, e as int)) && t < a
                < b < e <= s.len(),
            None => cite_text_at(s@, t as int) is None,
        },
{
    proof {
        reveal_strlit("\\text{");
        reveal_strlit("\\cite{");
    }
    if !has_at_exec(s, t, &w.text) {
        return None;
    }
    assert(t + w.text@.len() <= s.len());
    proof {
        lemma_skip_ws(s@, t + w.text@.len());
    }
    let w1 = skip_ws_exec(s, t + w.text.len());
    let w2 = if w1 < s.len() && s[w1] == '~' {
        w1 + 1
    } else {
        w1
    };
    proof {
        lemma_skip_ws(s@, w2 as int);
    }
    let w3 = skip_ws_exec(s, w2);
    if !has_at_exec(s, w3, &w.cite) {
        return None;
    }
    assert(w3 + w.cite@.len() <= s.len());
    let a = w3 + w.cite.len();
    proof {
        lemma_run_until(s@, a as int, '}');
    }
    let b = run_until_exec(s, a, '}');
    if !(b > a && b < s.len()) {
        return None;
    }
    proof {
        lemma_skip_ws(s@, b + 1);
    }
    let w4 = skip_ws_exec(s, b + 1);
    if w4 < s.len() && s[w4] == '}' {
        Some((a, b, w4 + 1))
    } else {
        None
    }
}

fn cite_split_exec(s: &Vec<char>, from: usize, close: &Vec<char>, w: &CiteWords) -> (r: Option<
    (usize, usize, usize, usize, usize),
>)
    requires
        w.wf(),
        from <= s.len(),
    ensures
        match r {
            Some((p, a, b, e, q)) => cite_split_from(s@, from as int, close@) == Some(
                (p as int, a as int, b as int, e as int, q as int),
            ) && from <= p < a < b < e <= q && q + close@.len() <= s.len(),
            None => cite_split_from(s@, from as int, close@) is None,
        },
{
    let mut p = from;
    while p < s.len()
        invariant
            w.wf(),
            from <= p <= s.len(),
            cite_split_from(s@, from as int, close@) == cite_split_from(s@, p as int, close@),
        decreases s.len() - p,
    {
        let t = separator_end_exec(s, p, w);
        match cite_text_exec(s, t, w) {
            Some((a, b, e)) => {
                proof {
                    lemma_find_from(s@, close@, e as int);
                }
                match find_from_exec(s, close, e) {
                    Some(q) => {
                        assert(has_at(s@, q as int, close@));
                        return Some((p, a, b, e, q));
                    },
                    None => {},
                }
            },
            None => {},
        }
        p = p + 1;
    }
    None
}

fn cite_move_pass(s: &Vec<char>, open: &Vec<char>, close: &Vec<char>, nl: bool) -> (r: Vec<char>)
    ensures
        r@ == cite_moved_from(s@, 0, open@, close@, nl),
{
    let w = CiteWords::new();
    let cite_open = chars_of("~\\cite{");
    let mut out: Vec<char> = Vec::new();
    let mut i: usize = 0;
    while i < s.len()
        invariant
            w.wf(),
            i <= s.len(),
            cite_open@ == "~\\cite{"@,
            out@ + cite_moved_from(s@, i as int, open@, close@, nl) == cite_moved_from(s@, 0, open@, close@, nl),
        decreases s.len() - i,
    {
        let ghost prev = out@;
        let mut moved = false;
        if has_at_exec(s, i, open) {
            assert(i + open@.len() <= s.len());
            match cite_split_exec(s, i + open.len(), close, &w) {
                Some((p, a, b, e, q)) => {
                    let ghost brk: Seq<char> = if nl {
                        seq!['\n']
                    } else {
                        seq![]
                    };
                    append(&mut out, open);
                    if nl {
                        out.push('\n');
                    }
                    append_range(&mut out, s, i + open.len(), p);
                    append_range(&mut out, s, e, q);
                    if nl {
                        out.push('\n');
                    }
                    append(&mut out, close);
                    append(&mut out, &cite_open);
                    append_range(&mut out, s, a, b);
                    out.push('}');
                    proof {
                        reveal_strlit("}");
                    }
                    let ghost rep = open@ + brk + s@.subrange(i + open@.len(), p as int) + s@.subrange(
                        e as int,
                        q as int,
                    ) + brk + close@ + "~\\cite{"@ + s@.subrange(a as int, b as int) + "}"@;
                    assert(out@ =~= prev + rep);
                    assert(cite_move_at(s@, i as int, open@, close@, nl) == Some((q + close@.len(), rep)));
                    assert(out@ + cite_moved_from(s@, q + close@.len(), open@, close@, nl) =~= prev + (rep
                        + cite_moved_from(s@, q + close@.len(), open@, close@, nl)));
                    i = q + close.len();
                    moved = true;
                },
                None => {},
            }
        }
        if !moved {
            out.push(s[i]);
            assert(out@ + cite_moved_from(s@, i + 1, open@, close@, nl) =~= prev + (seq![s@[i as int]]
                + cite_moved_from(s@, i + 1, open@, close@, nl)));
            i = i + 1;
        }
    }
    assert(out@ + cite_moved_from(s@, i as int, open@, close@, nl) =~= out@);
    out
}

fn env_cite_pass(s: &Vec<char>, env: &str) -> (r: Vec<char>)
    ensures
        r@ == env_cites_moved(s@, env@),
{
    let mut open = String::from_str("\\begin{");
    crate::text::push_str(&mut open, env);
    crate::text::push_str(&mut open, "}");
    let mut close = String::from_str("\\end{");
    crate::text::push_str(&mut close, env);
    crate::text::push_str(&mut close, "}");
    cite_move_pass(s, &chars_of(open.as_str()), &chars_of(close.as_str()), false)
}

fn markers_pass(s: &Vec<char>, open: &str, rep: &str) -> (r: Vec<char>)
    ensures
        r@ == markers_replaced(s@, open@, rep@),
{
    let o = chars_of(open);
    let rp = chars_of(rep);
    let mut out: Vec<char> = Vec::new();
    let mut i: usize = 0;
    while i < s.len()
        invariant
            i <= s.len(),
            o@ == open@,
            rp@ == rep@,
            out@ + markers_replaced_from(s@, i as int, open@, rep@) == markers_replaced(s@, open@, rep@),
        decreases s.len() - i,
    {
        let ghost prev = out@;
        let mut hit = false;
        if has_at_exec(s, i, &o) {
            assert(i + o@.len() <= s.len());
            match star_brace_exec(s, i + o.len()) {
                Some((_, e)) => {
                    append(&mut out, &rp);
                    assert(out@ + markers_replaced_from(s@, e as int, open@, rep@) =~= prev + (rep@
                        + markers_replaced_from(s@, e as int, open@, rep@)));
                    i = e;
                    hit = true;
                },
                None => {},
            }
        }
        if !hit {
            out.push(s[i]);
            assert(out@ + markers_replaced_from(s@, i + 1, open@, rep@) =~= prev + (seq![s@[i as int]]
                + markers_replaced_from(s@, i + 1, open@, rep@)));
            i = i + 1;
        }
    }
    assert(out@ + markers_replaced_from(s@, i as int, open@, rep@) =~= out@);
    out
}

/// Prepares a manuscript for an HTML page: bra-ket notation with explicit
/// delimiters, citations moved out of displayed equations, and equation
/// environments as display brackets.
pub fn prepare_html_source(content: &str) -> (r: String)
    ensures
        r@ == html_source(content@),
{
    let t = chars_of(content);
    let t = rewrite_braced_exec(&t, &chars_of("\\ket{"), &chars_of("\\left| "), &chars_of("\\right\\rangle"));
    let t = rewrite_braced_exec(&t, &chars_of("\\bra{"), &chars_of("\\left\\langle "), &chars_of("\\right|"));
    let t = braket_pass(&t);
    let t = env_cite_pass(&t, "equation");
    let t = env_cite_pass(&t, "equation*");
    let t = env_cite_pass(&t, "align");
    let t = env_cite_pass(&t, "align*");
    let t = env_cite_pass(&t, "gather");
    let t = env_cite_pass(&t, "gather*");
    let d = chars_of("$$");
    let t = cite_move_pass(&t, &d, &d, true);
    let t = markers_pass(&t, "\\begin{equation", "\\[");
    let t = markers_pass(&t, "\\end{equation", "\\]");
    let t = markers_pass(&t, "\\begin{align", "\\[ \\begin{aligned}");
    let t = markers_pass(&t, "\\end{align", "\\end{aligned} \\]");
    let t = markers_pass(&t, "\\begin{gather", "\\[ \\begin{gathered}");
    let t = markers_pass(&t, "\\end{gather", "\\end{gathered} \\]");
    string_of(&t)
}

} // verus!
