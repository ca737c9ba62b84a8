//! Clean-up of display mathematics before conversion: long prose written
//! with `\text{..}` inside an equation environment is moved after it, and
//! `$$` or `\[ \]` delimiters that wrap an environment are removed.
use vstd::prelude::*;
use crate::diagnostics::{utf8_len, utf8_len_at_least};
use crate::numbering::{lemma_skip_ws, skip_ws, skip_ws_exec};
use crate::spelling::{lemma_run_until, run_until, run_until_exec};
use crate::text::{
    chars_of, contains, contains_exec, copy_range, has_at, has_at_exec, is_white, is_ws,
    starts_with, string_of, trim, trim_range,
};

verus! {

/// The math environments, in the order in which their names are tried.
pub open spec fn math_env(k: int) -> Seq<char> {
    if k == 0 {
        "equation"@
    } else if k == 1 {
        "align"@
    } else if k == 2 {
        "gather"@
    } else if k == 3 {
        "aligned"@
    } else if k == 4 {
        "eqnarray"@
    } else {
        "multline"@
    }
}

/// An optional `*`, then `}`, at `q`: the ends of the star and of the brace.
pub open spec fn star_brace(l: Seq<char>, q: int) -> Option<(int, int)> {
    let s = if 0 <= q < l.len() && l[q] == '*' {
        q + 1
    } else {
        q
    };
    if 0 <= s < l.len() && l[s] == '}' {
        Some((s, s + 1))
    } else {
        None
    }
}

/// The first math environment name, from the `k`-th on, that stands at `p`
/// followed by an optional star and `}`: the ends of name, star and brace.
pub open spec fn env_name_from(l: Seq<char>, p: int, k: int) -> Option<(int, int, int)>
    decreases 6 - k,
{
    if k < 0 || k >= 6 {
        None
    } else if has_at(l, p, math_env(k)) && star_brace(l, p + math_env(k).len()) is Some {
        match star_brace(l, p + math_env(k).len()) {
            Some((s, e)) => Some((p + math_env(k).len(), s, e)),
            None => None,
        }
    } else {
        env_name_from(l, p, k + 1)
    }
}

/// `\begin{NAME*}` at `i`.
pub open spec fn env_begin_at(l: Seq<char>, i: int) -> Option<(int, int, int)> {
    if has_at(l, i, "\\begin{"@) {
        env_name_from(l, i + "\\begin{"@.len(), 0)
    } else {
        None
    }
}

/// `\end{NAME*}` at `j`.
pub open spec fn env_end_at(l: Seq<char>, j: int) -> Option<(int, int, int)> {
    if has_at(l, j, "\\end{"@) {
        env_name_from(l, j + "\\end{"@.len(), 0)
    } else {
        None
    }
}

/// The first `\end{NAME*}` at or after `j`: where it starts and ends.
pub open spec fn first_env_end(l: Seq<char>, j: int) -> Option<(int, int)>
    decreases l.len() - j,
{
    if j < 0 || j >= l.len() {
        None
    } else {
        match env_end_at(l, j) {
            Some((_, _, e)) => Some((j, e)),
            None => first_env_end(l, j + 1),
        }
    }
}

/// A math environment: its name and star, its body, and its end.
pub struct EnvSpan {
    pub tag: (int, int),
    pub body: (int, int),
    pub end: int,
}

/// The environment that begins at `i` and runs to the first end of a math
/// environment after its `\begin`.
pub open spec fn env_span_at(l: Seq<char>, i: int) -> Option<EnvSpan> {
    match env_begin_at(l, i) {
        Some((_, se, e)) => match first_env_end(l, e) {
            Some((j, e2)) => Some(
                EnvSpan { tag: (i + "\\begin{"@.len(), se), body: (e, j), end: e2 },
            ),
            None => None,
        },
        None => None,
    }
}

/// One separator before prose: `\quad`, `\qquad`, `,`, `;` or white space.
pub open spec fn separator_end(b: Seq<char>, i: int) -> Option<int> {
    if has_at(b, i, "\\quad"@) {
        Some(i + "\\quad"@.len())
    } else if has_at(b, i, "\\qquad"@) {
        Some(i + "\\qquad"@.len())
    } else if 0 <= i < b.len() && (b[i] == ',' || b[i] == ';' || is_ws(b[i])) {
        Some(i + 1)
    } else {
        None
    }
}

pub open spec fn skip_separators(b: Seq<char>, i: int) -> int
    decreases b.len() - i,
{
    match separator_end(b, i) {
        Some(e) => if i < e <= b.len() {
            skip_separators(b, e)
        } else {
            i
        },
        None => i,
    }
}

/// `\text{ PROSE }` at `t`: the bounds of the captured prose and the end.
/// The capture starts after the leading white space, or at the last white
/// space character where the braces hold nothing else.
pub open spec fn text_group_at(b: Seq<char>, t: int) -> Option<(int, int, int)> {
    if has_at(b, t, "\\text{"@) {
        let c = t + "\\text{"@.len();
        let w = skip_ws(b, c);
        let r = run_until(b, w, '}');
        if r >= b.len() {
            None
        } else if r > w {
            Some((w, r, r + 1))
        } else if w > c {
            Some((w - 1, r, r + 1))
        } else {
            None
        }
    } else {
        None
    }
}

/// The leftmost `\text{..}` with the separators before it, from `i`: the
/// start of the match, the prose, and the end of the match.
pub open spec fn first_prose(b: Seq<char>, i: int) -> Option<(int, int, int, int)>
    decreases b.len() - i,
{
    if i < 0 || i >= b.len() {
        None
    } else {
        match text_group_at(b, skip_separators(b, i)) {
            Some((a, z, e)) => Some((i, a, z, e)),
            None => first_prose(b, i + 1),
        }
    }
}

/// A body that nests an aligned block, an array or a matrix is left alone.
pub open spec fn nests_block(body: Seq<char>) -> bool {
    contains(body, "\\begin{aligned}"@) || contains(body, "\\begin{array}"@) || contains(
        body,
        "\\begin{matrix}"@,
    )
}

/// Prose worth moving out: not a citation, longer than 35 bytes, and with a space.
pub open spec fn is_long_prose(p: Seq<char>) -> bool {
    !starts_with(p, "\\cite"@) && !starts_with(p, "~\\cite"@) && utf8_len(p) > 35 && contains(
        p,
        " "@,
    )
}

/// The environment `m` (that begins at `i`) as it is written back.
pub open spec fn rewritten_env(l: Seq<char>, i: int, m: EnvSpan) -> Seq<char> {
    let whole = l.subrange(i, m.end);
    let body = l.subrange(m.body.0, m.body.1);
    if nests_block(body) {
        whole
    } else {
        match first_prose(body, 0) {
            Some((s, a, z, e)) => {
                let prose = trim(body.subrange(a, z));
                if is_long_prose(prose) {
                    let tag = l.subrange(m.tag.0, m.tag.1);
                    "\\begin{"@ + tag + "}"@ + body.subrange(0, s) + body.subrange(e, body.len() as int)
                        + "\\end{"@ + tag + "}"@ + "\n\n"@ + prose + "\n"@
                } else {
                    whole
                }
            },
            None => whole,
        }
    }
}

/// Every math environment from `i` on, with its long prose moved after it.
pub open spec fn moved_prose_from(l: Seq<char>, i: int) -> Seq<char>
    decreases l.len() - i,
{
    if i < 0 || i >= l.len() {
        seq![]
    } else {
        match env_span_at(l, i) {
            Some(m) => if i < m.end <= l.len() {
                rewritten_env(l, i, m) + moved_prose_from(l, m.end)
            } else {
                seq![l[i]] + moved_prose_from(l, i + 1)
            },
            None => seq![l[i]] + moved_prose_from(l, i + 1),
        }
    }
}

// ---------------------------------------------------------------------------
// Wrapped environments.
//
// Six rewrites, applied one after the other over the whole text:
//   0. `$$ \begin{NAME*}` becomes `\begin{NAME*}`;
//   1. `\end{NAME*} $$` becomes `\end{NAME*}`;
//   2. `\[ \begin{NAME*}` becomes `\begin{NAME*}`;
//   3. `\end{NAME*} \]` becomes `\end{NAME*}`;
//   4. `$$ \[` becomes `\\[`;
//   5. `\] $$` becomes `\]`.
// ---------------------------------------------------------------------------

/// A rewrite of kind `kind` at `i`: where the match ends and what replaces it.
pub open spec fn unwrap_at(l: Seq<char>, i: int, kind: int) -> Option<(int, Seq<char>)> {
    if kind == 0 || kind == 2 {
        let open = if kind == 0 {
            "$$"@
        } else {
            "\\["@
        };
        if has_at(l, i, open) {
            let w = skip_ws(l, i + 2);
            match env_begin_at(l, w) {
                Some((_, se, e)) => Some((e, "\\begin{"@ + l.subrange(w + "\\begin{"@.len(), se) + "}"@)),
                None => None,
            }
        } else {
            None
        }
    } else if kind == 1 || kind == 3 {
        let close = if kind == 1 {
            "$$"@
        } else {
            "\\]"@
        };
        match env_end_at(l, i) {
            Some((_, se, e)) => {
                let w = skip_ws(l, e);
                if has_at(l, w, close) {
                    Some((w + 2, "\\end{"@ + l.subrange(i + "\\end{"@.len(), se) + "}"@))
                } else {
                    None
                }
            },
            None => None,
        }
    } else if kind == 4 {
        if has_at(l, i, "$$"@) && has_at(l, skip_ws(l, i + 2), "\\["@) {
            Some((skip_ws(l, i + 2) + 2, "\\\\["@))
        } else {
            None
        }
    } else {
        if has_at(l, i, "\\]"@) && has_at(l, skip_ws(l, i + 2), "$$"@) {
            Some((skip_ws(l, i + 2) + 2, "\\]"@))
        } else {
            None
        }
    }
}

/// The rewrite of kind `kind` applied from `i` to the end, left to right.
pub open spec fn unwrapped_from(l: Seq<char>, i: int, kind: int) -> Seq<char>
    decreases l.len() - i,
{
    if i < 0 || i >= l.len() {
        seq![]
    } else {
        match unwrap_at(l, i, kind) {
            Some((e, rep)) => if i < e <= l.len() {
                rep + unwrapped_from(l, e, kind)
            } else {
                seq![l[i]] + unwrapped_from(l, i + 1, kind)
            },
            None => seq![l[i]] + unwrapped_from(l, i + 1, kind),
        }
    }
}

pub open spec fn unwrapped(l: Seq<char>, kind: int) -> Seq<char> {
    unwrapped_from(l, 0, kind)
}

/// The manuscript with its display mathematics cleaned up.
pub open spec fn sanitized(s: Seq<char>) -> Seq<char> {
    let t = moved_prose_from(s, 0);
    unwrapped(
        unwrapped(unwrapped(unwrapped(unwrapped(unwrapped(t, 0), 1), 2), 3), 4),
        5,
    )
}

// ---------------------------------------------------------------------------
// The executable side.
// ---------------------------------------------------------------------------

/// The literals the clean-up reads text by.
pub(crate) struct MathWords {
    pub(crate) names: Vec<Vec<char>>,
    pub(crate) begin: Vec<char>,
    pub(crate) end: Vec<char>,
    pub(crate) quad: Vec<char>,
    pub(crate) qquad: Vec<char>,
    pub(crate) text: Vec<char>,
    pub(crate) dollars: Vec<char>,
    pub(crate) open_br: Vec<char>,
    pub(crate) close_br: Vec<char>,
    pub(crate) aligned: Vec<char>,
    pub(crate) array: Vec<char>,
    pub(crate) matrix: Vec<char>,
    pub(crate) cite: Vec<char>,
    pub(crate) tilde_cite: Vec<char>,
    pub(crate) space: Vec<char>,
}

impl MathWords {
    pub(crate) open spec fn wf(&self) -> bool {
        &&& self.names@.len() == 6
        &&& forall|k: int| 0 <= k < 6 ==> #[trigger] self.names@[k]@ == math_env(k)
        &&& self.begin@ == "\\begin{"@
        &&& self.end@ == "\\end{"@
        &&& self.quad@ == "\\quad"@
        &&& self.qquad@ == "\\qquad"@
        &&& self.text@ == "\\text{"@
        &&& self.dollars@ == "$$"@
        &&& self.open_br@ == "\\["@
        &&& self.close_br@ == "\\]"@
        &&& self.aligned@ == "\\begin{aligned}"@
        &&& self.array@ == "\\begin{array}"@
        &&& self.matrix@ == "\\begin{matrix}"@
        &&& self.cite@ == "\\cite"@
        &&& self.tilde_cite@ == "~\\cite"@
        &&& self.space@ == " "@
        &&& self.dollars@.len() == 2
        &&& self.open_br@.len() == 2
        &&& self.close_br@.len() == 2
    }

    pub(crate) fn new() -> (r: MathWords)
        ensures
            r.wf(),
    {
        proof {
            reveal_strlit("$$");
            reveal_strlit("\\[");
            reveal_strlit("\\]");
        }
        let mut names: Vec<Vec<char>> = Vec::new();
        names.push(chars_of("equation"));
        names.push(chars_of("align"));
        names.push(chars_of("gather"));
        names.push(chars_of("aligned"));
        names.push(chars_of("eqnarray"));
        names.push(chars_of("multline"));
        assert forall|k: int| 0 <= k < 6 implies #[trigger] names@[k]@ == math_env(k) by {
            if k == 0 {
            } else if k == 1 {
            } else if k == 2 {
            } else if k == 3 {
            } else if k == 4 {
            } else {
            }
        }
        MathWords {
            names,
            begin: chars_of("\\begin{"),
            end: chars_of("\\end{"),
            quad: chars_of("\\quad"),
            qquad: chars_of("\\qquad"),
            text: chars_of("\\text{"),
            dollars: chars_of("$$"),
            open_br: chars_of("\\["),
            close_br: chars_of("\\]"),
            aligned: chars_of("\\begin{aligned}"),
            array: chars_of("\\begin{array}"),
            matrix: chars_of("\\begin{matrix}"),
            cite: chars_of("\\cite"),
            tilde_cite: chars_of("~\\cite"),
            space: chars_of(" "),
        }
    }
}

pub(crate) fn append(out: &mut Vec<char>, v: &Vec<char>)
    ensures
        final(out)@ == old(out)@ + v@,
{
    let mut k: usize = 0;
    while k < v.len()
        invariant
            k <= v.len(),
            out@ == old(out)@ + v@.subrange(0, k as int),
        decreases v.len() - k,
    {
        out.push(v[k]);
        assert(v@.subrange(0, k + 1) =~= v@.subrange(0, k as int).push(v@[k as int]));
        k = k + 1;
    }
    assert(v@.subrange(0, k as int) =~= v@);
}

pub(crate) fn append_range(out: &mut Vec<char>, t: &Vec<char>, a: usize, b: usize)
    requires
        a <= b <= t.len(),
    ensures
        final(out)@ == old(out)@ + t@.subrange(a as int, b as int),
{
    let mut k = a;
    while k < b
        invariant
            a <= k <= b <= t.len(),
            out@ == old(out)@ + t@.subrange(a as int, k as int),
        decreases b - k,
    {
        out.push(t[k]);
        assert(t@.subrange(a as int, k + 1) =~= t@.subrange(a as int, k as int).push(t@[k as int]));
        k = k + 1;
    }
}

pub(crate) fn star_brace_exec(l: &Vec<char>, q: usize) -> (r: Option<(usize, usize)>)
    requires
        q <= l.len(),
    ensures
        match r {
            Some((s, e)) => star_brace(l@, q as int) == Some((s as int, e as int)) && q <= s < e <= l.len(),
            None => star_brace(l@, q as int) is None,
        },
{
    let s = if q < l.len() && l[q] == '*' {
        q + 1
    } else {
        q
    };
    if s < l.len() && l[s] == '}' {
        Some((s, s + 1))
    } else {
        None
    }
}

fn env_name_exec(l: &Vec<char>, p: usize, w: &MathWords) -> (r: Option<(usize, usize, usize)>)
    requires
        w.wf(),
    ensures
        match r {
            Some((n, s, e)) => env_name_from(l@, p as int, 0) == Some((n as int, s as int, e as int))
                && p <= n <= s < e <= l.len(),
            None => env_name_from(l@, p as int, 0) is None,
        },
{
    let mut k: usize = 0;
    while k < 6
        invariant
            w.wf(),
            k <= 6,
            env_name_from(l@, p as int, 0) == env_name_from(l@, p as int, k as int),
        decreases 6 - k,
    {
        let name = &w.names[k];
        assert(name@ == math_env(k as int));
        if has_at_exec(l, p, name) {
            assert(p + name@.len() <= l.len());
            match star_brace_exec(l, p + name.len()) {
                Some((s, e)) => {
                    return Some((p + name.len(), s, e));
                },
                None => {},
            }
        }
        k = k + 1;
    }
    None
}

fn env_begin_exec(l: &Vec<char>, i: usize, w: &MathWords) -> (r: Option<(usize, usize, usize)>)
    requires
        w.wf(),
    ensures
        match r {
            Some((n, s, e)) => env_begin_at(l@, i as int) == Some((n as int, s as int, e as int))
                && i + w.begin@.len() <= n <= s < e <= l.len(),
            None => env_begin_at(l@, i as int) is None,
        },
{
    if has_at_exec(l, i, &w.begin) {
        assert(i + w.begin@.len() <= l.len());
        env_name_exec(l, i + w.begin.len(), w)
    } else {
        None
    }
}

fn env_end_exec(l: &Vec<char>, j: usize, w: &MathWords) -> (r: Option<(usize, usize, usize)>)
    requires
        w.wf(),
    ensures
        match r {
            Some((n, s, e)) => env_end_at(l@, j as int) == Some((n as int, s as int, e as int))
                && j + w.end@.len() <= n <= s < e <= l.len(),
            None => env_end_at(l@, j as int) is None,
        },
{
    if has_at_exec(l, j, &w.end) {
        assert(j + w.end@.len() <= l.len());
        env_name_exec(l, j + w.end.len(), w)
    } else {
        None
    }
}

fn first_env_end_exec(l: &Vec<char>, from: usize, w: &MathWords) -> (r: Option<(usize, usize)>)
    requires
        w.wf(),
    ensures
        match r {
            Some((j, e)) => first_env_end(l@, from as int) == Some((j as int, e as int)) && from <= j
                < e <= l.len(),
            None => first_env_end(l@, from as int) is None,
        },
{
    let mut j = from;
    while j < l.len()
        invariant
            w.wf(),
            from <= j,
            first_env_end(l@, from as int) == first_env_end(l@, j as int),
        decreases l.len() - j,
    {
        match env_end_exec(l, j, w) {
            Some((_, _, e)) => {
                return Some((j, e));
            },
            None => {},
        }
        j = j + 1;
    }
    None
}

/// Bounds of an environment.
struct EnvBounds {
    tag: (usize, usize),
    body: (usize, usize),
    end: usize,
}

spec fn env_span_of(b: EnvBounds) -> EnvSpan {
    EnvSpan {
        tag: (b.tag.0 as int, b.tag.1 as int),
        body: (b.body.0 as int, b.body.1 as int),
        end: b.end as int,
    }
}

fn env_span_exec(l: &Vec<char>, i: usize, w: &MathWords) -> (r: Option<EnvBounds>)
    requires
        w.wf(),
    ensures
        match r {
            Some(b) => env_span_at(l@, i as int) == Some(env_span_of(b)) && i < b.tag.0 <= b.tag.1
                < b.body.0 <= b.body.1 < b.end <= l.len(),
            None => env_span_at(l@, i as int) is None,
        },
{
    match env_begin_exec(l, i, w) {
        Some((_, se, e)) => match first_env_end_exec(l, e, w) {
            Some((j, e2)) => {
                proof {
                    reveal_strlit("\\begin{");
                }
                Some(EnvBounds { tag: (i + w.begin.len(), se), body: (e, j), end: e2 })
            },
            None => None,
        },
        None => None,
    }
}

fn separator_end_exec(b: &Vec<char>, i: usize, w: &MathWords) -> (r: Option<usize>)
    requires
        w.wf(),
    ensures
        match r {
            Some(e) => separator_end(b@, i as int) == Some(e as int) && e <= b.len(),
            None => separator_end(b@, i as int) is None,
        },
{
    if has_at_exec(b, i, &w.quad) {
        assert(i + w.quad@.len() <= b.len());
        Some(i + w.quad.len())
    } else if has_at_exec(b, i, &w.qquad) {
        assert(i + w.qquad@.len() <= b.len());
        Some(i + w.qquad.len())
    } else if i < b.len() && (b[i] == ',' || b[i] == ';' || is_white(b[i])) {
        Some(i + 1)
    } else {
        None
    }
}

fn skip_separators_exec(b: &Vec<char>, i: usize, w: &MathWords) -> (r: usize)
    requires
        w.wf(),
        i <= b.len(),
    ensures
        r as int == skip_separators(b@, i as int),
        i <= r <= b.len(),
{
    let mut k = i;
    loop
        invariant
            w.wf(),
            i <= k <= b.len(),
            skip_separators(b@, i as int) == skip_separators(b@, k as int),
        decreases b.len() - k,
    {
        match separator_end_exec(b, k, w) {
            Some(e) => {
                if k < e {
                    k = e;
                } else {
                    return k;
                }
            },
            None => {
                return k;
            },
        }
    }
}

pub(crate) fn text_group_exec(b: &Vec<char>, t: usize, w: &MathWords) -> (r: Option<(usize, usize, usize)>)
    requires
        w.wf(),
    ensures
        match r {
            Some((a, z, e)) => text_group_at(b@, t as int) == Some((a as int, z as int, e as int))
                && t <= a <= z < e <= b.len(),
            None => text_group_at(b@, t as int) is None,
        },
{
    if has_at_exec(b, t, &w.text) {
        assert(t + w.text@.len() <= b.len());
        let c = t + w.text.len();
        proof {
            lemma_skip_ws(b@, c as int);
        }
        let ws = skip_ws_exec(b, c);
        proof {
            lemma_run_until(b@, ws as int, '}');
        }
        let r = run_until_exec(b, ws, '}');
        if r >= b.len() {
            None
        } else if r > ws {
            Some((ws, r, r + 1))
        } else if ws > c {
            Some((ws - 1, r, r + 1))
        } else {
            None
        }
    } else {
        None
    }
}

fn first_prose_exec(b: &Vec<char>, w: &MathWords) -> (r: Option<(usize, usize, usize, usize)>)
    requires
        w.wf(),
    ensures
        match r {
            Some((s, a, z, e)) => first_prose(b@, 0) == Some((s as int, a as int, z as int, e as int))
                && s <= a <= z < e <= b.len(),
            None => first_prose(b@, 0) is None,
        },
{
    let mut i: usize = 0;
    while i < b.len()
        invariant
            w.wf(),
            i <= b.len(),
            first_prose(b@, 0) == first_prose(b@, i as int),
        decreases b.len() - i,
    {
        let t = skip_separators_exec(b, i, w);
        match text_group_exec(b, t, w) {
            Some((a, z, e)) => {
                return Some((i, a, z, e));
            },
            None => {},
        }
        i = i + 1;
    }
    None
}

fn rewritten_env_exec(l: &Vec<char>, i: usize, m: &EnvBounds, w: &MathWords) -> (r: Vec<char>)
    requires
        w.wf(),
        env_span_at(l@, i as int) == Some(env_span_of(*m)),
        i < m.tag.0 <= m.tag.1 < m.body.0 <= m.body.1 < m.end <= l.len(),
    ensures
        r@ == rewritten_env(l@, i as int, env_span_of(*m)),
{
    let body = copy_range(l, m.body.0, m.body.1);
    let whole = copy_range(l, i, m.end);
    if contains_exec(&body, &w.aligned) || contains_exec(&body, &w.array) || contains_exec(
        &body,
        &w.matrix,
    ) {
        return whole;
    }
    match first_prose_exec(&body, w) {
        Some((s, a, z, e)) => {
            let (pa, pz) = trim_range(&body, a, z);
            let prose = copy_range(&body, pa, pz);
            assert(prose@ =~= trim(body@.subrange(a as int, z as int)));
            let long = !has_at_exec(&prose, 0, &w.cite) && !has_at_exec(&prose, 0, &w.tilde_cite)
                && utf8_len_at_least(&prose, 0, prose.len(), 36) && contains_exec(&prose, &w.space);
            assert(prose@.subrange(0, prose@.len() as int) =~= prose@);
            if long {
                let mut out: Vec<char> = Vec::new();
                append(&mut out, &w.begin);
                append_range(&mut out, l, m.tag.0, m.tag.1);
                out.push('}');
                append_range(&mut out, &body, 0, s);
                append_range(&mut out, &body, e, body.len());
                append(&mut out, &w.end);
                append_range(&mut out, l, m.tag.0, m.tag.1);
                out.push('}');
                out.push('\n');
                out.push('\n');
                append(&mut out, &prose);
                out.push('\n');
                proof {
                    reveal_strlit("}");
                    reveal_strlit("\n\n");
                    reveal_strlit("\n");
                }
                assert(out@ =~= rewritten_env(l@, i as int, env_span_of(*m)));
                out
            } else {
                whole
            }
        },
        None => whole,
    }
}

fn move_prose(l: &Vec<char>, w: &MathWords) -> (r: Vec<char>)
    requires
        w.wf(),
    ensures
        r@ == moved_prose_from(l@, 0),
{
    let mut out: Vec<char> = Vec::new();
    let mut i: usize = 0;
    while i < l.len()
        invariant
            w.wf(),
            i <= l.len(),
            out@ + moved_prose_from(l@, i as int) == moved_prose_from(l@, 0),
        decreases l.len() - i,
    {
        match env_span_exec(l, i, w) {
            Some(m) => {
                let piece = rewritten_env_exec(l, i, &m, w);
                let ghost before = out@;
                append(&mut out, &piece);
                assert(before + moved_prose_from(l@, i as int) == before + (piece@ + moved_prose_from(
                    l@,
                    m.end as int,
                )));
                assert(out@ + moved_prose_from(l@, m.end as int) =~= before + (piece@ + moved_prose_from(
                    l@,
                    m.end as int,
                )));
                i = m.end;
            },
            None => {
                let ghost before = out@;
                out.push(l[i]);
                assert(out@ + moved_prose_from(l@, i + 1) =~= before + (seq![l@[i as int]]
                    + moved_prose_from(l@, i + 1)));
                i = i + 1;
            },
        }
    }
    assert(out@ + moved_prose_from(l@, i as int) =~= out@);
    out
}

pub(crate) fn unwrap_at_exec(l: &Vec<char>, i: usize, kind: usize, w: &MathWords) -> (r: Option<
    (usize, Vec<char>),
>)
    requires
        w.wf(),
        kind < 6,
    ensures
        match r {
            Some((e, rep)) => unwrap_at(l@, i as int, kind as int) == Some((e as int, rep@)) && i < e
                <= l.len(),
            None => unwrap_at(l@, i as int, kind as int) is None,
        },
{
    proof {
        reveal_strlit("}");
        reveal_strlit("\\\\[");
    }
    if kind == 0 || kind == 2 {
        let open = if kind == 0 {
            &w.dollars
        } else {
            &w.open_br
        };
        if has_at_exec(l, i, open) {
            proof {
                lemma_skip_ws(l@, i + 2);
            }
            let ws = skip_ws_exec(l, i + 2);
            match env_begin_exec(l, ws, w) {
                Some((_, se, e)) => {
                    let mut rep: Vec<char> = Vec::new();
                    append(&mut rep, &w.begin);
                    append_range(&mut rep, l, ws + w.begin.len(), se);
                    rep.push('}');
                    assert(rep@ =~= "\\begin{"@ + l@.subrange(ws + "\\begin{"@.len(), se as int) + "}"@);
                    Some((e, rep))
                },
                None => None,
            }
        } else {
            None
        }
    } else if kind == 1 || kind == 3 {
        let close = if kind == 1 {
            &w.dollars
        } else {
            &w.close_br
        };
        match env_end_exec(l, i, w) {
            Some((_, se, e)) => {
                proof {
                    lemma_skip_ws(l@, e as int);
                }
                let ws = skip_ws_exec(l, e);
                if has_at_exec(l, ws, close) {
                    let mut rep: Vec<char> = Vec::new();
                    append(&mut rep, &w.end);
                    append_range(&mut rep, l, i + w.end.len(), se);
                    rep.push('}');
                    assert(rep@ =~= "\\end{"@ + l@.subrange(i + "\\end{"@.len(), se as int) + "}"@);
                    Some((ws + 2, rep))
                } else {
                    None
                }
            },
            None => None,
        }
    } else if kind == 4 {
        if has_at_exec(l, i, &w.dollars) {
            assert(i + w.dollars@.len() <= l.len());
            proof {
                lemma_skip_ws(l@, i + 2);
            }
            let ws = skip_ws_exec(l, i + 2);
            if has_at_exec(l, ws, &w.open_br) {
                assert(ws + w.open_br@.len() <= l.len());
                return Some((ws + 2, chars_of("\\\\[")));
            }
        }
        None
    } else {
        if has_at_exec(l, i, &w.close_br) {
            assert(i + w.close_br@.len() <= l.len());
            proof {
                lemma_skip_ws(l@, i + 2);
            }
            let ws = skip_ws_exec(l, i + 2);
            if has_at_exec(l, ws, &w.dollars) {
                assert(ws + w.dollars@.len() <= l.len());
                return Some((ws + 2, chars_of("\\]")));
            }
        }
        None
    }
}

fn unwrap_pass(l: &Vec<char>, kind: usize, w: &MathWords) -> (r: Vec<char>)
    requires
        w.wf(),
        kind < 6,
    ensures
        r@ == unwrapped(l@, kind as int),
{
    let mut out: Vec<char> = Vec::new();
    let mut i: usize = 0;
    while i < l.len()
        invariant
            w.wf(),
            kind < 6,
            i <= l.len(),
            out@ + unwrapped_from(l@, i as int, kind as int) == unwrapped_from(l@, 0, kind as int),
        decreases l.len() - i,
    {
        match unwrap_at_exec(l, i, kind, w) {
            Some((e, rep)) => {
                let ghost before = out@;
                append(&mut out, &rep);
                assert(out@ + unwrapped_from(l@, e as int, kind as int) =~= before + (rep@
                    + unwrapped_from(l@, e as int, kind as int)));
                i = e;
            },
            None => {
                let ghost before = out@;
                out.push(l[i]);
                assert(out@ + unwrapped_from(l@, i + 1, kind as int) =~= before + (seq![l@[i as int]]
                    + unwrapped_from(l@, i + 1, kind as int)));
                i = i + 1;
            },
        }
    }
    assert(out@ + unwrapped_from(l@, i as int, kind as int) =~= out@);
    out
}

/// Prepares the display mathematics of a manuscript for conversion: long
/// prose in `\text{..}` moves out of its equation environment, and `$$` or
/// `\[ \]` around an environment are dropped.
pub fn sanitize_math_environments(content: &str) -> (r: String)
    ensures
        r@ == sanitized(content@),
{
    let w = MathWords::new();
    let t = move_prose(&chars_of(content), &w);
    let t = unwrap_pass(&t, 0, &w);
    let t = unwrap_pass(&t, 1, &w);
    let t = unwrap_pass(&t, 2, &w);
    let t = unwrap_pass(&t, 3, &w);
    let t = unwrap_pass(&t, 4, &w);
    let t = unwrap_pass(&t, 5, &w);
    string_of(&t)
}

// ---------------------------------------------------------------------------
// Laws.
// ---------------------------------------------------------------------------

proof fn lemma_absent_literal(t: Seq<char>, i: int, p: Seq<char>, c: char)
    requires
        !t.contains(c),
        p.len() > 0,
        p[0] == c,
    ensures
        !has_at(t, i, p),
{
    if has_at(t, i, p) {
        assert(t.subrange(i, i + p.len())[0] == p[0]);
        assert(t[i] == c);
    }
}

proof fn lemma_plain_moved(t: Seq<char>, i: int)
    requires
        !t.contains('\\'),
        0 <= i <= t.len(),
    ensures
        moved_prose_from(t, i) == t.subrange(i, t.len() as int),
    decreases t.len() - i,
{
    reveal_strlit("\\begin{");
    if i < t.len() {
        lemma_absent_literal(t, i, "\\begin{"@, '\\');
        lemma_plain_moved(t, i + 1);
        assert(seq![t[i]] + t.subrange(i + 1, t.len() as int) =~= t.subrange(i, t.len() as int));
    } else {
        assert(t.subrange(i, t.len() as int) =~= Seq::<char>::empty());
    }
}

proof fn lemma_plain_unwrapped(t: Seq<char>, i: int, kind: int)
    requires
        !t.contains('\\'),
        !t.contains('$'),
        0 <= i <= t.len(),
    ensures
        unwrapped_from(t, i, kind) == t.subrange(i, t.len() as int),
    decreases t.len() - i,
{
    reveal_strlit("$$");
    reveal_strlit("\\[");
    reveal_strlit("\\]");
    reveal_strlit("\\end{");
    if i < t.len() {
        lemma_absent_literal(t, i, "$$"@, '$');
        lemma_absent_literal(t, i, "\\["@, '\\');
        lemma_absent_literal(t, i, "\\]"@, '\\');
        lemma_absent_literal(t, i, "\\end{"@, '\\');
        assert(unwrap_at(t, i, kind) is None);
        lemma_plain_unwrapped(t, i + 1, kind);
        assert(seq![t[i]] + t.subrange(i + 1, t.len() as int) =~= t.subrange(i, t.len() as int));
    } else {
        assert(t.subrange(i, t.len() as int) =~= Seq::<char>::empty());
    }
}

/// Text without backslashes or dollar signs holds no display mathematics
/// and comes out of the clean-up unchanged.
pub proof fn law_plain_text_is_not_touched(t: Seq<char>)
    requires
        !t.contains('\\'),
        !t.contains('$'),
    ensures
        sanitized(t) == t,
{
    lemma_plain_moved(t, 0);
    assert(t.subrange(0, t.len() as int) =~= t);
    lemma_plain_unwrapped(t, 0, 0);
    lemma_plain_unwrapped(t, 0, 1);
    lemma_plain_unwrapped(t, 0, 2);
    lemma_plain_unwrapped(t, 0, 3);
    lemma_plain_unwrapped(t, 0, 4);
    lemma_plain_unwrapped(t, 0, 5);
}

} // verus!
