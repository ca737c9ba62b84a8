//! Simple inline mathematics written as Unicode HTML: Greek letters and a
//! few symbols as characters, sub- and superscripts as tags.
use vstd::prelude::*;
use crate::spelling::{lemma_run_until, run_until, run_until_exec};
use crate::text::{
    chars_of, contains, contains_exec, copy_range, has_at, has_at_exec, is_ascii_digit,
    is_ascii_letter, is_digit, is_letter, lines, split_lines, string_of, trim, trim_range, views,
};

verus! {

/// The commands written as Unicode, one `command glyph` pair per line, in
/// the order in which they are replaced.
pub const SYMBOLS: &'static str = "\\alpha α\n\
\\beta β\n\
\\gamma γ\n\
\\delta δ\n\
\\epsilon ε\n\
\\zeta ζ\n\
\\eta η\n\
\\theta θ\n\
\\iota ι\n\
\\kappa κ\n\
\\lambda λ\n\
\\mu μ\n\
\\nu ν\n\
\\xi ξ\n\
\\omicron o\n\
\\pi π\n\
\\rho ρ\n\
\\sigma σ\n\
\\tau τ\n\
\\upsilon υ\n\
\\phi φ\n\
\\chi χ\n\
\\psi ψ\n\
\\omega ω\n\
\\Gamma Γ\n\
\\Delta Δ\n\
\\Theta Θ\n\
\\Lambda Λ\n\
\\Xi Ξ\n\
\\Pi Π\n\
\\Sigma Σ\n\
\\Upsilon Υ\n\
\\Phi Φ\n\
\\Psi Ψ\n\
\\Omega Ω\n\
\\boldsymbol{\\omega} 𝝎\n\
\\boldsymbol{\\tau} 𝝳\n\
\\mathbf{D} 𝐃\n\
\\mathbf{F} 𝐅\n\
\\mathbf{v} 𝐯\n\
\\mathrm{rel} rel\n\
\\nabla ∇\n\
\\times ×\n\
\\propto ∝";

/// Every occurrence of `pat` (non-empty) from `i` on, left to right and
/// without overlap, replaced by `rep`: what `str::replace` does.
pub open spec fn replaced_from(s: Seq<char>, i: int, pat: Seq<char>, rep: Seq<char>) -> Seq<char>
    decreases s.len() - i,
{
    if i < 0 || i >= s.len() {
        seq![]
    } else if pat.len() > 0 && has_at(s, i, pat) {
        rep + replaced_from(s, i + pat.len(), pat, rep)
    } else {
        seq![s[i]] + replaced_from(s, i + 1, pat, rep)
    }
}

pub open spec fn replace_all(s: Seq<char>, pat: Seq<char>, rep: Seq<char>) -> Seq<char> {
    replaced_from(s, 0, pat, rep)
}

/// The command of a symbol line (before the space) and its glyph (after).
pub open spec fn symbol_command(e: Seq<char>) -> Seq<char> {
    e.subrange(0, run_until(e, 0, ' '))
}

pub open spec fn symbol_glyph(e: Seq<char>) -> Seq<char> {
    let k = run_until(e, 0, ' ');
    if k < e.len() {
        e.subrange(k + 1, e.len() as int)
    } else {
        seq![]
    }
}

/// The symbol lines `es` applied in order.
pub open spec fn with_symbols(s: Seq<char>, es: Seq<Seq<char>>) -> Seq<char>
    decreases es.len(),
{
    if es.len() == 0 {
        s
    } else {
        replace_all(with_symbols(s, es.drop_last()), symbol_command(es.last()), symbol_glyph(es.last()))
    }
}

/// `open` (ending in `{`) at `i`, a non-empty group without `}`, then `}`:
/// the bounds of the group.
pub open spec fn braced_at(s: Seq<char>, i: int, open: Seq<char>) -> Option<(int, int)> {
    if has_at(s, i, open) {
        let a = i + open.len();
        let e = run_until(s, a, '}');
        if e > a && e < s.len() {
            Some((a, e))
        } else {
            None
        }
    } else {
        None
    }
}

/// Every `open GROUP }` from `i` on replaced by `before GROUP after`.
pub open spec fn rewrite_braced_from(
    s: Seq<char>,
    i: int,
    open: Seq<char>,
    before: Seq<char>,
    after: Seq<char>,
) -> Seq<char>
    decreases s.len() - i,
{
    if i < 0 || i >= s.len() {
        seq![]
    } else {
        match braced_at(s, i, open) {
            Some((a, e)) => if i < e + 1 <= s.len() {
                before + s.subrange(a, e) + after + rewrite_braced_from(s, e + 1, open, before, after)
            } else {
                seq![s[i]] + rewrite_braced_from(s, i + 1, open, before, after)
            },
            None => seq![s[i]] + rewrite_braced_from(s, i + 1, open, before, after),
        }
    }
}

pub open spec fn rewrite_braced(s: Seq<char>, open: Seq<char>, before: Seq<char>, after: Seq<char>) -> Seq<char> {
    rewrite_braced_from(s, 0, open, before, after)
}

pub open spec fn is_ascii_alnum(c: char) -> bool {
    is_ascii_letter(c) || is_ascii_digit(c)
}

/// Every `mark` followed by one ASCII letter or digit `c`, from `i` on,
/// replaced by `before c after`.
pub open spec fn rewrite_single_from(
    s: Seq<char>,
    i: int,
    mark: char,
    before: Seq<char>,
    after: Seq<char>,
) -> Seq<char>
    decreases s.len() - i,
{
    if i < 0 || i >= s.len() {
        seq![]
    } else if s[i] == mark && i + 1 < s.len() && is_ascii_alnum(s[i + 1]) {
        before + seq![s[i + 1]] + after + rewrite_single_from(s, i + 2, mark, before, after)
    } else {
        seq![s[i]] + rewrite_single_from(s, i + 1, mark, before, after)
    }
}

pub open spec fn rewrite_single(s: Seq<char>, mark: char, before: Seq<char>, after: Seq<char>) -> Seq<char> {
    rewrite_single_from(s, 0, mark, before, after)
}

/// Mathematics that is better left as an image.
pub open spec fn is_complex_math(s: Seq<char>) -> bool {
    ||| contains(s, "\\frac"@)
    ||| contains(s, "\\int"@)
    ||| contains(s, "\\sum"@)
    ||| contains(s, "\\sqrt"@)
    ||| contains(s, "\\begin"@)
    ||| contains(s, "\\end"@)
    ||| contains(s, "\\left"@)
    ||| contains(s, "\\right"@)
    ||| contains(s, "\\over"@)
}

/// The text after the style commands are dropped and white space trimmed.
pub open spec fn plain_math(latex: Seq<char>) -> Seq<char> {
    trim(replace_all(replace_all(latex, "\\displaystyle"@, seq![]), "\\textstyle"@, seq![]))
}

/// The symbols, scripts and text commands written out, backslashes dropped.
pub open spec fn unicode_body(t: Seq<char>) -> Seq<char> {
    let t1 = with_symbols(t, lines(SYMBOLS@));
    let t2 = rewrite_braced(t1, "_{"@, "<sub>"@, "</sub>"@);
    let t3 = rewrite_single(t2, '_', "<sub>"@, "</sub>"@);
    let t4 = rewrite_braced(t3, "^{"@, "<sup>"@, "</sup>"@);
    let t5 = rewrite_single(t4, '^', "<sup>"@, "</sup>"@);
    let t6 = rewrite_braced(t5, "\\boldsymbol{"@, "<strong>"@, "</strong>"@);
    let t7 = rewrite_braced(t6, "\\mathbf{"@, "<strong>"@, "</strong>"@);
    let t8 = rewrite_braced(t7, "\\mathrm{"@, seq![], seq![]);
    let t9 = rewrite_braced(t8, "\\text{"@, seq![], seq![]);
    replace_all(t9, "\\"@, seq![])
}

/// Simple inline mathematics as emphasised Unicode HTML; `None` for
/// mathematics with fractions, integrals, sums, roots, environments or
/// delimiters.
pub open spec fn unicode_html(latex: Seq<char>) -> Option<Seq<char>> {
    let t = plain_math(latex);
    if is_complex_math(t) {
        None
    } else {
        Some("<em>"@ + unicode_body(t) + "</em>"@)
    }
}

// ---------------------------------------------------------------------------
// The executable side.
// ---------------------------------------------------------------------------

fn append(out: &mut Vec<char>, v: &Vec<char>)
    ensures
        final(out)@ == old(out)@ + v@,
{
    let mut k: usize = 0;
    while k < v.len()
        invariant
            k <= v.len(),
            out@ == old(out)@ + v@.subrange(0, k as int),
        decreases v.len() - k,
    {
        out.push(v[k]);
        assert(v@.subrange(0, k + 1) =~= v@.subrange(0, k as int).push(v@[k as int]));
        k = k + 1;
    }
    assert(v@.subrange(0, k as int) =~= v@);
}

fn append_range(out: &mut Vec<char>, t: &Vec<char>, a: usize, b: usize)
    requires
        a <= b <= t.len(),
    ensures
        final(out)@ == old(out)@ + t@.subrange(a as int, b as int),
{
    let mut k = a;
    while k < b
        invariant
            a <= k <= b <= t.len(),
            out@ == old(out)@ + t@.subrange(a as int, k as int),
        decreases b - k,
    {
        out.push(t[k]);
        assert(t@.subrange(a as int, k + 1) =~= t@.subrange(a as int, k as int).push(t@[k as int]));
        k = k + 1;
    }
}

fn replace_all_exec(s: &Vec<char>, pat: &Vec<char>, rep: &Vec<char>) -> (r: Vec<char>)
    ensures
        r@ == replace_all(s@, pat@, rep@),
{
    let mut out: Vec<char> = Vec::new();
    let mut i: usize = 0;
    while i < s.len()
        invariant
            i <= s.len(),
            out@ + replaced_from(s@, i as int, pat@, rep@) == replace_all(s@, pat@, rep@),
        decreases s.len() - i,
    {
        let ghost before = out@;
        if pat.len() > 0 && has_at_exec(s, i, pat) {
            assert(i + pat@.len() <= s.len());
            append(&mut out, rep);
            assert(out@ + replaced_from(s@, i + pat@.len(), pat@, rep@) =~= before + (rep@
                + replaced_from(s@, i + pat@.len(), pat@, rep@)));
            i = i + pat.len();
        } else {
            out.push(s[i]);
            assert(out@ + replaced_from(s@, i + 1, pat@, rep@) =~= before + (seq![s@[i as int]]
                + replaced_from(s@, i + 1, pat@, rep@)));
            i = i + 1;
        }
    }
    assert(out@ + replaced_from(s@, i as int, pat@, rep@) =~= out@);
    out
}

fn with_symbols_exec(t: &Vec<char>) -> (r: Vec<char>)
    ensures
        r@ == with_symbols(t@, lines(SYMBOLS@)),
{
    let es = split_lines(&chars_of(SYMBOLS));
    let mut cur = copy_range(t, 0, t.len());
    assert(t@.subrange(0, t@.len() as int) =~= t@);
    let mut k: usize = 0;
    assert(views(es@).subrange(0, 0) =~= Seq::<Seq<char>>::empty());
    while k < es.len()
        invariant
            k <= es.len(),
            views(es@) == lines(SYMBOLS@),
            cur@ == with_symbols(t@, views(es@).subrange(0, k as int)),
        decreases es.len() - k,
    {
        let e = &es[k];
        proof {
            lemma_run_until(e@, 0, ' ');
        }
        let sp = run_until_exec(e, 0, ' ');
        let cmd = copy_range(e, 0, sp);
        let glyph = if sp < e.len() {
            copy_range(e, sp + 1, e.len())
        } else {
            Vec::new()
        };
        assert(glyph@ =~= symbol_glyph(e@));
        cur = replace_all_exec(&cur, &cmd, &glyph);
        assert(views(es@).subrange(0, k + 1).drop_last() =~= views(es@).subrange(0, k as int));
        assert(views(es@).subrange(0, k + 1).last() == e@);
        k = k + 1;
    }
    assert(views(es@).subrange(0, k as int) =~= views(es@));
    cur
}

pub(crate) fn braced_exec(s: &Vec<char>, i: usize, open: &Vec<char>) -> (r: Option<(usize, usize)>)
    ensures
        match r {
            Some((a, e)) => braced_at(s@, i as int, open@) == Some((a as int, e as int)) && i <= a < e
                < s.len(),
            None => braced_at(s@, i as int, open@) is None,
        },
{
    if has_at_exec(s, i, open) {
        assert(i + open@.len() <= s.len());
        let a = i + open.len();
        let e = run_until_exec(s, a, '}');
        if e > a && e < s.len() {
            return Some((a, e));
        }
    }
    None
}

pub(crate) fn rewrite_braced_exec(s: &Vec<char>, open: &Vec<char>, before: &Vec<char>, after: &Vec<char>) -> (r: Vec<char>)
    ensures
        r@ == rewrite_braced(s@, open@, before@, after@),
{
    let mut out: Vec<char> = Vec::new();
    let mut i: usize = 0;
    while i < s.len()
        invariant
            i <= s.len(),
            out@ + rewrite_braced_from(s@, i as int, open@, before@, after@) == rewrite_braced(
                s@,
                open@,
                before@,
                after@,
            ),
        decreases s.len() - i,
    {
        let ghost prev = out@;
        match braced_exec(s, i, open) {
            Some((a, e)) => {
                append(&mut out, before);
                append_range(&mut out, s, a, e);
                append(&mut out, after);
                assert(out@ + rewrite_braced_from(s@, e + 1, open@, before@, after@) =~= prev + (before@
                    + s@.subrange(a as int, e as int) + after@ + rewrite_braced_from(
                    s@,
                    e + 1,
                    open@,
                    before@,
                    after@,
                )));
                i = e + 1;
            },
            None => {
                out.push(s[i]);
                assert(out@ + rewrite_braced_from(s@, i + 1, open@, before@, after@) =~= prev + (seq![
                    s@[i as int],
                ] + rewrite_braced_from(s@, i + 1, open@, before@, after@)));
                i = i + 1;
            },
        }
    }
    assert(out@ + rewrite_braced_from(s@, i as int, open@, before@, after@) =~= out@);
    out
}

fn rewrite_single_exec(s: &Vec<char>, mark: char, before: &Vec<char>, after: &Vec<char>) -> (r: Vec<char>)
    ensures
        r@ == rewrite_single(s@, mark, before@, after@),
{
    let mut out: Vec<char> = Vec::new();
    let mut i: usize = 0;
    while i < s.len()
        invariant
            i <= s.len(),
            out@ + rewrite_single_from(s@, i as int, mark, before@, after@) == rewrite_single(
                s@,
                mark,
                before@,
                after@,
            ),
        decreases s.len() - i,
    {
        let ghost prev = out@;
        if s[i] == mark && i + 1 < s.len() && (is_letter(s[i + 1]) || is_digit(s[i + 1])) {
            append(&mut out, before);
            out.push(s[i + 1]);
            append(&mut out, after);
            assert(out@ + rewrite_single_from(s@, i + 2, mark, before@, after@) =~= prev + (before@
                + seq![s@[i + 1]] + after@ + rewrite_single_from(s@, i + 2, mark, before@, after@)));
            i = i + 2;
        } else {
            out.push(s[i]);
            assert(out@ + rewrite_single_from(s@, i + 1, mark, before@, after@) =~= prev + (seq![
                s@[i as int],
            ] + rewrite_single_from(s@, i + 1, mark, before@, after@)));
            i = i + 1;
        }
    }
    assert(out@ + rewrite_single_from(s@, i as int, mark, before@, after@) =~= out@);
    out
}

fn is_complex_exec(t: &Vec<char>) -> (r: bool)
    ensures
        r == is_complex_math(t@),
{
    contains_exec(t, &chars_of("\\frac")) || contains_exec(t, &chars_of("\\int")) || contains_exec(
        t,
        &chars_of("\\sum"),
    ) || contains_exec(t, &chars_of("\\sqrt")) || contains_exec(t, &chars_of("\\begin"))
        || contains_exec(t, &chars_of("\\end")) || contains_exec(t, &chars_of("\\left"))
        || contains_exec(t, &chars_of("\\right")) || contains_exec(t, &chars_of("\\over"))
}

/// Writes simple inline mathematics as emphasised Unicode HTML (Greek
/// letters and symbols as characters, scripts as `<sub>`/`<sup>`, bold as
/// `<strong>`); `None` for mathematics that is better left as an image.
pub fn latex_to_unicode_html(latex: &str) -> (r: Option<String>)
    ensures
        match r {
            Some(h) => unicode_html(latex@) == Some(h@),
            None => unicode_html(latex@) is None,
        },
{
    let empty: Vec<char> = Vec::new();
    let t0 = replace_all_exec(&chars_of(latex), &chars_of("\\displaystyle"), &empty);
    let t0 = replace_all_exec(&t0, &chars_of("\\textstyle"), &empty);
    let (a, b) = trim_range(&t0, 0, t0.len());
    assert(t0@.subrange(0, t0@.len() as int) =~= t0@);
    let t = copy_range(&t0, a, b);
    if is_complex_exec(&t) {
        return None;
    }
    let t = with_symbols_exec(&t);
    let t = rewrite_braced_exec(&t, &chars_of("_{"), &chars_of("<sub>"), &chars_of("</sub>"));
    let t = rewrite_single_exec(&t, '_', &chars_of("<sub>"), &chars_of("</sub>"));
    let t = rewrite_braced_exec(&t, &chars_of("^{"), &chars_of("<sup>"), &chars_of("</sup>"));
    let t = rewrite_single_exec(&t, '^', &chars_of("<sup>"), &chars_of("</sup>"));
    let t = rewrite_braced_exec(
        &t,
        &chars_of("\\boldsymbol{"),
        &chars_of("<strong>"),
        &chars_of("</strong>"),
    );
    let t = rewrite_braced_exec(&t, &chars_of("\\mathbf{"), &chars_of("<strong>"), &chars_of("</strong>"));
    let t = rewrite_braced_exec(&t, &chars_of("\\mathrm{"), &empty, &empty);
    let t = rewrite_braced_exec(&t, &chars_of("\\text{"), &empty, &empty);
    let t = replace_all_exec(&t, &chars_of("\\"), &empty);
    let mut out = chars_of("<em>");
    append(&mut out, &t);
    append(&mut out, &chars_of("</em>"));
    assert(empty@ =~= Seq::<char>::empty());
    Some(string_of(&out))
}

// ---------------------------------------------------------------------------
// Laws.
// ---------------------------------------------------------------------------

proof fn lemma_no_backslash_left(s: Seq<char>, i: int)
    requires
        0 <= i,
    ensures
        !replaced_from(s, i, "\\"@, seq![]).contains('\\'),
    decreases s.len() - i,
{
    reveal_strlit("\\");
    if 0 <= i < s.len() {
        let r = replaced_from(s, i, "\\"@, seq![]);
        if has_at(s, i, "\\"@) {
            lemma_no_backslash_left(s, i + 1);
            assert(r =~= replaced_from(s, i + 1, "\\"@, seq![]));
        } else {
            lemma_no_backslash_left(s, i + 1);
            assert("\\"@ =~= seq!['\\']);
            assert(s.subrange(i, i + 1) =~= seq![s[i]]);
            assert(s[i] != '\\');
            let rest = replaced_from(s, i + 1, "\\"@, seq![]);
            assert(r =~= seq![s[i]] + rest);
            assert forall|k: int| 0 <= k < r.len() implies r[k] != '\\' by {
                if k > 0 {
                    assert(r[k] == rest[k - 1]);
                }
            }
        }
    }
}

/// The HTML written for inline mathematics holds no backslash: every
/// command is either written out or dropped.
pub proof fn law_unicode_html_has_no_backslash(latex: Seq<char>)
    ensures
        unicode_html(latex) matches Some(h) ==> !h.contains('\\'),
{
    reveal_strlit("<em>");
    reveal_strlit("</em>");
    if let Some(h) = unicode_html(latex) {
        let t = plain_math(latex);
        let b = unicode_body(t);
        assert(h == "<em>"@ + b + "</em>"@);
        let t1 = with_symbols(t, lines(SYMBOLS@));
        let t2 = rewrite_braced(t1, "_{"@, "<sub>"@, "</sub>"@);
        let t3 = rewrite_single(t2, '_', "<sub>"@, "</sub>"@);
        let t4 = rewrite_braced(t3, "^{"@, "<sup>"@, "</sup>"@);
        let t5 = rewrite_single(t4, '^', "<sup>"@, "</sup>"@);
        let t6 = rewrite_braced(t5, "\\boldsymbol{"@, "<strong>"@, "</strong>"@);
        let t7 = rewrite_braced(t6, "\\mathbf{"@, "<strong>"@, "</strong>"@);
        let t8 = rewrite_braced(t7, "\\mathrm{"@, seq![], seq![]);
        let t9 = rewrite_braced(t8, "\\text{"@, seq![], seq![]);
        lemma_no_backslash_left(t9, 0);
        assert forall|k: int| 0 <= k < h.len() implies h[k] != '\\' by {
            if 4 <= k < 4 + b.len() {
                assert(h[k] == b[k - 4]);
            }
        }
    }
}

/// Fractions, integrals, sums, roots, environments, `\left`/`\right`
/// delimiters and `\over` are left as images: where the mathematics,
/// without its style commands and trimmed, holds any of them, no HTML is
/// written; otherwise some is.
pub proof fn law_complex_math_stays_an_image(latex: Seq<char>)
    ensures
        contains(plain_math(latex), "\\frac"@) ==> unicode_html(latex) is None,
        contains(plain_math(latex), "\\int"@) ==> unicode_html(latex) is None,
        contains(plain_math(latex), "\\sum"@) ==> unicode_html(latex) is None,
        contains(plain_math(latex), "\\sqrt"@) ==> unicode_html(latex) is None,
        contains(plain_math(latex), "\\begin"@) ==> unicode_html(latex) is None,
        contains(plain_math(latex), "\\end"@) ==> unicode_html(latex) is None,
        contains(plain_math(latex), "\\left"@) ==> unicode_html(latex) is None,
        contains(plain_math(latex), "\\right"@) ==> unicode_html(latex) is None,
        contains(plain_math(latex), "\\over"@) ==> unicode_html(latex) is None,
        !plain_math(latex).contains('\\') ==> unicode_html(latex) is Some,
{
    if !plain_math(latex).contains('\\') {
        let t = plain_math(latex);
        assert forall|p: Seq<char>| p.len() > 0 && p[0] == '\\' implies !contains(t, p) by {
            if contains(t, p) {
                let at = choose|at: int| has_at(t, at, p);
                assert(t.subrange(at, at + p.len())[0] == t[at]);
            }
        }
        reveal_strlit("\\frac");
        reveal_strlit("\\int");
        reveal_strlit("\\sum");
        reveal_strlit("\\sqrt");
        reveal_strlit("\\begin");
        reveal_strlit("\\end");
        reveal_strlit("\\left");
        reveal_strlit("\\right");
        reveal_strlit("\\over");
        assert(!is_complex_math(t));
    }
}

} // verus!
