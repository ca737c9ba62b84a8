//! Post-processing of the written HTML page: equation images that stand
//! alone in a paragraph become figures.
use vstd::prelude::*;
use crate::mathfix::{append, append_range};
use crate::numbering::{lemma_skip_ws, skip_ws, skip_ws_exec};
use crate::spelling::{lemma_run_until, run_until, run_until_exec};
use crate::text::{chars_of, copy_range, has_at, has_at_exec, is_white, is_ws, string_of};
use crate::unicode_math::{latex_to_unicode_html, unicode_html};

verus! {

/// A quote that may open an attribute value.
pub open spec fn is_quote(c: char) -> bool {
    c == '"' || c == '\''
}

/// Two words separated by white space (at least one character) at `c`.
pub open spec fn words_at(s: Seq<char>, c: int, first: Seq<char>, second: Seq<char>) -> bool {
    has_at(s, c, first) && skip_ws(s, c + first.len()) > c + first.len() && has_at(
        s,
        skip_ws(s, c + first.len()),
        second,
    )
}

/// `class = "math display"` (or `display math`, the quote optional) at `q`.
pub open spec fn display_class_at(s: Seq<char>, q: int) -> bool {
    has_at(s, q, "class"@) && {
        let a = skip_ws(s, q + 5);
        0 <= a < s.len() && s[a] == '=' && {
            let b = skip_ws(s, a + 1);
            let c = if 0 <= b < s.len() && is_quote(s[b]) {
                b + 1
            } else {
                b
            };
            words_at(s, c, "math"@, "display"@) || words_at(s, c, "display"@, "math"@)
        }
    }
}

/// `<p>`, an image tag of display class, then `</p>`, at `i`: the bounds of
/// the image tag and the end.
pub open spec fn lone_display_at(s: Seq<char>, i: int) -> Option<(int, int, int)> {
    if has_at(s, i, "<p>"@) {
        let w = skip_ws(s, i + 3);
        if has_at(s, w, "<img"@) {
            let r = run_until(s, w + 4, '>');
            if r < s.len() && (exists|q: int| w + 4 <= q < r && #[trigger] display_class_at(s, q)) {
                let w2 = skip_ws(s, r + 1);
                if has_at(s, w2, "</p>"@) {
                    Some((w, r + 1, w2 + 4))
                } else {
                    None
                }
            } else {
                None
            }
        } else {
            None
        }
    } else {
        None
    }
}

/// Every lone display image from `i` on wrapped as a figure.
pub open spec fn figures_from(s: Seq<char>, i: int) -> Seq<char>
    decreases s.len() - i,
{
    if i < 0 || i >= s.len() {
        seq![]
    } else {
        match lone_display_at(s, i) {
            Some((a, b, e)) => if i < e <= s.len() && a <= b {
                "<figure class=\"math-figure\">"@ + s.subrange(a, b) + "</figure>"@ + figures_from(s, e)
            } else {
                seq![s[i]] + figures_from(s, i + 1)
            },
            None => seq![s[i]] + figures_from(s, i + 1),
        }
    }
}

fn words_exec(s: &Vec<char>, c: usize, first: &Vec<char>, second: &Vec<char>) -> (r: bool)
    ensures
        r == words_at(s@, c as int, first@, second@),
{
    if !has_at_exec(s, c, first) {
        return false;
    }
    assert(c + first@.len() <= s.len());
    proof {
        lemma_skip_ws(s@, c + first@.len());
    }
    let d = skip_ws_exec(s, c + first.len());
    d > c + first.len() && has_at_exec(s, d, second)
}

fn display_class_exec(s: &Vec<char>, q: usize, class: &Vec<char>, math: &Vec<char>, display: &Vec<char>) -> (r: bool)
    requires
        class@ == "class"@,
        math@ == "math"@,
        display@ == "display"@,
    ensures
        r == display_class_at(s@, q as int),
{
    proof {
        reveal_strlit("class");
    }
    if !has_at_exec(s, q, class) {
        return false;
    }
    assert(q + 5 <= s.len());
    proof {
        lemma_skip_ws(s@, q + 5);
    }
    let a = skip_ws_exec(s, q + 5);
    if !(a < s.len() && s[a] == '=') {
        return false;
    }
    proof {
        lemma_skip_ws(s@, a + 1);
    }
    let b = skip_ws_exec(s, a + 1);
    let c = if b < s.len() && (s[b] == '"' || s[b] == '\'') {
        b + 1
    } else {
        b
    };
    words_exec(s, c, math, display) || words_exec(s, c, display, math)
}

fn lone_display_exec(s: &Vec<char>, i: usize) -> (r: Option<(usize, usize, usize)>)
    ensures
        match r {
            Some((a, b, e)) => lone_display_at(s@, i as int) == Some((a as int, b as int, e as int)) && i < a
                <= b < e <= s.len(),
            None => lone_display_at(s@, i as int) is None,
        },
{
    proof {
        reveal_strlit("<p>");
        reveal_strlit("<img");
        reveal_strlit("</p>");
    }
    let p_open = chars_of("<p>");
    let img = chars_of("<img");
    let p_close = chars_of("</p>");
    let class = chars_of("class");
    let math = chars_of("math");
    let display = chars_of("display");
    if !has_at_exec(s, i, &p_open) {
        return None;
    }
    assert(i + 3 <= s.len());
    proof {
        lemma_skip_ws(s@, i + 3);
    }
    let w = skip_ws_exec(s, i + 3);
    if !has_at_exec(s, w, &img) {
        return None;
    }
    assert(w + 4 <= s.len());
    proof {
        lemma_run_until(s@, w + 4, '>');
    }
    let r = run_until_exec(s, w + 4, '>');
    if r >= s.len() {
        return None;
    }
    let mut found = false;
    let mut q = w + 4;
    while q < r
        invariant
            w + 4 <= q <= r < s.len(),
            class@ == "class"@,
            math@ == "math"@,
            display@ == "display"@,
            found == exists|j: int| w + 4 <= j < q && #[trigger] display_class_at(s@, j),
        decreases r - q,
    {
        if display_class_exec(s, q, &class, &math, &display) {
            found = true;
        }
        q = q + 1;
    }
    if !found {
        return None;
    }
    proof {
        lemma_skip_ws(s@, r + 1);
    }
    let w2 = skip_ws_exec(s, r + 1);
    if has_at_exec(s, w2, &p_close) {
        assert(w2 + 4 <= s.len());
        Some((w, r + 1, w2 + 4))
    } else {
        None
    }
}

/// Wraps each equation image that stands alone in a paragraph (an image
/// of class `math display`) in a `math-figure` figure in place of the
/// paragraph.
pub fn figure_display_math(html: &str) -> (r: String)
    ensures
        r@ == figures_from(html@, 0),
{
    let s = chars_of(html);
    let open = chars_of("<figure class=\"math-figure\">");
    let close = chars_of("</figure>");
    let mut out: Vec<char> = Vec::new();
    let mut i: usize = 0;
    while i < s.len()
        invariant
            i <= s.len(),
            s@ == html@,
            open@ == "<figure class=\"math-figure\">"@,
            close@ == "</figure>"@,
            out@ + figures_from(s@, i as int) == figures_from(s@, 0),
        decreases s.len() - i,
    {
        let ghost prev = out@;
        match lone_display_exec(&s, i) {
            Some((a, b, e)) => {
                append(&mut out, &open);
                append_range(&mut out, &s, a, b);
                append(&mut out, &close);
                assert(out@ + figures_from(s@, e as int) =~= prev + ("<figure class=\"math-figure\">"@
                    + s@.subrange(a as int, b as int) + "</figure>"@ + figures_from(s@, e as int)));
                i = e;
            },
            None => {
                out.push(s[i]);
                assert(out@ + figures_from(s@, i + 1) =~= prev + (seq![s@[i as int]] + figures_from(s@, i + 1)));
                i = i + 1;
            },
        }
    }
    assert(out@ + figures_from(s@, i as int) =~= out@);
    string_of(&out)
}

// ---------------------------------------------------------------------------
// Inline equation images.
//
// An image tag `<img ... class="math inline" ... alt="LATEX" ... >` (the
// words may come in either order, quotes are optional, and letters match in
// either case) whose LaTeX is simple is replaced by Unicode HTML.
// ---------------------------------------------------------------------------

/// A character that a pattern letter `l` matches regardless of case: the
/// letter itself, its capital, and for `s` also the long s.
pub open spec fn ci_char(c: char, l: char) -> bool {
    ||| c == l
    ||| ('a' <= l <= 'z' && c as u32 + 32 == l as u32)
    ||| (l == 's' && c == '\u{17f}')
}

/// `p` (lowercase) at `i`, ignoring case.
pub open spec fn ci_has_at(s: Seq<char>, i: int, p: Seq<char>) -> bool {
    0 <= i && i + p.len() <= s.len() && forall|j: int| 0 <= j < p.len() ==> #[trigger] ci_char(s[i + j], p[j])
}

/// Two words (ignoring case) separated by white space at `c`: where the
/// second ends.
pub open spec fn ci_words_end(s: Seq<char>, c: int, first: Seq<char>, second: Seq<char>) -> Option<int> {
    if ci_has_at(s, c, first) && skip_ws(s, c + first.len()) > c + first.len() && ci_has_at(
        s,
        skip_ws(s, c + first.len()),
        second,
    ) {
        Some(skip_ws(s, c + first.len()) + second.len())
    } else {
        None
    }
}

/// Past an optional quote at `k`.
pub open spec fn after_quote(s: Seq<char>, k: int) -> int {
    if 0 <= k < s.len() && is_quote(s[k]) {
        k + 1
    } else {
        k
    }
}

/// `class = "math inline"` (either order, quote optional) at `q`: where the
/// attribute value ends, past its closing quote.
pub open spec fn inline_class_at(s: Seq<char>, q: int) -> Option<int> {
    if ci_has_at(s, q, "class"@) {
        let a = skip_ws(s, q + 5);
        if 0 <= a < s.len() && s[a] == '=' {
            let c = after_quote(s, skip_ws(s, a + 1));
            match ci_words_end(s, c, "math"@, "inline"@) {
                Some(e) => Some(after_quote(s, e)),
                None => match ci_words_end(s, c, "inline"@, "math"@) {
                    Some(e) => Some(after_quote(s, e)),
                    None => None,
                },
            }
        } else {
            None
        }
    } else {
        None
    }
}

/// The first quote character from `k` (or the end).
pub open spec fn quote_run_end(s: Seq<char>, k: int) -> int
    decreases s.len() - k,
{
    if 0 <= k < s.len() && !is_quote(s[k]) {
        quote_run_end(s, k + 1)
    } else {
        k
    }
}

/// The last `>` in `[lo, hi)`.
pub open spec fn last_gt(s: Seq<char>, lo: int, hi: int) -> Option<int>
    decreases hi - lo,
{
    if hi <= lo {
        None
    } else if 0 <= hi - 1 < s.len() && s[hi - 1] == '>' {
        Some(hi - 1)
    } else {
        last_gt(s, lo, hi - 1)
    }
}

/// `alt = "TEXT"` (quote optional) at `p`, then the rest of the tag: the
/// bounds of TEXT and where the tag ends.  TEXT runs to the next quote;
/// where no `>` follows it, TEXT ends at the last `>` inside it instead.
pub open spec fn alt_at(s: Seq<char>, p: int) -> Option<(int, int, int)> {
    if ci_has_at(s, p, "alt"@) {
        let a = skip_ws(s, p + 3);
        if 0 <= a < s.len() && s[a] == '=' {
            let g = after_quote(s, skip_ws(s, a + 1));
            let e = quote_run_end(s, g);
            if e <= g {
                None
            } else if e < s.len() && run_until(s, e + 1, '>') < s.len() {
                Some((g, e, run_until(s, e + 1, '>') + 1))
            } else {
                match last_gt(s, g + 1, e) {
                    Some(r) => Some((g, r, r + 1)),
                    None => None,
                }
            }
        } else {
            None
        }
    } else {
        None
    }
}

/// The first `alt` attribute from `p` on, up to the tag's next `>` at `stop`.
pub open spec fn first_alt(s: Seq<char>, p: int, stop: int) -> Option<(int, int, int)>
    decreases stop + 1 - p,
{
    if p < 0 || p > stop {
        None
    } else {
        match alt_at(s, p) {
            Some(m) => Some(m),
            None => first_alt(s, p + 1, stop),
        }
    }
}

/// The first class attribute from `q` on (before `stop`) that is followed
/// by an `alt` attribute.
pub open spec fn first_class_alt(s: Seq<char>, q: int, stop: int) -> Option<(int, int, int)>
    decreases stop - q,
{
    if q < 0 || q >= stop {
        None
    } else {
        match inline_class_at(s, q) {
            Some(y) => match first_alt(s, y, run_until(s, y, '>')) {
                Some(m) => Some(m),
                None => first_class_alt(s, q + 1, stop),
            },
            None => first_class_alt(s, q + 1, stop),
        }
    }
}

/// An inline equation image at `i`: the bounds of its LaTeX and its end.
pub open spec fn inline_image_at(s: Seq<char>, i: int) -> Option<(int, int, int)> {
    if ci_has_at(s, i, "<img"@) {
        first_class_alt(s, i + 4, run_until(s, i + 4, '>'))
    } else {
        None
    }
}

/// Every inline equation image from `i` on whose LaTeX is simple written
/// as Unicode HTML.
pub open spec fn inline_math_from(s: Seq<char>, i: int) -> Seq<char>
    decreases s.len() - i,
{
    if i < 0 || i >= s.len() {
        seq![]
    } else {
        match inline_image_at(s, i) {
            Some((a, b, e)) => if i < e <= s.len() {
                match unicode_html(s.subrange(a, b)) {
                    Some(h) => h + inline_math_from(s, e),
                    None => s.subrange(i, e) + inline_math_from(s, e),
                }
            } else {
                seq![s[i]] + inline_math_from(s, i + 1)
            },
            None => seq![s[i]] + inline_math_from(s, i + 1),
        }
    }
}

fn ci_has_at_exec(s: &Vec<char>, i: usize, p: &Vec<char>) -> (r: bool)
    ensures
        r == ci_has_at(s@, i as int, p@),
{
    if i > s.len() || p.len() > s.len() - i {
        return false;
    }
    let mut k: usize = 0;
    while k < p.len()
        invariant
            k <= p.len(),
            i + p.len() <= s.len(),
            forall|j: int| 0 <= j < k ==> #[trigger] ci_char(s@[i + j], p@[j]),
        decreases p.len() - k,
    {
        let c = s[i + k];
        let l = p[k];
        let ok = c == l || ('a' <= l && l <= 'z' && (c as u32) == (l as u32) - 32) || (l == 's' && c
            == '\u{17f}');
        if !ok {
            assert(!ci_char(s@[i + k], p@[k as int]));
            return false;
        }
        k = k + 1;
    }
    true
}

fn ci_words_end_exec(s: &Vec<char>, c: usize, first: &Vec<char>, second: &Vec<char>) -> (r: Option<usize>)
    ensures
        match r {
            Some(e) => ci_words_end(s@, c as int, first@, second@) == Some(e as int) && e <= s.len(),
            None => ci_words_end(s@, c as int, first@, second@) is None,
        },
{
    if !ci_has_at_exec(s, c, first) {
        return None;
    }
    assert(c + first@.len() <= s.len());
    proof {
        lemma_skip_ws(s@, c + first@.len());
    }
    let d = skip_ws_exec(s, c + first.len());
    if d > c + first.len() && ci_has_at_exec(s, d, second) {
        assert(d + second@.len() <= s.len());
        Some(d + second.len())
    } else {
        None
    }
}

fn after_quote_exec(s: &Vec<char>, k: usize) -> (r: usize)
    requires
        k <= s.len(),
    ensures
        r as int == after_quote(s@, k as int),
        r <= s.len(),
{
    if k < s.len() && (s[k] == '"' || s[k] == '\'') {
        k + 1
    } else {
        k
    }
}

/// The literals an inline image is read by.
struct ImageWords {
    img: Vec<char>,
    class: Vec<char>,
    math: Vec<char>,
    inline: Vec<char>,
    alt: Vec<char>,
}

impl ImageWords {
    spec fn wf(&self) -> bool {
        &&& self.img@ == "<img"@
        &&& self.class@ == "class"@
        &&& self.math@ == "math"@
        &&& self.inline@ == "inline"@
        &&& self.alt@ == "alt"@
        &&& self.img@.len() == 4
        &&& self.class@.len() == 5
        &&& self.alt@.len() == 3
    }

    fn new() -> (r: ImageWords)
        ensures
            r.wf(),
    {
        proof {
            reveal_strlit("<img");
            reveal_strlit("class");
            reveal_strlit("alt");
        }
        ImageWords {
            img: chars_of("<img"),
            class: chars_of("class"),
            math: chars_of("math"),
            inline: chars_of("inline"),
            alt: chars_of("alt"),
        }
    }
}

fn inline_class_exec(s: &Vec<char>, q: usize, w: &ImageWords) -> (r: Option<usize>)
    requires
        w.wf(),
    ensures
        match r {
            Some(y) => inline_class_at(s@, q as int) == Some(y as int) && q < y <= s.len(),
            None => inline_class_at(s@, q as int) is None,
        },
{
    if !ci_has_at_exec(s, q, &w.class) {
        return None;
    }
    assert(q + w.class@.len() <= s.len());
    proof {
        lemma_skip_ws(s@, q + 5);
    }
    let a = skip_ws_exec(s, q + 5);
    if !(a < s.len() && s[a] == '=') {
        return None;
    }
    proof {
        lemma_skip_ws(s@, a + 1);
    }
    let b = skip_ws_exec(s, a + 1);
    let c = after_quote_exec(s, b);
    match ci_words_end_exec(s, c, &w.math, &w.inline) {
        Some(e) => Some(after_quote_exec(s, e)),
        None => match ci_words_end_exec(s, c, &w.inline, &w.math) {
            Some(e) => Some(after_quote_exec(s, e)),
            None => None,
        },
    }
}

fn quote_run_end_exec(s: &Vec<char>, k: usize) -> (r: usize)
    requires
        k <= s.len(),
    ensures
        r as int == quote_run_end(s@, k as int),
        k <= r <= s.len(),
{
    let mut i = k;
    while i < s.len() && !(s[i] == '"' || s[i] == '\'')
        invariant
            k <= i <= s.len(),
            quote_run_end(s@, k as int) == quote_run_end(s@, i as int),
        decreases s.len() - i,
    {
        i = i + 1;
    }
    i
}

fn last_gt_exec(s: &Vec<char>, lo: usize, hi: usize) -> (r: Option<usize>)
    requires
        hi <= s.len(),
    ensures
        match r {
            Some(k) => last_gt(s@, lo as int, hi as int) == Some(k as int) && lo <= k < hi,
            None => last_gt(s@, lo as int, hi as int) is None,
        },
{
    let mut h = hi;
    while h > lo
        invariant
            h <= hi <= s.len(),
            last_gt(s@, lo as int, hi as int) == last_gt(s@, lo as int, h as int),
        decreases h,
    {
        if s[h - 1] == '>' {
            return Some(h - 1);
        }
        h = h - 1;
    }
    None
}

fn alt_exec(s: &Vec<char>, p: usize, w: &ImageWords) -> (r: Option<(usize, usize, usize)>)
    requires
        w.wf(),
    ensures
        match r {
            Some((a, b, e)) => alt_at(s@, p as int) == Some((a as int, b as int, e as int)) && a <= b < e
                <= s.len(),
            None => alt_at(s@, p as int) is None,
        },
{
    if !ci_has_at_exec(s, p, &w.alt) {
        return None;
    }
    assert(p + w.alt@.len() <= s.len());
    proof {
        lemma_skip_ws(s@, p + 3);
    }
    let a = skip_ws_exec(s, p + 3);
    if !(a < s.len() && s[a] == '=') {
        return None;
    }
    proof {
        lemma_skip_ws(s@, a + 1);
    }
    let b = skip_ws_exec(s, a + 1);
    let g = after_quote_exec(s, b);
    let e = quote_run_end_exec(s, g);
    if e <= g {
        return None;
    }
    if e < s.len() {
        proof {
            lemma_run_until(s@, e + 1, '>');
        }
        let r = run_until_exec(s, e + 1, '>');
        if r < s.len() {
            return Some((g, e, r + 1));
        }
    }
    match last_gt_exec(s, g + 1, e) {
        Some(r) => Some((g, r, r + 1)),
        None => None,
    }
}

fn first_alt_exec(s: &Vec<char>, from: usize, stop: usize, w: &ImageWords) -> (r: Option<(usize, usize, usize)>)
    requires
        w.wf(),
    ensures
        match r {
            Some((a, b, e)) => first_alt(s@, from as int, stop as int) == Some((a as int, b as int, e as int))
                && a <= b < e <= s.len(),
            None => first_alt(s@, from as int, stop as int) is None,
        },
{
    if from > stop {
        return None;
    }
    let mut p = from;
    while p < stop
        invariant
            w.wf(),
            from <= p <= stop,
            first_alt(s@, from as int, stop as int) == first_alt(s@, p as int, stop as int),
        decreases stop - p,
    {
        match alt_exec(s, p, w) {
            Some(m) => {
                return Some(m);
            },
            None => {},
        }
        p = p + 1;
    }
    proof {
        reveal_with_fuel(first_alt, 2);
    }
    alt_exec(s, p, w)
}

fn first_class_alt_exec(s: &Vec<char>, from: usize, stop: usize, w: &ImageWords) -> (r: Option<
    (usize, usize, usize),
>)
    requires
        w.wf(),
        stop <= s.len(),
    ensures
        match r {
            Some((a, b, e)) => first_class_alt(s@, from as int, stop as int) == Some(
                (a as int, b as int, e as int),
            ) && a <= b < e <= s.len(),
            None => first_class_alt(s@, from as int, stop as int) is None,
        },
{
    let mut q = from;
    while q < stop
        invariant
            w.wf(),
            from <= q,
            stop <= s.len(),
            first_class_alt(s@, from as int, stop as int) == first_class_alt(s@, q as int, stop as int),
        decreases stop - q,
    {
        match inline_class_exec(s, q, w) {
            Some(y) => {
                proof {
                    lemma_run_until(s@, y as int, '>');
                }
                let r = run_until_exec(s, y, '>');
                match first_alt_exec(s, y, r, w) {
                    Some(m) => {
                        return Some(m);
                    },
                    None => {},
                }
            },
            None => {},
        }
        q = q + 1;
    }
    None
}

fn inline_image_exec(s: &Vec<char>, i: usize, w: &ImageWords) -> (r: Option<(usize, usize, usize)>)
    requires
        w.wf(),
    ensures
        match r {
            Some((a, b, e)) => inline_image_at(s@, i as int) == Some((a as int, b as int, e as int)) && a
                <= b < e <= s.len(),
            None => inline_image_at(s@, i as int) is None,
        },
{
    if !ci_has_at_exec(s, i, &w.img) {
        return None;
    }
    assert(i + w.img@.len() <= s.len());
    proof {
        lemma_run_until(s@, i + 4, '>');
    }
    let r = run_until_exec(s, i + 4, '>');
    first_class_alt_exec(s, i + 4, r, w)
}

/// Replaces each inline equation image (an image of class `math inline`)
/// whose LaTeX, read from its `alt` text, is simple by that LaTeX written as
/// Unicode HTML.
pub fn unicode_inline_math(html: &str) -> (r: String)
    ensures
        r@ == inline_math_from(html@, 0),
{
    let s = chars_of(html);
    let w = ImageWords::new();
    let mut out: Vec<char> = Vec::new();
    let mut i: usize = 0;
    while i < s.len()
        invariant
            w.wf(),
            i <= s.len(),
            s@ == html@,
            out@ + inline_math_from(s@, i as int) == inline_math_from(s@, 0),
        decreases s.len() - i,
    {
        let ghost prev = out@;
        let mut done = false;
        match inline_image_exec(&s, i, &w) {
            Some((a, b, e)) => {
                if i < e {
                    let alt = string_of(&copy_range(&s, a, b));
                    match latex_to_unicode_html(alt.as_str()) {
                        Some(h) => {
                            let hc = chars_of(h.as_str());
                            append(&mut out, &hc);
                            assert(out@ + inline_math_from(s@, e as int) =~= prev + (h@ + inline_math_from(
                                s@,
                                e as int,
                            )));
                        },
                        None => {
                            append_range(&mut out, &s, i, e);
                            assert(out@ + inline_math_from(s@, e as int) =~= prev + (s@.subrange(
                                i as int,
                                e as int,
                            ) + inline_math_from(s@, e as int)));
                        },
                    }
                    i = e;
                    done = true;
                }
            },
            None => {},
        }
        if !done {
            out.push(s[i]);
            assert(out@ + inline_math_from(s@, i + 1) =~= prev + (seq![s@[i as int]] + inline_math_from(s@, i + 1)));
            i = i + 1;
        }
    }
    assert(out@ + inline_math_from(s@, i as int) =~= out@);
    string_of(&out)
}

// ---------------------------------------------------------------------------
// Laws.
// ---------------------------------------------------------------------------

proof fn lemma_no_tag_here(s: Seq<char>, i: int)
    requires
        !s.contains('<'),
    ensures
        lone_display_at(s, i) is None,
        inline_image_at(s, i) is None,
{
    reveal_strlit("<p>");
    reveal_strlit("<img");
    if has_at(s, i, "<p>"@) {
        assert(s.subrange(i, i + 3)[0] == s[i]);
        assert(s[i] == '<');
    }
    if ci_has_at(s, i, "<img"@) {
        assert(ci_char(s[i + 0], "<img"@[0]));
        assert(s[i] == '<');
    }
}

proof fn lemma_untouched_from(s: Seq<char>, i: int)
    requires
        !s.contains('<'),
        0 <= i <= s.len(),
    ensures
        figures_from(s, i) == s.subrange(i, s.len() as int),
        inline_math_from(s, i) == s.subrange(i, s.len() as int),
    decreases s.len() - i,
{
    if i < s.len() {
        lemma_no_tag_here(s, i);
        lemma_untouched_from(s, i + 1);
        assert(seq![s[i]] + s.subrange(i + 1, s.len() as int) =~= s.subrange(i, s.len() as int));
    } else {
        assert(s.subrange(i, s.len() as int) =~= Seq::<char>::empty());
    }
}

/// A page without tags has no equation images: both post-processing steps
/// leave it unchanged.
pub proof fn law_text_without_tags_is_untouched(s: Seq<char>)
    requires
        !s.contains('<'),
    ensures
        figures_from(s, 0) == s,
        inline_math_from(s, 0) == s,
{
    lemma_untouched_from(s, 0);
    assert(s.subrange(0, s.len() as int) =~= s);
}

} // verus!
