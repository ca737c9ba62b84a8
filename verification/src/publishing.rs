//! The conversions of a manuscript with Pandoc and LaTeX: the sources they
//! are given, their command-line arguments, the style of the HTML they
//! write, and what a failed run reports.
use vstd::prelude::*;
use crate::diagnostics::{
    compiler_errors, context_from_source, context_line, diagnostics_of, parse_compiler_errors,
    Diagnostic, LaTeXError,
};
use crate::mathfix::{sanitize_math_environments, sanitized};
use crate::numbering::{detect_document_has_chapters, has_chapters, lemma_skip_ws, skip_ws, skip_ws_exec};
use crate::references::{resolve_panics, resolved, try_resolve_equation_references};
use crate::spelling::{
    begins, equals, lemma_run_until, opt_text, push_string, push_text, run_until, run_until_exec,
    same_chars, strings,
};
use crate::suggest::{generate_suggestion, suggestion};
use crate::text::{
    chars_of, contains, contains_exec, copy_range, has_at, has_at_exec, is_white, is_ws, lines,
    lowercase, push_chars, push_str, split_lines, starts_with, string_of, to_lowercase, trim,
    trim_range, views,
};

verus! {

/// Macros that manuscripts use and the converters lack, defined only where
/// the document does not define them.
pub const COMPAT_MACROS: &'static str = "\\providecommand{\\vect}[1]{\\mathbf{#1}}\n\\providecommand{\\symbf}[1]{\\mathbf{#1}}\n\\providecommand{\\jump}[1]{[#1]}\n\\providecommand{\\abs}[1]{|#1|}\n\\providecommand{\\norm}[1]{\\|#1\\|}\n\\providecommand{\\eval}[1]{#1}\n\n";

/// The message of a failed PDF run that names no line.
pub const PDF_FAILURE_FALLBACK: &'static str = "Pandoc or the PDF engine failed without a source location.";

/// The opening of the table rules, before the width.
pub const TABLE_CSS_OPEN: &'static str = "table { border-collapse: collapse !important; ";

/// What follows the width in the table rule.
pub const TABLE_CSS_CLOSE: &'static str = "; display: table !important; } ";

pub const AUTO_WIDTH_CSS: &'static str = "width: auto !important; margin: 1em auto !important;";

pub const FULL_WIDTH_CSS: &'static str = "width: 100% !important; margin: 1em 0 !important;";

pub const BOOKTABS_CSS: &'static str = "th { border-top: 2px solid var(--text-primary, #111) !important; border-bottom: 1px solid var(--text-primary, #111) !important; padding: 8px 14px !important; text-align: left !important; } td { border-bottom: 1px solid #eee !important; padding: 8px 14px !important; text-align: left !important; } tr:last-child td { border-bottom: 2px solid var(--text-primary, #111) !important; }";

pub const GRID_CSS: &'static str = "th, td { border: 1px solid #ccc !important; padding: 8px 14px !important; text-align: left !important; } th { background-color: rgba(0,0,0,0.05) !important; }";

pub const STRIPED_CSS: &'static str = "th { border-bottom: 2px solid #ccc !important; padding: 8px 14px !important; text-align: left !important; } td { padding: 8px 14px !important; border-bottom: 1px solid #eee !important; text-align: left !important; } tr:nth-child(even) { background-color: rgba(0,0,0,0.03) !important; }";

pub const MINIMALIST_CSS: &'static str = "th, td { padding: 8px 14px !important; border-bottom: 1px solid #eee !important; text-align: left !important; }";

/// The dark page for white mathematics.
pub const DARK_PAGE_CSS: &'static str = "body { background-color: #121212 !important; color: #ffffff !important; } a { color: #38bdf8 !important; } img.math { filter: drop-shadow(0px 0px 0.1px rgba(255, 255, 255, 1)) brightness(2.5) contrast(2); image-rendering: -webkit-optimize-contrast; }";

/// The texts joined with `sep` between them.
pub open spec fn joined(ws: Seq<Seq<char>>, sep: Seq<char>) -> Seq<char>
    decreases ws.len(),
{
    if ws.len() == 0 {
        seq![]
    } else if ws.len() == 1 {
        ws[0]
    } else {
        joined(ws.drop_last(), sep) + sep + ws.last()
    }
}

pub fn join_strings(ws: &Vec<String>, sep: &str) -> (r: String)
    ensures
        r@ == joined(strings(ws@), sep@),
{
    let mut out = String::new();
    let mut k: usize = 0;
    while k < ws.len()
        invariant
            k <= ws.len(),
            out@ == joined(strings(ws@).subrange(0, k as int), sep@),
        decreases ws.len() - k,
    {
        if k > 0 {
            push_str(&mut out, sep);
        }
        push_str(&mut out, ws[k].as_str());
        assert(strings(ws@).subrange(0, k + 1).drop_last() =~= strings(ws@).subrange(0, k as int));
        k = k + 1;
    }
    assert(strings(ws@).subrange(0, k as int) =~= strings(ws@));
    out
}

/// The log line that shows a command.
pub open spec fn command_line(program: Seq<char>, args: Seq<Seq<char>>) -> Seq<char> {
    "Command: "@ + program + " "@ + joined(args, " "@) + "\n\n"@
}

pub fn command_log(program: &str, args: &Vec<String>) -> (r: String)
    ensures
        r@ == command_line(program@, strings(args@)),
{
    let mut out = String::from_str("Command: ");
    push_str(&mut out, program);
    push_str(&mut out, " ");
    let j = join_strings(args, " ");
    push_str(&mut out, j.as_str());
    push_str(&mut out, "\n\n");
    out
}

// ---------------------------------------------------------------------------
// Sources.
// ---------------------------------------------------------------------------

/// The Markdown given to Pandoc for a PDF: the compatibility macros, then
/// the manuscript, with its mathematics cleaned up before and after its
/// equation references are resolved; `None` where resolving cannot proceed.
pub open spec fn pdf_source(source: Seq<char>) -> Option<Seq<char>> {
    let t = sanitized(COMPAT_MACROS@ + source);
    if resolve_panics(t) {
        None
    } else {
        Some(sanitized(resolved(t)))
    }
}

pub fn prepare_pdf_source(source: &str) -> (r: Option<String>)
    ensures
        opt_text(r) == pdf_source(source@),
{
    let mut t = String::from_str(COMPAT_MACROS);
    push_str(&mut t, source);
    let t = sanitize_math_environments(t.as_str());
    match try_resolve_equation_references(t.as_str()) {
        Some(r) => Some(sanitize_math_environments(r.as_str())),
        None => None,
    }
}

/// `\newpage` or `\clearpage` (named `cmd`, without its backslash) at `i`,
/// not followed by a word character.
pub open spec fn page_break_at(t: Seq<char>, i: int, cmd: Seq<char>) -> bool {
    has_at(t, i, seq!['\\'] + cmd) && (i + 1 + cmd.len() == t.len() || (0 <= i + 1 + cmd.len() < t.len()
        && !crate::text::word_char(t[i + 1 + cmd.len()])))
}

/// Each page break `\cmd` written as an empty `cmd` environment, which the
/// Word filter turns into a page break.
pub open spec fn page_breaks_from(t: Seq<char>, i: int, cmd: Seq<char>) -> Seq<char>
    decreases t.len() - i,
{
    if i < 0 || i >= t.len() {
        seq![]
    } else if page_break_at(t, i, cmd) {
        "\\begin{"@ + cmd + "}\\end{"@ + cmd + "}"@ + page_breaks_from(t, i + 1 + cmd.len(), cmd)
    } else {
        seq![t[i]] + page_breaks_from(t, i + 1, cmd)
    }
}

fn page_breaks_exec(t: &Vec<char>, cmd: &str) -> (r: Vec<char>)
    ensures
        r@ == page_breaks_from(t@, 0, cmd@),
{
    let c = chars_of(cmd);
    let mut pat: Vec<char> = Vec::new();
    pat.push('\\');
    let mut k: usize = 0;
    while k < c.len()
        invariant
            k <= c.len(),
            pat@ == seq!['\\'] + c@.subrange(0, k as int),
        decreases c.len() - k,
    {
        pat.push(c[k]);
        assert(c@.subrange(0, k + 1) =~= c@.subrange(0, k as int).push(c@[k as int]));
        k = k + 1;
    }
    assert(c@.subrange(0, k as int) =~= c@);
    let mut rep = String::from_str("\\begin{");
    push_str(&mut rep, cmd);
    push_str(&mut rep, "}\\end{");
    push_str(&mut rep, cmd);
    push_str(&mut rep, "}");
    let rep = chars_of(rep.as_str());
    let mut out: Vec<char> = Vec::new();
    let mut i: usize = 0;
    while i < t.len()
        invariant
            i <= t.len(),
            pat@ == seq!['\\'] + cmd@,
            rep@ == "\\begin{"@ + cmd@ + "}\\end{"@ + cmd@ + "}"@,
            out@ + page_breaks_from(t@, i as int, cmd@) == page_breaks_from(t@, 0, cmd@),
        decreases t.len() - i,
    {
        let ghost before = out@;
        if has_at_exec(t, i, &pat) && crate::text::word_ends_at_exec(t, i + pat.len()) {
            assert(page_break_at(t@, i as int, cmd@));
            let mut q: usize = 0;
            while q < rep.len()
                invariant
                    q <= rep.len(),
                    out@ == before + rep@.subrange(0, q as int),
                decreases rep.len() - q,
            {
                out.push(rep[q]);
                assert(rep@.subrange(0, q + 1) =~= rep@.subrange(0, q as int).push(rep@[q as int]));
                q = q + 1;
            }
            assert(rep@.subrange(0, q as int) =~= rep@);
            assert(out@ + page_breaks_from(t@, i + pat@.len(), cmd@) =~= before + (rep@ + page_breaks_from(
                t@,
                i + pat@.len(),
                cmd@,
            )));
            i = i + pat.len();
        } else {
            assert(!page_break_at(t@, i as int, cmd@));
            out.push(t[i]);
            assert(out@ + page_breaks_from(t@, i + 1, cmd@) =~= before + (seq![t@[i as int]]
                + page_breaks_from(t@, i + 1, cmd@)));
            i = i + 1;
        }
    }
    assert(out@ + page_breaks_from(t@, i as int, cmd@) =~= out@);
    out
}

/// The LaTeX or Markdown given to Pandoc for a Word document: the
/// compatibility macros, then the manuscript, cleaned up; LaTeX page breaks
/// become environments; then equation references are resolved and the
/// mathematics cleaned again.  `None` where resolving cannot proceed.
pub open spec fn docx_source(content: Seq<char>, is_tex: bool) -> Option<Seq<char>> {
    let t0 = sanitized(COMPAT_MACROS@ + content);
    let t1 = if is_tex {
        page_breaks_from(page_breaks_from(t0, 0, "newpage"@), 0, "clearpage"@)
    } else {
        t0
    };
    if resolve_panics(t1) {
        None
    } else {
        Some(sanitized(resolved(t1)))
    }
}

/// `\addbibresource{NAME}` or `\bibliography{NAME}` at `i`: the bounds of NAME.
pub open spec fn bib_command_at(t: Seq<char>, i: int) -> Option<(int, int)> {
    let open = if has_at(t, i, "\\addbibresource{"@) {
        "\\addbibresource{"@
    } else {
        "\\bibliography{"@
    };
    if has_at(t, i, open) {
        let a = i + open.len();
        let e = run_until(t, a, '}');
        if e > a && e < t.len() {
            Some((a, e))
        } else {
            None
        }
    } else {
        None
    }
}

pub open spec fn first_bib_command(t: Seq<char>, i: int) -> Option<(int, int)>
    decreases t.len() - i,
{
    if i < 0 || i >= t.len() {
        None
    } else if bib_command_at(t, i) is Some {
        bib_command_at(t, i)
    } else {
        first_bib_command(t, i + 1)
    }
}

/// A file name as a bibliography command names it: `.bib` is added where
/// the name has no extension.
pub open spec fn bib_file_name(name: Seq<char>) -> Seq<char> {
    if !crate::text::ends_with(name, ".bib"@) && !name.contains('.') {
        name + ".bib"@
    } else {
        name
    }
}

/// The bibliography that a LaTeX source names, after its compatibility
/// macros and clean-up (the first bibliography command).
pub open spec fn named_bibliography(content: Seq<char>) -> Option<Seq<char>> {
    let t0 = sanitized(COMPAT_MACROS@ + content);
    match first_bib_command(t0, 0) {
        Some((a, e)) => Some(bib_file_name(t0.subrange(a, e))),
        None => None,
    }
}

/// What a Word conversion is given: its source, and for LaTeX the
/// bibliography that the source names.
pub struct DocxInput {
    pub source: Option<String>,
    pub bibliography: Option<String>,
}

fn has_char(t: &Vec<char>, c: char) -> (r: bool)
    ensures
        r == t@.contains(c),
{
    let mut k: usize = 0;
    while k < t.len()
        invariant
            k <= t.len(),
            forall|j: int| 0 <= j < k ==> t@[j] != c,
        decreases t.len() - k,
    {
        if t[k] == c {
            assert(t@[k as int] == c);
            return true;
        }
        k = k + 1;
    }
    false
}

fn first_bib_command_exec(t: &Vec<char>) -> (r: Option<(usize, usize)>)
    ensures
        match r {
            Some((a, e)) => first_bib_command(t@, 0) == Some((a as int, e as int)) && a <= e <= t.len(),
            None => first_bib_command(t@, 0) is None,
        },
{
    let add = chars_of("\\addbibresource{");
    let bib = chars_of("\\bibliography{");
    let mut i: usize = 0;
    while i < t.len()
        invariant
            i <= t.len(),
            add@ == "\\addbibresource{"@,
            bib@ == "\\bibliography{"@,
            first_bib_command(t@, 0) == first_bib_command(t@, i as int),
        decreases t.len() - i,
    {
        let open = if has_at_exec(t, i, &add) {
            &add
        } else {
            &bib
        };
        if has_at_exec(t, i, open) {
            assert(i + open@.len() <= t.len());
            let a = i + open.len();
            proof {
                lemma_run_until(t@, a as int, '}');
            }
            let e = run_until_exec(t, a, '}');
            if e > a && e < t.len() {
                return Some((a, e));
            }
        }
        i = i + 1;
    }
    None
}

/// Prepares a Word conversion: the source, and, for a LaTeX manuscript
/// given without a bibliography file, the bibliography it names.
pub fn prepare_docx_input(content: &str, is_tex: bool, bib_given: bool) -> (r: DocxInput)
    ensures
        opt_text(r.source) == docx_source(content@, is_tex),
        opt_text(r.bibliography) == (if is_tex && !bib_given {
            named_bibliography(content@)
        } else {
            None
        }),
{
    let mut t = String::from_str(COMPAT_MACROS);
    push_str(&mut t, content);
    let t0 = chars_of(sanitize_math_environments(t.as_str()).as_str());
    let bibliography = if is_tex && !bib_given {
        match first_bib_command_exec(&t0) {
            Some((a, e)) => {
                let mut name = copy_range(&t0, a, e);
                let ends = name.len() >= 4 && has_at_exec(&name, name.len() - 4, &chars_of(".bib"));
                proof {
                    reveal_strlit(".bib");
                }
                if !ends && !has_char(&name, '.') {
                    name.push('.');
                    name.push('b');
                    name.push('i');
                    name.push('b');
                    assert(name@ =~= t0@.subrange(a as int, e as int) + ".bib"@);
                }
                Some(string_of(&name))
            },
            None => None,
        }
    } else {
        None
    };
    let t1 = if is_tex {
        let a = page_breaks_exec(&t0, "newpage");
        page_breaks_exec(&a, "clearpage")
    } else {
        t0
    };
    let t1s = string_of(&t1);
    let source = match try_resolve_equation_references(t1s.as_str()) {
        Some(r) => Some(sanitize_math_environments(r.as_str())),
        None => None,
    };
    DocxInput { source, bibliography }
}

// ---------------------------------------------------------------------------
// PDF.
// ---------------------------------------------------------------------------

/// `s` with every leading copy of `p` removed.
pub open spec fn strip_prefixes(s: Seq<char>, p: Seq<char>) -> Seq<char>
    decreases s.len(),
{
    if p.len() > 0 && starts_with(s, p) {
        strip_prefixes(s.subrange(p.len() as int, s.len() as int), p)
    } else {
        s
    }
}

/// The paper size options for a named or custom size (lowercased).
pub open spec fn paper_options(size: Seq<char>) -> Seq<Seq<char>> {
    if starts_with(size, "custom:"@) {
        let dims = strip_prefixes(size, "custom:"@);
        let c = run_until(dims, 0, ',');
        if c < dims.len() && run_until(dims, c + 1, ',') == dims.len() {
            seq!["paperwidth="@ + dims.subrange(0, c), "paperheight="@ + dims.subrange(c + 1, dims.len() as int)]
        } else {
            seq!["paperwidth="@ + dims]
        }
    } else if size == "6x9"@ {
        seq!["paperwidth=6in"@, "paperheight=9in"@]
    } else if size == "5.5x8.5"@ {
        seq!["paperwidth=5.5in"@, "paperheight=8.5in"@]
    } else if size == "5x8"@ {
        seq!["paperwidth=5in"@, "paperheight=8in"@]
    } else if size == "7x10"@ {
        seq!["paperwidth=7in"@, "paperheight=10in"@]
    } else if size == "8x10"@ {
        seq!["paperwidth=8in"@, "paperheight=10in"@]
    } else {
        seq![size + "paper"@]
    }
}

/// The page geometry options: the paper (if a size is given) and the margin
/// (if one is given).
pub open spec fn geometry_options_of(page_size: Seq<char>, page_margin: Seq<char>) -> Seq<Seq<char>> {
    (if page_size.len() > 0 {
        paper_options(lowercase(page_size))
    } else {
        seq![]
    }) + (if page_margin.len() > 0 {
        seq!["margin="@ + page_margin]
    } else {
        seq![]
    })
}

fn strip_custom(t: &Vec<char>) -> (r: Vec<char>)
    ensures
        r@ == strip_prefixes(t@, "custom:"@),
{
    let p = chars_of("custom:");
    proof {
        reveal_strlit("custom:");
    }
    let mut k: usize = 0;
    assert(t@.subrange(0, t@.len() as int) =~= t@);
    while has_at_exec(t, k, &p)
        invariant
            p@ == "custom:"@,
            p@.len() == 7,
            k <= t.len(),
            strip_prefixes(t@, "custom:"@) == strip_prefixes(t@.subrange(k as int, t@.len() as int), "custom:"@),
        decreases t.len() - k,
    {
        let ghost rest = t@.subrange(k as int, t@.len() as int);
        assert(starts_with(rest, p@)) by {
            assert(rest.subrange(0, 7) =~= t@.subrange(k as int, k + 7));
        }
        assert(rest.subrange(7, rest.len() as int) =~= t@.subrange(k + 7, t@.len() as int));
        k = k + 7;
    }
    let ghost rest = t@.subrange(k as int, t@.len() as int);
    assert(!starts_with(rest, p@)) by {
        if starts_with(rest, p@) {
            assert(rest.subrange(0, 7) =~= t@.subrange(k as int, k + 7));
        }
    }
    copy_range(t, k, t.len())
}

/// The page geometry options for `page_size` (a name such as `a4`, `6x9`,
/// or `custom:WIDTH,HEIGHT`) and `page_margin`.
pub fn geometry_options(page_size: &str, page_margin: &str) -> (r: Vec<String>)
    ensures
        strings(r@) == geometry_options_of(page_size@, page_margin@),
{
    let mut out: Vec<String> = Vec::new();
    let size = chars_of(page_size);
    if size.len() > 0 {
        let lower_s = to_lowercase(page_size);
        let lower = chars_of(lower_s.as_str());
        if begins(&lower, "custom:") {
            let dims = strip_custom(&lower);
            proof {
                lemma_run_until(dims@, 0, ',');
            }
            let c = run_until_exec(&dims, 0, ',');
            let two = if c < dims.len() {
                proof {
                    lemma_run_until(dims@, c + 1, ',');
                }
                run_until_exec(&dims, c + 1, ',') == dims.len()
            } else {
                false
            };
            if two {
                let mut w = String::from_str("paperwidth=");
                crate::text::push_range(&mut w, &dims, 0, c);
                let mut h = String::from_str("paperheight=");
                crate::text::push_range(&mut h, &dims, c + 1, dims.len());
                push_string(&mut out, w);
                push_string(&mut out, h);
                assert(strings(out@) =~= paper_options(lower@));
            } else {
                let mut w = String::from_str("paperwidth=");
                push_chars(&mut w, &dims);
                push_string(&mut out, w);
                assert(strings(out@) =~= paper_options(lower@));
            }
        } else if equals(&lower, "6x9") {
            push_text(&mut out, "paperwidth=6in");
            push_text(&mut out, "paperheight=9in");
            assert(strings(out@) =~= paper_options(lower@));
        } else if equals(&lower, "5.5x8.5") {
            push_text(&mut out, "paperwidth=5.5in");
            push_text(&mut out, "paperheight=8.5in");
            assert(strings(out@) =~= paper_options(lower@));
        } else if equals(&lower, "5x8") {
            push_text(&mut out, "paperwidth=5in");
            push_text(&mut out, "paperheight=8in");
            assert(strings(out@) =~= paper_options(lower@));
        } else if equals(&lower, "7x10") {
            push_text(&mut out, "paperwidth=7in");
            push_text(&mut out, "paperheight=10in");
            assert(strings(out@) =~= paper_options(lower@));
        } else if equals(&lower, "8x10") {
            push_text(&mut out, "paperwidth=8in");
            push_text(&mut out, "paperheight=10in");
            assert(strings(out@) =~= paper_options(lower@));
        } else {
            let mut w = lower_s;
            push_str(&mut w, "paper");
            push_string(&mut out, w);
            assert(strings(out@) =~= paper_options(lower@));
        }
        assert(strings(out@) =~= paper_options(lowercase(page_size@)));
    } else {
        assert(strings(out@) =~= Seq::<Seq<char>>::empty());
    }
    let ghost paper = strings(out@);
    if chars_of(page_margin).len() > 0 {
        let mut m = String::from_str("margin=");
        push_str(&mut m, page_margin);
        push_string(&mut out, m);
    }
    assert(strings(out@) =~= geometry_options_of(page_size@, page_margin@));
    out
}

/// The options of a PDF conversion.
pub struct PdfOptions {
    pub engine: String,
    pub toc: bool,
    pub number_sections: bool,
    pub left_align: bool,
    pub unicode_math: bool,
    pub page_size: String,
    pub page_margin: String,
    pub use_citeproc: bool,
}

/// The class options: a book-like class for documents with chapters, an
/// article otherwise, where the source names no class itself.
pub open spec fn class_arguments(chapters: bool, has_class: bool) -> Seq<Seq<char>> {
    if chapters {
        seq!["--top-level-division=chapter"@] + (if !has_class {
            seq!["-V"@, "documentclass=report"@, "-V"@, "classoption=oneside"@, "-V"@, "classoption=openany"@]
        } else {
            seq![]
        })
    } else if !has_class {
        seq!["-V"@, "documentclass=article"@]
    } else {
        seq![]
    }
}

/// The header additions: a no-op `\partokencontext`, and ragged-right text
/// where asked for.
pub open spec fn pdf_header(left_align: bool) -> Seq<char> {
    "\\providecommand{\\partokencontext}[1]{}"@ + (if left_align {
        " \\usepackage[document]{ragged2e}"@
    } else {
        seq![]
    })
}

fn push_class_arguments(args: &mut Vec<String>, content: &str)
    ensures
        strings(final(args)@) == strings(old(args)@) + class_arguments(
            has_chapters(content@),
            contains(content@, "documentclass"@),
        ),
{
    let chapters = detect_document_has_chapters(content);
    let has_class = contains_exec(&chars_of(content), &chars_of("documentclass"));
    if chapters {
        push_text(args, "--top-level-division=chapter");
        if !has_class {
            push_text(args, "-V");
            push_text(args, "documentclass=report");
            push_text(args, "-V");
            push_text(args, "classoption=oneside");
            push_text(args, "-V");
            push_text(args, "classoption=openany");
        }
    } else if !has_class {
        push_text(args, "-V");
        push_text(args, "documentclass=article");
    }
    assert(strings(args@) =~= strings(old(args)@) + class_arguments(chapters, has_class));
}

pub open spec fn geometry_arguments(page_size: Seq<char>, page_margin: Seq<char>) -> Seq<Seq<char>> {
    let geometry = geometry_options_of(page_size, page_margin);
    if geometry.len() > 0 {
        seq!["-V"@, "geometry:"@ + joined(geometry, ","@)]
    } else {
        seq![]
    }
}

fn push_geometry_arguments(args: &mut Vec<String>, page_size: &str, page_margin: &str)
    ensures
        strings(final(args)@) == strings(old(args)@) + geometry_arguments(page_size@, page_margin@),
{
    let geometry = geometry_options(page_size, page_margin);
    if geometry.len() > 0 {
        push_text(args, "-V");
        let mut g = String::from_str("geometry:");
        let j = join_strings(&geometry, ",");
        push_str(&mut g, j.as_str());
        push_string(args, g);
    }
    assert(strings(args@) =~= strings(old(args)@) + geometry_arguments(page_size@, page_margin@));
}

pub open spec fn layout_arguments(toc: bool, number_sections: bool, left_align: bool, unicode_math: bool) -> Seq<
    Seq<char>,
> {
    (if toc {
        seq!["--table-of-contents"@]
    } else {
        seq![]
    }) + (if number_sections {
        seq!["--number-sections"@]
    } else {
        seq![]
    }) + seq!["-V"@, "header-includes="@ + pdf_header(left_align)] + (if unicode_math {
        seq![
            "-V"@,
            "mainfont=Latin Modern Roman"@,
            "-V"@,
            "mathfont=Latin Modern Math"@,
            "-V"@,
            "monofont=Latin Modern Mono"@,
        ]
    } else {
        seq![]
    })
}

fn push_layout_arguments(args: &mut Vec<String>, options: &PdfOptions)
    ensures
        strings(final(args)@) == strings(old(args)@) + layout_arguments(
            options.toc,
            options.number_sections,
            options.left_align,
            options.unicode_math,
        ),
{
    if options.toc {
        push_text(args, "--table-of-contents");
    }
    if options.number_sections {
        push_text(args, "--number-sections");
    }
    let ghost a3 = strings(args@);
    push_text(args, "-V");
    let mut h = String::from_str("header-includes=\\providecommand{\\partokencontext}[1]{}");
    if options.left_align {
        push_str(&mut h, " \\usepackage[document]{ragged2e}");
    }
    assert(h@ =~= "header-includes="@ + pdf_header(options.left_align)) by {
        reveal_strlit("header-includes=\\providecommand{\\partokencontext}[1]{}");
        reveal_strlit("header-includes=");
        reveal_strlit("\\providecommand{\\partokencontext}[1]{}");
    }
    push_string(args, h);
    if options.unicode_math {
        push_text(args, "-V");
        push_text(args, "mainfont=Latin Modern Roman");
        push_text(args, "-V");
        push_text(args, "mathfont=Latin Modern Math");
        push_text(args, "-V");
        push_text(args, "monofont=Latin Modern Mono");
    }
    assert(strings(args@) =~= strings(old(args)@) + layout_arguments(
        options.toc,
        options.number_sections,
        options.left_align,
        options.unicode_math,
    ));
}

pub open spec fn bibliography_arguments(use_citeproc: bool, bib: Seq<char>, csl: Seq<char>) -> Seq<Seq<char>> {
    seq![
        "-V"@,
        "reference-section-title=References"@,
        "--metadata"@,
        "reference-section-title=References"@,
    ] + (if bib.len() > 0 {
        seq!["--bibliography"@, bib]
    } else {
        seq![]
    }) + (if use_citeproc || bib.len() > 0 {
        seq!["--citeproc"@]
    } else {
        seq![]
    }) + (if csl.len() > 0 {
        seq!["--csl"@, csl]
    } else {
        seq![]
    })
}

fn push_bibliography_arguments(args: &mut Vec<String>, use_citeproc: bool, bib: &str, csl: &str)
    ensures
        strings(final(args)@) == strings(old(args)@) + bibliography_arguments(use_citeproc, bib@, csl@),
{
    push_text(args, "-V");
    push_text(args, "reference-section-title=References");
    push_text(args, "--metadata");
    push_text(args, "reference-section-title=References");
    let has_bib = chars_of(bib).len() > 0;
    if has_bib {
        push_text(args, "--bibliography");
        push_text(args, bib);
    }
    if use_citeproc || has_bib {
        push_text(args, "--citeproc");
    }
    if chars_of(csl).len() > 0 {
        push_text(args, "--csl");
        push_text(args, csl);
    }
    assert(strings(args@) =~= strings(old(args)@) + bibliography_arguments(use_citeproc, bib@, csl@));
}

/// The arguments of a PDF conversion of the prepared source `content`
/// (read from `input`, written to `output`), with the copied bibliography
/// and style files `bib` and `csl` (empty where there are none).
pub open spec fn pdf_arguments_of(
    input: Seq<char>,
    output: Seq<char>,
    content: Seq<char>,
    engine: Seq<char>,
    toc: bool,
    number_sections: bool,
    left_align: bool,
    unicode_math: bool,
    page_size: Seq<char>,
    page_margin: Seq<char>,
    use_citeproc: bool,
    bib: Seq<char>,
    csl: Seq<char>,
) -> Seq<Seq<char>> {
    seq![input, "--from"@, "markdown"@, "--to"@, "pdf"@, "--pdf-engine="@ + engine, "-o"@, output]
        + class_arguments(has_chapters(content), contains(content, "documentclass"@)) + geometry_arguments(
        page_size,
        page_margin,
    ) + layout_arguments(toc, number_sections, left_align, unicode_math) + bibliography_arguments(
        use_citeproc,
        bib,
        csl,
    )
}

pub fn pdf_arguments(
    input: &str,
    output: &str,
    content: &str,
    options: &PdfOptions,
    bib: &str,
    csl: &str,
) -> (r: Vec<String>)
    ensures
        strings(r@) == pdf_arguments_of(
            input@,
            output@,
            content@,
            options.engine@,
            options.toc,
            options.number_sections,
            options.left_align,
            options.unicode_math,
            options.page_size@,
            options.page_margin@,
            options.use_citeproc,
            bib@,
            csl@,
        ),
{
    let mut args: Vec<String> = Vec::new();
    push_text(&mut args, input);
    push_text(&mut args, "--from");
    push_text(&mut args, "markdown");
    push_text(&mut args, "--to");
    push_text(&mut args, "pdf");
    let mut eng = String::from_str("--pdf-engine=");
    push_str(&mut eng, options.engine.as_str());
    push_string(&mut args, eng);
    push_text(&mut args, "-o");
    push_text(&mut args, output);
    let ghost a0 = strings(args@);
    push_class_arguments(&mut args, content);
    let ghost a1 = strings(args@);
    push_geometry_arguments(&mut args, options.page_size.as_str(), options.page_margin.as_str());
    let ghost a2 = strings(args@);
    push_layout_arguments(&mut args, options);
    let ghost a3 = strings(args@);
    push_bibliography_arguments(&mut args, options.use_citeproc, bib, csl);
    let ghost a4 = strings(args@);
    assert(a0 =~= seq![input@, "--from"@, "markdown"@, "--to"@, "pdf"@, "--pdf-engine="@ + options.engine@, "-o"@, output@]);
    assert(a4 =~= a0 + class_arguments(has_chapters(content@), contains(content@, "documentclass"@))
        + geometry_arguments(options.page_size@, options.page_margin@) + layout_arguments(
        options.toc,
        options.number_sections,
        options.left_align,
        options.unicode_math,
    ) + bibliography_arguments(options.use_citeproc, bib@, csl@));
    args
}

proof fn lemma_concat_lacks(a: Seq<Seq<char>>, b: Seq<Seq<char>>, x: Seq<char>)
    requires
        !a.contains(x),
        !b.contains(x),
    ensures
        !(a + b).contains(x),
{
    if (a + b).contains(x) {
        let k = choose|k: int| 0 <= k < (a + b).len() && (a + b)[k] == x;
        if k < a.len() {
            assert(a[k] == x);
        } else {
            assert(b[k - a.len()] == x);
        }
    }
}

/// A literal argument of another length, or one whose character at `k`
/// differs, is not `--number-sections`.
proof fn lemma_not_number_sections(a: Seq<char>, rest: Seq<char>, k: int)
    requires
        0 <= k < a.len(),
        k < "--number-sections"@.len(),
        a[k] != "--number-sections"@[k],
    ensures
        a + rest != "--number-sections"@,
{
    assert((a + rest)[k] == a[k]);
}

proof fn lemma_lacks_when_all_differ(s: Seq<Seq<char>>, x: Seq<char>)
    requires
        forall|k: int| 0 <= k < s.len() ==> #[trigger] s[k] != x,
    ensures
        !s.contains(x),
{
}

#[verifier::spinoff_prover]
proof fn lemma_fixed_pdf_arguments_lack_numbering(
    input: Seq<char>,
    output: Seq<char>,
    content: Seq<char>,
    engine: Seq<char>,
    unicode_math: bool,
    use_citeproc: bool,
    bib: Seq<char>,
    csl: Seq<char>,
)
    requires
        input != "--number-sections"@,
        output != "--number-sections"@,
        bib != "--number-sections"@,
        csl != "--number-sections"@,
    ensures
        !seq![input, "--from"@, "markdown"@, "--to"@, "pdf"@, "--pdf-engine="@ + engine, "-o"@, output].contains(
            "--number-sections"@,
        ),
        !class_arguments(has_chapters(content), contains(content, "documentclass"@)).contains("--number-sections"@),
        !(if unicode_math {
            seq![
                "-V"@,
                "mainfont=Latin Modern Roman"@,
                "-V"@,
                "mathfont=Latin Modern Math"@,
                "-V"@,
                "monofont=Latin Modern Mono"@,
            ]
        } else {
            seq![]
        }).contains("--number-sections"@),
        !bibliography_arguments(use_citeproc, bib, csl).contains("--number-sections"@),
{
    let ns = "--number-sections"@;
    reveal_strlit("--number-sections");
    reveal_strlit("--from");
    reveal_strlit("markdown");
    reveal_strlit("--to");
    reveal_strlit("pdf");
    reveal_strlit("--pdf-engine=");
    reveal_strlit("-o");
    reveal_strlit("--top-level-division=chapter");
    reveal_strlit("-V");
    reveal_strlit("documentclass=report");
    reveal_strlit("classoption=oneside");
    reveal_strlit("classoption=openany");
    reveal_strlit("documentclass=article");
    reveal_strlit("mainfont=Latin Modern Roman");
    reveal_strlit("mathfont=Latin Modern Math");
    reveal_strlit("monofont=Latin Modern Mono");
    reveal_strlit("reference-section-title=References");
    reveal_strlit("--metadata");
    reveal_strlit("--bibliography");
    reveal_strlit("--citeproc");
    reveal_strlit("--csl");
    lemma_not_number_sections("--pdf-engine="@, engine, 2);
    let first = seq![input, "--from"@, "markdown"@, "--to"@, "pdf"@, "--pdf-engine="@ + engine, "-o"@, output];
    assert(first.len() == 8);
    assert(first[0] == input);
    assert(first[1] == "--from"@);
    assert(first[2] == "markdown"@);
    assert(first[3] == "--to"@);
    assert(first[4] == "pdf"@);
    assert(first[5] == "--pdf-engine="@ + engine);
    assert(first[6] == "-o"@);
    assert(first[7] == output);
    assert(first[1].len() != ns.len());
    assert(first[2].len() != ns.len());
    assert(first[3].len() != ns.len());
    assert(first[4].len() != ns.len());
    assert(first[6].len() != ns.len());
    assert forall|k: int| 0 <= k < first.len() implies #[trigger] first[k] != ns by {
        if k == 0 {
        } else if k == 1 {
        } else if k == 2 {
        } else if k == 3 {
        } else if k == 4 {
        } else if k == 5 {
        } else if k == 6 {
        } else {
            assert(k == 7);
        }
    }
    lemma_lacks_when_all_differ(first, ns);
    let cls = class_arguments(has_chapters(content), contains(content, "documentclass"@));
    let chapters = has_chapters(content);
    let has_class = contains(content, "documentclass"@);
    if chapters && !has_class {
        let c = seq!["--top-level-division=chapter"@, "-V"@, "documentclass=report"@, "-V"@, "classoption=oneside"@, "-V"@, "classoption=openany"@];
        assert(cls =~= c);
        assert forall|k: int| 0 <= k < c.len() implies #[trigger] c[k].len() != ns.len() by {
            if k == 0 {
            } else if k == 1 {
            } else if k == 2 {
            } else if k == 3 {
            } else if k == 4 {
            } else if k == 5 {
            } else {
                assert(k == 6);
            }
        }
    } else if chapters {
        assert(cls =~= seq!["--top-level-division=chapter"@]);
    } else if !has_class {
        let c = seq!["-V"@, "documentclass=article"@];
        assert(cls =~= c);
        assert forall|k: int| 0 <= k < c.len() implies #[trigger] c[k].len() != ns.len() by {
            if k == 0 {
            } else {
            }
        }
    } else {
        assert(cls =~= Seq::<Seq<char>>::empty());
    }
    assert forall|k: int| 0 <= k < cls.len() implies #[trigger] cls[k] != ns by {
        assert(cls[k].len() != ns.len());
    }
    lemma_lacks_when_all_differ(cls, ns);
    let fonts: Seq<Seq<char>> = if unicode_math {
        seq![
            "-V"@,
            "mainfont=Latin Modern Roman"@,
            "-V"@,
            "mathfont=Latin Modern Math"@,
            "-V"@,
            "monofont=Latin Modern Mono"@,
        ]
    } else {
        seq![]
    };
    assert forall|k: int| 0 <= k < fonts.len() implies #[trigger] fonts[k] != ns by {
        if k == 0 {
        } else if k == 1 {
        } else if k == 2 {
        } else if k == 3 {
        } else if k == 4 {
        } else {
        }
    }
    lemma_lacks_when_all_differ(fonts, ns);
    let b0 = seq!["-V"@, "reference-section-title=References"@, "--metadata"@, "reference-section-title=References"@];
    assert forall|k: int| 0 <= k < b0.len() implies #[trigger] b0[k] != ns by {
        if k == 0 {
        } else if k == 1 {
        } else if k == 2 {
        } else {
        }
    }
    lemma_lacks_when_all_differ(b0, ns);
    let b1: Seq<Seq<char>> = if bib.len() > 0 {
        seq!["--bibliography"@, bib]
    } else {
        seq![]
    };
    assert forall|k: int| 0 <= k < b1.len() implies #[trigger] b1[k] != ns by {
        if k == 0 {
        } else {
        }
    }
    lemma_lacks_when_all_differ(b1, ns);
    let b2: Seq<Seq<char>> = if use_citeproc || bib.len() > 0 {
        seq!["--citeproc"@]
    } else {
        seq![]
    };
    assert forall|k: int| 0 <= k < b2.len() implies #[trigger] b2[k] != ns by {}
    lemma_lacks_when_all_differ(b2, ns);
    let b3: Seq<Seq<char>> = if csl.len() > 0 {
        seq!["--csl"@, csl]
    } else {
        seq![]
    };
    assert forall|k: int| 0 <= k < b3.len() implies #[trigger] b3[k] != ns by {
        if k == 0 {
        } else {
        }
    }
    lemma_lacks_when_all_differ(b3, ns);
    lemma_concat_lacks(b0, b1, ns);
    lemma_concat_lacks(b0 + b1, b2, ns);
    lemma_concat_lacks(b0 + b1 + b2, b3, ns);
    assert(bibliography_arguments(use_citeproc, bib, csl) =~= b0 + b1 + b2 + b3);
}

proof fn lemma_layout_arguments_lack_numbering(
    page_size: Seq<char>,
    page_margin: Seq<char>,
    toc: bool,
    left_align: bool,
)
    ensures
        !geometry_arguments(page_size, page_margin).contains("--number-sections"@),
        !(if toc {
            seq!["--table-of-contents"@]
        } else {
            Seq::<Seq<char>>::empty()
        }).contains("--number-sections"@),
        !seq!["-V"@, "header-includes="@ + pdf_header(left_align)].contains("--number-sections"@),
{
    let ns = "--number-sections"@;
    reveal_strlit("--number-sections");
    reveal_strlit("-V");
    reveal_strlit("geometry:");
    reveal_strlit("--table-of-contents");
    reveal_strlit("header-includes=");
    let g = "geometry:"@ + joined(geometry_options_of(page_size, page_margin), ","@);
    let h = "header-includes="@ + pdf_header(left_align);
    lemma_not_number_sections("geometry:"@, joined(geometry_options_of(page_size, page_margin), ","@), 0);
    lemma_not_number_sections("header-includes="@, pdf_header(left_align), 0);
    assert(g != ns);
    assert(h != ns);
    assert("-V"@.len() != ns.len());
    assert("--table-of-contents"@.len() != ns.len());
    let geo = geometry_arguments(page_size, page_margin);
    if geo.len() > 0 {
        assert(geo =~= seq!["-V"@, g]);
        assert(geo[0] == "-V"@ && geo[1] == g);
        assert forall|k: int| 0 <= k < geo.len() implies #[trigger] geo[k] != ns by {
            if k == 0 {
            } else {
                assert(k == 1);
            }
        }
    }
    lemma_lacks_when_all_differ(geo, ns);
    let toc_args: Seq<Seq<char>> = if toc {
        seq!["--table-of-contents"@]
    } else {
        Seq::<Seq<char>>::empty()
    };
    assert forall|k: int| 0 <= k < toc_args.len() implies #[trigger] toc_args[k] != ns by {
        assert(k == 0);
    }
    lemma_lacks_when_all_differ(toc_args, ns);
    let hdr = seq!["-V"@, h];
    assert(hdr[0] == "-V"@ && hdr[1] == h);
    assert forall|k: int| 0 <= k < hdr.len() implies #[trigger] hdr[k] != ns by {
        if k == 0 {
        } else {
            assert(k == 1);
        }
    }
    lemma_lacks_when_all_differ(hdr, ns);
}

/// A PDF conversion numbers its sections exactly when asked to: with
/// numbering the arguments hold `--number-sections`, and they are those
/// without numbering with that one argument added; without numbering no
/// argument is `--number-sections` (unless a file name given is).
#[verifier::spinoff_prover]
pub proof fn law_pdf_numbers_sections_when_asked(
    input: Seq<char>,
    output: Seq<char>,
    content: Seq<char>,
    engine: Seq<char>,
    toc: bool,
    left_align: bool,
    unicode_math: bool,
    page_size: Seq<char>,
    page_margin: Seq<char>,
    use_citeproc: bool,
    bib: Seq<char>,
    csl: Seq<char>,
)
    ensures
        pdf_arguments_of(input, output, content, engine, toc, true, left_align, unicode_math, page_size, page_margin, use_citeproc, bib, csl).contains("--number-sections"@),
        ({
            let with = pdf_arguments_of(input, output, content, engine, toc, true, left_align, unicode_math, page_size, page_margin, use_citeproc, bib, csl);
            let without = pdf_arguments_of(input, output, content, engine, toc, false, left_align, unicode_math, page_size, page_margin, use_citeproc, bib, csl);
            exists|k: int|
                0 <= k <= without.len() && with == without.subrange(0, k) + seq!["--number-sections"@]
                    + without.subrange(k, without.len() as int)
        }),
        input != "--number-sections"@ && output != "--number-sections"@ && bib != "--number-sections"@ && csl
            != "--number-sections"@ ==> !pdf_arguments_of(input, output, content, engine, toc, false, left_align, unicode_math, page_size, page_margin, use_citeproc, bib, csl).contains("--number-sections"@),
{
    let ns = "--number-sections"@;
    let head = seq![input, "--from"@, "markdown"@, "--to"@, "pdf"@, "--pdf-engine="@ + engine, "-o"@, output]
        + class_arguments(has_chapters(content), contains(content, "documentclass"@)) + geometry_arguments(
        page_size,
        page_margin,
    );
    let toc_args: Seq<Seq<char>> = if toc {
        seq!["--table-of-contents"@]
    } else {
        seq![]
    };
    let tail = seq!["-V"@, "header-includes="@ + pdf_header(left_align)] + (if unicode_math {
        seq![
            "-V"@,
            "mainfont=Latin Modern Roman"@,
            "-V"@,
            "mathfont=Latin Modern Math"@,
            "-V"@,
            "monofont=Latin Modern Mono"@,
        ]
    } else {
        seq![]
    }) + bibliography_arguments(use_citeproc, bib, csl);
    let with = pdf_arguments_of(input, output, content, engine, toc, true, left_align, unicode_math, page_size, page_margin, use_citeproc, bib, csl);
    let without = pdf_arguments_of(input, output, content, engine, toc, false, left_align, unicode_math, page_size, page_margin, use_citeproc, bib, csl);
    assert(with =~= (head + toc_args) + seq![ns] + tail);
    assert(without =~= (head + toc_args) + tail);
    let k = (head + toc_args).len() as int;
    assert(without.subrange(0, k) =~= head + toc_args);
    assert(without.subrange(k, without.len() as int) =~= tail);
    assert(with[k] == ns);
    if input != ns && output != ns && bib != ns && csl != ns {
        reveal_strlit("--number-sections");
        reveal_strlit("-V");
        reveal_strlit("geometry:");
        reveal_strlit("--table-of-contents");
        reveal_strlit("header-includes=");
        lemma_fixed_pdf_arguments_lack_numbering(input, output, content, engine, unicode_math, use_citeproc, bib, csl);
        let first = seq![input, "--from"@, "markdown"@, "--to"@, "pdf"@, "--pdf-engine="@ + engine, "-o"@, output];
        let cls = class_arguments(has_chapters(content), contains(content, "documentclass"@));
        let geo = geometry_arguments(page_size, page_margin);
        let hdr = seq!["-V"@, "header-includes="@ + pdf_header(left_align)];
        lemma_layout_arguments_lack_numbering(page_size, page_margin, toc, left_align);
        let fonts: Seq<Seq<char>> = if unicode_math {
            seq![
                "-V"@,
                "mainfont=Latin Modern Roman"@,
                "-V"@,
                "mathfont=Latin Modern Math"@,
                "-V"@,
                "monofont=Latin Modern Mono"@,
            ]
        } else {
            seq![]
        };
        let bibs = bibliography_arguments(use_citeproc, bib, csl);
        lemma_concat_lacks(first, cls, ns);
        lemma_concat_lacks(first + cls, geo, ns);
        lemma_concat_lacks(first + cls + geo, toc_args, ns);
        lemma_concat_lacks(hdr, fonts, ns);
        lemma_concat_lacks(hdr + fonts, bibs, ns);
        assert(head + toc_args =~= first + cls + geo + toc_args);
        assert(tail =~= hdr + fonts + bibs);
        lemma_concat_lacks(head + toc_args, tail, ns);
    }
}

/// A PDF conversion asked for a table of contents says so to Pandoc.
pub proof fn law_pdf_table_of_contents_when_asked(
    input: Seq<char>,
    output: Seq<char>,
    content: Seq<char>,
    engine: Seq<char>,
    number_sections: bool,
    left_align: bool,
    unicode_math: bool,
    page_size: Seq<char>,
    page_margin: Seq<char>,
    use_citeproc: bool,
    bib: Seq<char>,
    csl: Seq<char>,
)
    ensures
        pdf_arguments_of(input, output, content, engine, true, number_sections, left_align, unicode_math, page_size, page_margin, use_citeproc, bib, csl).contains("--table-of-contents"@),
{
    let head = seq![input, "--from"@, "markdown"@, "--to"@, "pdf"@, "--pdf-engine="@ + engine, "-o"@, output]
        + class_arguments(has_chapters(content), contains(content, "documentclass"@)) + geometry_arguments(
        page_size,
        page_margin,
    );
    let a = pdf_arguments_of(input, output, content, engine, true, number_sections, left_align, unicode_math, page_size, page_margin, use_citeproc, bib, csl);
    assert(a[head.len() as int] == "--table-of-contents"@);
}

/// The first line of a PDF engine's error output that says something and is
/// not the generic `Error producing PDF`, trimmed.
pub open spec fn failure_headline(ls: Seq<Seq<char>>, k: int) -> Option<Seq<char>>
    decreases ls.len() - k,
{
    if k < 0 || k >= ls.len() {
        None
    } else if trim(ls[k]).len() > 0 && !starts_with(ls[k], "Error producing PDF"@) {
        Some(trim(ls[k]))
    } else {
        failure_headline(ls, k + 1)
    }
}

/// What a failed PDF conversion reports: the errors that its output names,
/// mapped back to the manuscript, or else one error at line 1 that quotes
/// the first meaningful line of the error output.
pub open spec fn pdf_failure(stdout: Seq<char>, stderr: Seq<char>, source: Seq<char>) -> Seq<Diagnostic> {
    let es = compiler_errors(stdout + seq!['\n'] + stderr, source, true);
    if es.len() > 0 {
        es
    } else {
        let message = match failure_headline(lines(stderr), 0) {
            Some(m) => m,
            None => trim(PDF_FAILURE_FALLBACK@),
        };
        seq![
            Diagnostic {
                line: 1,
                message,
                context: context_line(lines(source), 1),
                suggestion: suggestion(message, seq![]),
            },
        ]
    }
}

pub fn pdf_failure_errors(stdout: &str, stderr: &str, source: &str) -> (r: Vec<LaTeXError>)
    ensures
        diagnostics_of(r@) == pdf_failure(stdout@, stderr@, source@),
{
    let mut combined = String::from_str(stdout);
    combined.push('\n');
    push_str(&mut combined, stderr);
    assert(combined@ =~= stdout@ + seq!['\n'] + stderr@);
    let mut errors = parse_compiler_errors(combined.as_str(), source, true);
    if errors.len() > 0 {
        return errors;
    }
    let ls = split_lines(&chars_of(stderr));
    let generic = chars_of("Error producing PDF");
    let mut found: Option<Vec<char>> = None;
    let mut k: usize = 0;
    while k < ls.len() && found.is_none()
        invariant
            k <= ls.len(),
            views(ls@) == lines(stderr@),
            generic@ == "Error producing PDF"@,
            found is None ==> failure_headline(lines(stderr@), 0) == failure_headline(lines(stderr@), k as int),
            found matches Some(m) ==> failure_headline(lines(stderr@), 0) == Some(m@),
        decreases ls.len() - k,
    {
        let l = &ls[k];
        let (a, b) = trim_range(l, 0, l.len());
        assert(l@.subrange(0, l@.len() as int) =~= l@);
        if a < b && !has_at_exec(l, 0, &generic) {
            found = Some(copy_range(l, a, b));
        }
        k = k + 1;
    }
    let message = match found {
        Some(m) => string_of(&m),
        None => {
            let f = chars_of(PDF_FAILURE_FALLBACK);
            let (a, b) = trim_range(&f, 0, f.len());
            assert(f@.subrange(0, f@.len() as int) =~= f@);
            string_of(&copy_range(&f, a, b))
        },
    };
    let context = context_from_source(source, 1);
    let sugg = generate_suggestion(message.as_str(), "");
    proof {
        reveal_strlit("");
    }
    let ghost e = Diagnostic { line: 1, message: message@, context: context@, suggestion: sugg@ };
    errors.push(LaTeXError { line: 1, message, context, suggestion: sugg });
    assert(diagnostics_of(errors@) =~= seq![e]);
    errors
}

/// What a failed direct LaTeX run reports: the errors that its output names.
pub fn tex_failure_errors(stdout: &str, stderr: &str, source: &str) -> (r: Vec<LaTeXError>)
    ensures
        diagnostics_of(r@) == compiler_errors(stdout@ + seq!['\n'] + stderr@, source@, false),
{
    let mut combined = String::from_str(stdout);
    combined.push('\n');
    push_str(&mut combined, stderr);
    assert(combined@ =~= stdout@ + seq!['\n'] + stderr@);
    parse_compiler_errors(combined.as_str(), source, false)
}

// ---------------------------------------------------------------------------
// HTML.
// ---------------------------------------------------------------------------

/// The first index from `k` that holds white space (or the end).
pub open spec fn word_run_end(s: Seq<char>, k: int) -> int
    decreases s.len() - k,
{
    if 0 <= k < s.len() && !is_ws(s[k]) {
        word_run_end(s, k + 1)
    } else {
        k
    }
}

/// The first white-space separated word.
pub open spec fn first_word(s: Seq<char>) -> Option<Seq<char>> {
    let a = skip_ws(s, 0);
    if a >= s.len() {
        None
    } else {
        Some(s.subrange(a, word_run_end(s, a)))
    }
}

/// The LaTeX size command for a resolution (its first word, 120 by default).
pub open spec fn size_command(math_size: Seq<char>) -> Seq<char> {
    let dpi = match first_word(math_size) {
        Some(w) => w,
        None => "120"@,
    };
    if dpi == "80"@ {
        "\\small "@
    } else if dpi == "100"@ || dpi == "110"@ {
        "\\normalsize "@
    } else if dpi == "120"@ {
        "\\large "@
    } else if dpi == "150"@ || dpi == "160"@ {
        "\\Large "@
    } else if dpi == "180"@ {
        "\\huge "@
    } else if dpi == "200"@ {
        "\\Huge "@
    } else {
        "\\normalsize "@
    }
}

/// The LaTeX colour command for the foreground choice.
pub open spec fn color_command(math_fg: Seq<char>) -> Seq<char> {
    if contains(math_fg, "Black"@) {
        "\\color{black} "@
    } else if contains(math_fg, "White"@) {
        "\\color{white} "@
    } else {
        seq![]
    }
}

/// A character of the style as written in the URL.
pub open spec fn url_char(c: char) -> Seq<char> {
    if c == '\\' {
        "%5C"@
    } else if c == '{' {
        "%7B"@
    } else if c == '}' {
        "%7D"@
    } else if c == ' ' {
        "%20"@
    } else {
        seq![c]
    }
}

pub open spec fn url_encoded(s: Seq<char>) -> Seq<char>
    decreases s.len(),
{
    if s.len() == 0 {
        seq![]
    } else {
        url_encoded(s.drop_last()) + url_char(s.last())
    }
}

/// The address of the image service for the equations, with the colour and
/// size commands that every equation is drawn with.
pub open spec fn webtex_url_of(math_style: Seq<char>, math_fg: Seq<char>, math_size: Seq<char>) -> Seq<char> {
    let ext = if contains(math_style, "PNG"@) {
        "png"@
    } else {
        "svg"@
    };
    "https://latex.codecogs.com/"@ + ext + ".latex?"@ + url_encoded(color_command(math_fg) + size_command(math_size))
}

/// How the equations are written: MathJax, images of the service, or MathML.
pub open spec fn math_argument_of(math_style: Seq<char>, math_fg: Seq<char>, math_size: Seq<char>) -> Seq<char> {
    if contains(math_style, "MathJax"@) {
        "--mathjax"@
    } else if contains(math_style, "SVG"@) || contains(math_style, "PNG"@) || contains(math_style, "WebTeX"@) {
        "--webtex="@ + webtex_url_of(math_style, math_fg, math_size)
    } else {
        "--mathml"@
    }
}

fn word_run_end_exec(s: &Vec<char>, k: usize) -> (r: usize)
    requires
        k <= s.len(),
    ensures
        r as int == word_run_end(s@, k as int),
        k <= r <= s.len(),
{
    let mut i = k;
    while i < s.len() && !is_white(s[i])
        invariant
            k <= i <= s.len(),
            word_run_end(s@, k as int) == word_run_end(s@, i as int),
        decreases s.len() - i,
    {
        i = i + 1;
    }
    i
}

fn size_command_exec(math_size: &str) -> (r: &'static str)
    ensures
        r@ == size_command(math_size@),
{
    let s = chars_of(math_size);
    proof {
        lemma_skip_ws(s@, 0);
    }
    let a = skip_ws_exec(&s, 0);
    let dpi = if a >= s.len() {
        chars_of("120")
    } else {
        let e = word_run_end_exec(&s, a);
        copy_range(&s, a, e)
    };
    if equals(&dpi, "80") {
        "\\small "
    } else if equals(&dpi, "100") || equals(&dpi, "110") {
        "\\normalsize "
    } else if equals(&dpi, "120") {
        "\\large "
    } else if equals(&dpi, "150") || equals(&dpi, "160") {
        "\\Large "
    } else if equals(&dpi, "180") {
        "\\huge "
    } else if equals(&dpi, "200") {
        "\\Huge "
    } else {
        "\\normalsize "
    }
}

fn color_command_exec(math_fg: &str) -> (r: &'static str)
    ensures
        r@ == color_command(math_fg@),
{
    let fg = chars_of(math_fg);
    proof {
        reveal_strlit("");
    }
    if contains_exec(&fg, &chars_of("Black")) {
        "\\color{black} "
    } else if contains_exec(&fg, &chars_of("White")) {
        "\\color{white} "
    } else {
        ""
    }
}

/// The address of the equation image service for the given style, colour and size.
pub fn webtex_url(math_style: &str, math_fg: &str, math_size: &str) -> (r: String)
    ensures
        r@ == webtex_url_of(math_style@, math_fg@, math_size@),
{
    let mut style = String::from_str(color_command_exec(math_fg));
    push_str(&mut style, size_command_exec(math_size));
    let sc = chars_of(style.as_str());
    let mut enc = String::new();
    let mut k: usize = 0;
    assert(sc@.subrange(0, 0) =~= Seq::<char>::empty());
    while k < sc.len()
        invariant
            k <= sc.len(),
            enc@ == url_encoded(sc@.subrange(0, k as int)),
        decreases sc.len() - k,
    {
        let c = sc[k];
        if c == '\\' {
            push_str(&mut enc, "%5C");
        } else if c == '{' {
            push_str(&mut enc, "%7B");
        } else if c == '}' {
            push_str(&mut enc, "%7D");
        } else if c == ' ' {
            push_str(&mut enc, "%20");
        } else {
            enc.push(c);
        }
        assert(sc@.subrange(0, k + 1).drop_last() =~= sc@.subrange(0, k as int));
        k = k + 1;
    }
    assert(sc@.subrange(0, k as int) =~= sc@);
    let png = contains_exec(&chars_of(math_style), &chars_of("PNG"));
    let mut url = String::from_str("https://latex.codecogs.com/");
    push_str(&mut url, if png {
        "png"
    } else {
        "svg"
    });
    push_str(&mut url, ".latex?");
    push_str(&mut url, enc.as_str());
    url
}

/// The Pandoc option that says how equations are written.
pub fn math_argument(math_style: &str, math_fg: &str, math_size: &str) -> (r: String)
    ensures
        r@ == math_argument_of(math_style@, math_fg@, math_size@),
{
    let st = chars_of(math_style);
    if contains_exec(&st, &chars_of("MathJax")) {
        String::from_str("--mathjax")
    } else if contains_exec(&st, &chars_of("SVG")) || contains_exec(&st, &chars_of("PNG"))
        || contains_exec(&st, &chars_of("WebTeX")) {
        let mut a = String::from_str("--webtex=");
        let u = webtex_url(math_style, math_fg, math_size);
        push_str(&mut a, u.as_str());
        a
    } else {
        String::from_str("--mathml")
    }
}

/// The style sheet of the page: the table rules for the chosen style and
/// width, and a dark page for white equations.
pub open spec fn page_css(table_width: Seq<char>, table_style: Seq<char>, math_fg: Seq<char>) -> Seq<char> {
    let width = if table_width == "auto"@ {
        AUTO_WIDTH_CSS@
    } else {
        FULL_WIDTH_CSS@
    };
    let rules = if table_style == "booktabs"@ {
        BOOKTABS_CSS@
    } else if table_style == "grid"@ {
        GRID_CSS@
    } else if table_style == "striped"@ {
        STRIPED_CSS@
    } else {
        MINIMALIST_CSS@
    };
    TABLE_CSS_OPEN@ + width + TABLE_CSS_CLOSE@ + rules + (if contains(math_fg, "White"@) {
        DARK_PAGE_CSS@
    } else {
        seq![]
    })
}

pub fn page_style(table_width: &str, table_style: &str, math_fg: &str) -> (r: String)
    ensures
        r@ == page_css(table_width@, table_style@, math_fg@),
{
    let w = chars_of(table_width);
    let st = chars_of(table_style);
    let mut css = String::from_str(TABLE_CSS_OPEN);
    push_str(&mut css, if equals(&w, "auto") {
        AUTO_WIDTH_CSS
    } else {
        FULL_WIDTH_CSS
    });
    push_str(&mut css, TABLE_CSS_CLOSE);
    push_str(&mut css, if equals(&st, "booktabs") {
        BOOKTABS_CSS
    } else if equals(&st, "grid") {
        GRID_CSS
    } else if equals(&st, "striped") {
        STRIPED_CSS
    } else {
        MINIMALIST_CSS
    });
    if contains_exec(&chars_of(math_fg), &chars_of("White")) {
        push_str(&mut css, DARK_PAGE_CSS);
    }
    proof {
        reveal_strlit("");
    }
    assert(css@ =~= page_css(table_width@, table_style@, math_fg@));
    css
}

/// The options of an HTML conversion.
pub struct HtmlOptions {
    pub math_style: String,
    pub math_fg: String,
    pub math_size: String,
    pub use_citeproc: bool,
    pub toc: bool,
    pub number_sections: bool,
    pub table_width: String,
    pub table_style: String,
}

/// The arguments of an HTML conversion of `input` (LaTeX or Markdown) to a
/// standalone page `output`.
pub open spec fn html_arguments_of(
    input: Seq<char>,
    output: Seq<char>,
    is_tex: bool,
    math_style: Seq<char>,
    math_fg: Seq<char>,
    math_size: Seq<char>,
    use_citeproc: bool,
    bib: Seq<char>,
    csl: Seq<char>,
    toc: bool,
    number_sections: bool,
    table_width: Seq<char>,
    table_style: Seq<char>,
) -> Seq<Seq<char>> {
    seq![
        input,
        "--from"@,
        if is_tex {
            "latex"@
        } else {
            "markdown"@
        },
        "--to"@,
        "html5"@,
        math_argument_of(math_style, math_fg, math_size),
        "-s"@,
        "-o"@,
        output,
    ] + (if use_citeproc {
        seq!["--citeproc"@]
    } else {
        seq![]
    }) + (if bib.len() > 0 {
        seq!["--bibliography"@, bib]
    } else {
        seq![]
    }) + (if csl.len() > 0 {
        seq!["--csl"@, csl]
    } else {
        seq![]
    }) + (if !is_tex && toc {
        seq!["--table-of-contents"@]
    } else {
        seq![]
    }) + (if !is_tex && number_sections {
        seq!["--number-sections"@]
    } else {
        seq![]
    }) + seq!["-V"@, "header-includes=<style>"@ + page_css(table_width, table_style, math_fg) + "</style>"@]
}

#[verifier::spinoff_prover]
#[verifier::rlimit(40)]
pub fn html_arguments(
    input: &str,
    output: &str,
    is_tex: bool,
    options: &HtmlOptions,
    bib: &str,
    csl: &str,
) -> (r: Vec<String>)
    ensures
        strings(r@) == html_arguments_of(
            input@,
            output@,
            is_tex,
            options.math_style@,
            options.math_fg@,
            options.math_size@,
            options.use_citeproc,
            bib@,
            csl@,
            options.toc,
            options.number_sections,
            options.table_width@,
            options.table_style@,
        ),
{
    let mut args: Vec<String> = Vec::new();
    push_text(&mut args, input);
    push_text(&mut args, "--from");
    push_text(&mut args, if is_tex {
        "latex"
    } else {
        "markdown"
    });
    push_text(&mut args, "--to");
    push_text(&mut args, "html5");
    push_string(
        &mut args,
        math_argument(options.math_style.as_str(), options.math_fg.as_str(), options.math_size.as_str()),
    );
    push_text(&mut args, "-s");
    push_text(&mut args, "-o");
    push_text(&mut args, output);
    let ghost a0 = strings(args@);
    if options.use_citeproc {
        push_text(&mut args, "--citeproc");
    }
    if chars_of(bib).len() > 0 {
        push_text(&mut args, "--bibliography");
        push_text(&mut args, bib);
    }
    if chars_of(csl).len() > 0 {
        push_text(&mut args, "--csl");
        push_text(&mut args, csl);
    }
    if !is_tex {
        if options.toc {
            push_text(&mut args, "--table-of-contents");
        }
        if options.number_sections {
            push_text(&mut args, "--number-sections");
        }
    }
    let ghost a1 = strings(args@);
    push_text(&mut args, "-V");
    let mut h = String::from_str("header-includes=<style>");
    let css = page_style(options.table_width.as_str(), options.table_style.as_str(), options.math_fg.as_str());
    push_str(&mut h, css.as_str());
    push_str(&mut h, "</style>");
    push_string(&mut args, h);
    assert(strings(args@) =~= html_arguments_of(
        input@,
        output@,
        is_tex,
        options.math_style@,
        options.math_fg@,
        options.math_size@,
        options.use_citeproc,
        bib@,
        csl@,
        options.toc,
        options.number_sections,
        options.table_width@,
        options.table_style@,
    ));
    args
}

// ---------------------------------------------------------------------------
// Word and LaTeX.
// ---------------------------------------------------------------------------

/// The arguments of a Word conversion of `input` with the reference
/// document and the page-break filter.
pub open spec fn docx_arguments_of(
    input: Seq<char>,
    is_tex: bool,
    chapters: bool,
    reference_doc: Seq<char>,
    lua_filter: Seq<char>,
    output: Seq<char>,
    use_citeproc: bool,
    bib: Seq<char>,
) -> Seq<Seq<char>> {
    seq![
        input,
        "--from"@,
        if is_tex {
            "latex"@
        } else {
            "markdown"@
        },
        "--to"@,
        "docx"@,
        "--table-of-contents"@,
        "--number-sections"@,
        "-V"@,
        "reference-section-title=References"@,
        "--metadata"@,
        "reference-section-title=References"@,
    ] + (if chapters {
        seq!["--top-level-division=chapter"@]
    } else {
        seq![]
    }) + seq!["--reference-doc"@, reference_doc, "--lua-filter"@, lua_filter, "-o"@, output] + (if use_citeproc
        || bib.len() > 0 {
        seq!["--citeproc"@]
    } else {
        seq![]
    }) + (if bib.len() > 0 {
        seq!["--bibliography"@, bib]
    } else {
        seq![]
    })
}

pub fn docx_arguments(
    input: &str,
    is_tex: bool,
    chapters: bool,
    reference_doc: &str,
    lua_filter: &str,
    output: &str,
    use_citeproc: bool,
    bib: &str,
) -> (r: Vec<String>)
    ensures
        strings(r@) == docx_arguments_of(
            input@,
            is_tex,
            chapters,
            reference_doc@,
            lua_filter@,
            output@,
            use_citeproc,
            bib@,
        ),
{
    let mut args: Vec<String> = Vec::new();
    push_text(&mut args, input);
    push_text(&mut args, "--from");
    push_text(&mut args, if is_tex {
        "latex"
    } else {
        "markdown"
    });
    push_text(&mut args, "--to");
    push_text(&mut args, "docx");
    push_text(&mut args, "--table-of-contents");
    push_text(&mut args, "--number-sections");
    push_text(&mut args, "-V");
    push_text(&mut args, "reference-section-title=References");
    push_text(&mut args, "--metadata");
    push_text(&mut args, "reference-section-title=References");
    if chapters {
        push_text(&mut args, "--top-level-division=chapter");
    }
    push_text(&mut args, "--reference-doc");
    push_text(&mut args, reference_doc);
    push_text(&mut args, "--lua-filter");
    push_text(&mut args, lua_filter);
    push_text(&mut args, "-o");
    push_text(&mut args, output);
    let has_bib = chars_of(bib).len() > 0;
    if use_citeproc || has_bib {
        push_text(&mut args, "--citeproc");
    }
    if has_bib {
        push_text(&mut args, "--bibliography");
        push_text(&mut args, bib);
    }
    assert(strings(args@) =~= docx_arguments_of(
        input@,
        is_tex,
        chapters,
        reference_doc@,
        lua_filter@,
        output@,
        use_citeproc,
        bib@,
    ));
    args
}

/// The arguments of a standalone LaTeX export of the Markdown `input`.
pub open spec fn latex_arguments_of(input: Seq<char>, output: Seq<char>, bib: Seq<char>) -> Seq<Seq<char>> {
    seq![input, "--from"@, "markdown"@, "--to"@, "latex"@, "--standalone"@, "-o"@, output] + (if bib.len() > 0 {
        seq!["--bibliography"@, bib]
    } else {
        seq![]
    })
}

pub fn latex_arguments(input: &str, output: &str, bib: &str) -> (r: Vec<String>)
    ensures
        strings(r@) == latex_arguments_of(input@, output@, bib@),
{
    let mut args: Vec<String> = Vec::new();
    push_text(&mut args, input);
    push_text(&mut args, "--from");
    push_text(&mut args, "markdown");
    push_text(&mut args, "--to");
    push_text(&mut args, "latex");
    push_text(&mut args, "--standalone");
    push_text(&mut args, "-o");
    push_text(&mut args, output);
    if chars_of(bib).len() > 0 {
        push_text(&mut args, "--bibliography");
        push_text(&mut args, bib);
    }
    assert(strings(args@) =~= latex_arguments_of(input@, output@, bib@));
    args
}

} // verus!
