use qvtf_author::html_source::prepare_html_source;
use qvtf_author::paths::{
    aux_file_names, checked_save_name, clipboard_script, enter_file, fixed_save_name, search_path,
    source_pieces, SourcePiece,
    CLIPBOARD_HEAD, CLIPBOARD_MIDDLE, CLIPBOARD_TAIL,
};
use qvtf_author::publishing::{
    command_log, docx_arguments, geometry_options, html_arguments, latex_arguments, math_argument,
    page_style, pdf_arguments, pdf_failure_errors, prepare_docx_input, prepare_pdf_source,
    tex_failure_errors, webtex_url, HtmlOptions, PdfOptions, AUTO_WIDTH_CSS, COMPAT_MACROS,
    DARK_PAGE_CSS, FULL_WIDTH_CSS, GRID_CSS, MINIMALIST_CSS, PDF_FAILURE_FALLBACK, TABLE_CSS_CLOSE,
    TABLE_CSS_OPEN,
};

fn strings(v: &[&str]) -> Vec<String> {
    v.iter().map(|s| s.to_string()).collect()
}

#[test]
fn geometry_options_cover_named_and_custom_sizes() {
    assert_eq!(geometry_options("A4", "2cm"), strings(&["a4paper", "margin=2cm"]));
    assert_eq!(geometry_options("custom:5in,8in", ""), strings(&["paperwidth=5in", "paperheight=8in"]));
    assert_eq!(geometry_options("Custom:custom:7in", ""), strings(&["paperwidth=7in"]));
    assert_eq!(geometry_options("custom:1in,2in,3in", ""), strings(&["paperwidth=1in,2in,3in"]));
    assert_eq!(geometry_options("6x9", ""), strings(&["paperwidth=6in", "paperheight=9in"]));
    assert_eq!(geometry_options("", "1in"), strings(&["margin=1in"]));
    assert!(geometry_options("", "").is_empty());
}

fn pdf_options() -> PdfOptions {
    PdfOptions {
        engine: "xelatex".to_string(),
        toc: true,
        number_sections: false,
        left_align: true,
        unicode_math: false,
        page_size: "letter".to_string(),
        page_margin: String::new(),
        use_citeproc: false,
    }
}

#[test]
fn pdf_arguments_for_an_article() {
    let args = pdf_arguments("in.md", "out.pdf", "Some text", &pdf_options(), "", "");
    assert_eq!(
        args,
        strings(&[
            "in.md",
            "--from",
            "markdown",
            "--to",
            "pdf",
            "--pdf-engine=xelatex",
            "-o",
            "out.pdf",
            "-V",
            "documentclass=article",
            "-V",
            "geometry:letterpaper",
            "--table-of-contents",
            "-V",
            "header-includes=\\providecommand{\\partokencontext}[1]{} \\usepackage[document]{ragged2e}",
            "-V",
            "reference-section-title=References",
            "--metadata",
            "reference-section-title=References",
        ])
    );
}

#[test]
fn pdf_arguments_for_a_book_with_bibliography() {
    let mut o = pdf_options();
    o.toc = false;
    o.left_align = false;
    o.unicode_math = true;
    o.page_size = String::new();
    let args = pdf_arguments("in.md", "out.pdf", "\\chapter{One}\ntext", &o, "/tmp/r.bib", "/tmp/s.csl");
    assert_eq!(
        args,
        strings(&[
            "in.md",
            "--from",
            "markdown",
            "--to",
            "pdf",
            "--pdf-engine=xelatex",
            "-o",
            "out.pdf",
            "--top-level-division=chapter",
            "-V",
            "documentclass=report",
            "-V",
            "classoption=oneside",
            "-V",
            "classoption=openany",
            "-V",
            "header-includes=\\providecommand{\\partokencontext}[1]{}",
            "-V",
            "mainfont=Latin Modern Roman",
            "-V",
            "mathfont=Latin Modern Math",
            "-V",
            "monofont=Latin Modern Mono",
            "-V",
            "reference-section-title=References",
            "--metadata",
            "reference-section-title=References",
            "--bibliography",
            "/tmp/r.bib",
            "--citeproc",
            "--csl",
            "/tmp/s.csl",
        ])
    );
}

#[test]
fn command_log_shows_the_command_line() {
    assert_eq!(command_log("pandoc", &strings(&["a", "b c"])), "Command: pandoc a b c\n\n");
    assert_eq!(command_log("pandoc", &vec![]), "Command: pandoc \n\n");
}

#[test]
fn pdf_failure_without_location_quotes_the_error_output() {
    let errs = pdf_failure_errors("", "Error producing PDF.\n! LaTeX Error: boom\n", "src line\n");
    assert_eq!(errs.len(), 1);
    assert_eq!(errs[0].line, 1);
    assert_eq!(errs[0].message, "! LaTeX Error: boom");
    assert_eq!(errs[0].context, "src line");
    let none = pdf_failure_errors("", "", "");
    assert_eq!(none.len(), 1);
    assert_eq!(none[0].message, PDF_FAILURE_FALLBACK);
    assert_eq!(none[0].context, "");
}

#[test]
fn pdf_failure_with_location_maps_back_to_the_source() {
    let source = "# Heading\n\nA formula with \\uniqueinvalidcommand{x}.\n";
    let stderr = "! Undefined control sequence.\nl.87 ...formula with \\uniqueinvalidcommand{x}.\n";
    let errs = pdf_failure_errors("", stderr, source);
    assert_eq!(errs.len(), 1);
    assert_eq!(errs[0].line, 3);
    let direct = tex_failure_errors("main.tex:2: Undefined control sequence.\nl.2 \\bad\n", "", "a\n\\bad\n");
    assert_eq!(direct.len(), 1);
    assert_eq!(direct[0].line, 2);
}

#[test]
fn webtex_address_encodes_colour_and_size() {
    assert_eq!(
        webtex_url("SVG", "Black", "150 dpi"),
        "https://latex.codecogs.com/svg.latex?%5Ccolor%7Bblack%7D%20%5CLarge%20"
    );
    assert_eq!(webtex_url("PNG", "", ""), "https://latex.codecogs.com/png.latex?%5Clarge%20");
}

#[test]
fn math_argument_follows_the_style() {
    assert_eq!(math_argument("MathJax", "", ""), "--mathjax");
    assert_eq!(math_argument("MathML", "", ""), "--mathml");
    assert_eq!(
        math_argument("PNG (WebTeX)", "White", "80"),
        "--webtex=https://latex.codecogs.com/png.latex?%5Ccolor%7Bwhite%7D%20%5Csmall%20"
    );
}

#[test]
fn page_style_combines_table_rules_and_dark_page() {
    assert_eq!(
        page_style("auto", "grid", "Black"),
        format!("{}{}{}{}", TABLE_CSS_OPEN, AUTO_WIDTH_CSS, TABLE_CSS_CLOSE, GRID_CSS)
    );
    assert_eq!(
        page_style("full", "plain", "White"),
        format!("{}{}{}{}{}", TABLE_CSS_OPEN, FULL_WIDTH_CSS, TABLE_CSS_CLOSE, MINIMALIST_CSS, DARK_PAGE_CSS)
    );
}

#[test]
fn html_arguments_for_markdown_and_latex() {
    let o = HtmlOptions {
        math_style: "MathML".to_string(),
        math_fg: String::new(),
        math_size: String::new(),
        use_citeproc: true,
        toc: true,
        number_sections: true,
        table_width: "auto".to_string(),
        table_style: "grid".to_string(),
    };
    let css = page_style("auto", "grid", "");
    let md = html_arguments("in.md", "out.html", false, &o, "r.bib", "");
    assert_eq!(
        md,
        vec![
            "in.md".to_string(),
            "--from".to_string(),
            "markdown".to_string(),
            "--to".to_string(),
            "html5".to_string(),
            "--mathml".to_string(),
            "-s".to_string(),
            "-o".to_string(),
            "out.html".to_string(),
            "--citeproc".to_string(),
            "--bibliography".to_string(),
            "r.bib".to_string(),
            "--table-of-contents".to_string(),
            "--number-sections".to_string(),
            "-V".to_string(),
            format!("header-includes=<style>{}</style>", css),
        ]
    );
    let tex = html_arguments("in.tex", "out.html", true, &o, "", "");
    assert_eq!(tex[2], "latex");
    assert!(!tex.contains(&"--table-of-contents".to_string()));
}

#[test]
fn docx_and_latex_arguments() {
    assert_eq!(
        docx_arguments("in.tex", true, true, "ref.docx", "f.lua", "o.docx", false, "b.bib"),
        strings(&[
            "in.tex",
            "--from",
            "latex",
            "--to",
            "docx",
            "--table-of-contents",
            "--number-sections",
            "-V",
            "reference-section-title=References",
            "--metadata",
            "reference-section-title=References",
            "--top-level-division=chapter",
            "--reference-doc",
            "ref.docx",
            "--lua-filter",
            "f.lua",
            "-o",
            "o.docx",
            "--citeproc",
            "--bibliography",
            "b.bib",
        ])
    );
    assert_eq!(
        latex_arguments("a.md", "a.export.tex", ""),
        strings(&["a.md", "--from", "markdown", "--to", "latex", "--standalone", "-o", "a.export.tex"])
    );
}

#[test]
fn pdf_source_starts_with_the_compatibility_macros() {
    assert_eq!(prepare_pdf_source("Hello"), Some(format!("{}Hello", COMPAT_MACROS)));
    let eq = "\\begin{equation}\nx = 1 \\label{eq:a}\n\\end{equation}\nSee \\eqref{eq:a}.";
    let out = prepare_pdf_source(eq).unwrap();
    assert!(out.contains("x = 1 \\qquad (1)"));
    assert!(out.contains("See (1)."));
}

#[test]
fn docx_input_finds_the_bibliography_and_page_breaks() {
    let d = prepare_docx_input("See \\bibliography{refs}\n\\newpage\nText\\clearpage", true, false);
    assert_eq!(d.bibliography, Some("refs.bib".to_string()));
    let src = d.source.unwrap();
    assert!(src.contains("\\begin{newpage}\\end{newpage}\nText\\begin{clearpage}\\end{clearpage}"));
    let kept = prepare_docx_input("\\newpagex \\addbibresource{lib.json}", true, false);
    assert_eq!(kept.bibliography, Some("lib.json".to_string()));
    assert!(kept.source.unwrap().contains("\\newpagex"));
    let md = prepare_docx_input("\\bibliography{refs}\n\\newpage", false, false);
    assert_eq!(md.bibliography, None);
    assert!(md.source.unwrap().ends_with("\\newpage"));
    let given = prepare_docx_input("\\bibliography{refs}", true, true);
    assert_eq!(given.bibliography, None);
}

#[test]
fn html_source_rewrites_braket_citations_and_displays() {
    assert_eq!(
        prepare_html_source("\\ket{0} and \\bra{1} and \\braket{a}{b}"),
        "\\left| 0\\right\\rangle and \\left\\langle 1\\right| and \\left\\langle a\\middle| b\\right\\rangle"
    );
    assert_eq!(
        prepare_html_source("\\begin{equation}x = 1, \\text{~\\cite{key}}\\end{equation}"),
        "\\[x = 1\\]~\\cite{key}"
    );
    assert_eq!(prepare_html_source("$$a \\text{\\cite{k}} b$$"), "$$\na b\n$$~\\cite{k}");
    assert_eq!(
        prepare_html_source("\\begin{align*}a\\end{align*}"),
        "\\[ \\begin{aligned}a\\end{aligned} \\]"
    );
    assert_eq!(
        prepare_html_source("\\begin{gather}g\\end{gather}"),
        "\\[ \\begin{gathered}g\\end{gathered} \\]"
    );
}

#[test]
fn search_path_puts_tex_directories_first() {
    assert_eq!(
        search_path("/usr/bin::/usr/local/bin:/bin"),
        "/Library/TeX/texbin:/opt/homebrew/bin:/usr/local/bin:/usr/bin:/bin"
    );
    assert_eq!(search_path(""), "/Library/TeX/texbin:/opt/homebrew/bin:/usr/local/bin");
}

#[test]
fn aux_files_and_save_names() {
    assert_eq!(aux_file_names("paper"), strings(&["paper.aux", "paper.toc", "paper.out", "paper.log"]));
    assert_eq!(fixed_save_name("Notes.TEX.tex", "tex"), Some("Notes.TEX".to_string()));
    assert_eq!(fixed_save_name("notes.tex", "tex"), None);
    assert_eq!(fixed_save_name("a.md.md", "md"), Some("a.md".to_string()));
    assert_eq!(fixed_save_name("a.MD.TXT", "txt"), Some("a.MD".to_string()));
    assert_eq!(fixed_save_name("a.md.md", "tex"), None);
    assert_eq!(checked_save_name("Notes.TEX.tex", "tex"), Some(Some("Notes.TEX".to_string())));
    assert_eq!(checked_save_name("notes.tex", "tex"), Some(None));
}

#[test]
fn a_file_is_flattened_once() {
    let mut visited: Vec<String> = Vec::new();
    assert!(enter_file(&mut visited, "/doc/main.tex"));
    assert!(enter_file(&mut visited, "/doc/intro.tex"));
    assert!(!enter_file(&mut visited, "/doc/main.tex"));
    assert_eq!(visited, vec!["/doc/main.tex".to_string(), "/doc/intro.tex".to_string()]);
}

#[test]
fn source_pieces_split_at_includes() {
    let p = source_pieces("A\\input{ch1}B\\include{x.sty}C\\input{}");
    assert_eq!(p.len(), 5);
    match &p[0] {
        SourcePiece::Text(t) => assert_eq!(t, "A"),
        _ => panic!("expected text"),
    }
    match &p[1] {
        SourcePiece::Include { file, directive } => {
            assert_eq!(file, "ch1.tex");
            assert_eq!(directive, "\\input{ch1}");
        },
        _ => panic!("expected include"),
    }
    match &p[3] {
        SourcePiece::Include { file, directive } => {
            assert_eq!(file, "x.sty");
            assert_eq!(directive, "\\include{x.sty}");
        },
        _ => panic!("expected include"),
    }
    match &p[4] {
        SourcePiece::Text(t) => assert_eq!(t, "C\\input{}"),
        _ => panic!("expected text"),
    }
}

#[test]
fn clipboard_script_escapes_quotes_and_backslashes() {
    assert_eq!(
        clipboard_script("a\"b", "c\\d"),
        format!("{}a\\\"b{}c\\\\d{}", CLIPBOARD_HEAD, CLIPBOARD_MIDDLE, CLIPBOARD_TAIL)
    );
    assert!(CLIPBOARD_HEAD.starts_with("use framework \"Foundation\""));
}
