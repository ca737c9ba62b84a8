use qvtf_author::manuscript::{
    manuscript_check_would_fail, manuscript_issues, try_manuscript_issues, BRACKETED_BEGIN,
    BRACKETED_END, DOUBLED_DELIMITERS, NESTED_BEGIN, NESTED_END,
};
use qvtf_author::mathfix::sanitize_math_environments;
use qvtf_author::unicode_math::latex_to_unicode_html;

#[test]
fn wrapped_environments_are_unwrapped() {
    assert_eq!(
        sanitize_math_environments("$$\\begin{equation}x\\end{equation}$$"),
        "\\begin{equation}x\\end{equation}"
    );
    assert_eq!(
        sanitize_math_environments("\\[ \\begin{align*} a \\end{align*} \\]"),
        "\\begin{align*} a \\end{align*}"
    );
    assert_eq!(sanitize_math_environments("$$ \\[ x \\] $$"), "\\\\[ x \\]");
}

#[test]
fn long_prose_moves_out_of_the_equation() {
    let src = "\\begin{equation}E = mc^2 \\quad \\text{where this relation describes the energy of a body}\\end{equation}";
    assert_eq!(
        sanitize_math_environments(src),
        "\\begin{equation}E = mc^2\\end{equation}\n\nwhere this relation describes the energy of a body\n"
    );
}

#[test]
fn short_prose_and_nested_blocks_stay() {
    let short = "\\begin{equation}x \\text{short}\\end{equation}";
    assert_eq!(sanitize_math_environments(short), short);
    let nested = "\\begin{equation}\\begin{aligned} a \\end{aligned} \\text{where this relation describes the energy of a body}\\end{equation}";
    assert_eq!(sanitize_math_environments(nested), nested);
}

#[test]
fn plain_text_is_left_alone_by_the_cleanup() {
    let t = "Plain prose, with punctuation; and no mathematics at all.";
    assert_eq!(sanitize_math_environments(t), t);
}

#[test]
fn manuscript_issues_are_reported_per_line() {
    let content = "ok line\n$$\\begin{equation} x \\end{equation}$$\n\\[ \\begin{align} y \\end{align} \\]\n$$ \\[ z \\] $$\n\\begin{equation} a \\text{this is a rather long explanation of the formula} \\end{equation}\n";
    let issues = manuscript_issues(content);
    assert_eq!(issues.len(), 6);
    assert_eq!(issues[0].line, 2);
    assert_eq!(issues[0].level, "ERROR");
    assert_eq!(issues[0].message, NESTED_BEGIN);
    assert_eq!(issues[0].snippet, "$$\\begin{equation} x \\end{equation}$$");
    assert_eq!(issues[1].message, NESTED_END);
    assert_eq!(issues[2].line, 3);
    assert_eq!(issues[2].message, BRACKETED_BEGIN);
    assert_eq!(issues[3].message, BRACKETED_END);
    assert_eq!(issues[4].line, 4);
    assert_eq!(issues[4].message, DOUBLED_DELIMITERS);
    assert_eq!(issues[5].line, 5);
    assert_eq!(issues[5].level, "WARNING");
    assert!(issues[5].message.contains("('this is a rather long explanation of the...')"));
    assert!(issues[5].message.starts_with("Compatibility Warning: Long explanatory prose found inside \\text{...}"));
}

#[test]
fn a_quotation_cut_inside_a_character_fails_the_check() {
    let bad = format!("\\text{{{}\u{e9} and more words}}", "a".repeat(39));
    assert!(manuscript_check_would_fail(&bad));
    assert!(try_manuscript_issues(&bad).is_none());
    let good = format!("\\text{{{}\u{e9} and more words}}", "a".repeat(38));
    assert!(!manuscript_check_would_fail(&good));
    let issues = try_manuscript_issues(&good).unwrap();
    assert_eq!(issues.len(), 1);
    assert!(issues[0].message.contains(&format!("('{}\u{e9}...')", "a".repeat(38))));
}

#[test]
fn simple_math_becomes_unicode_html() {
    assert_eq!(
        latex_to_unicode_html("\\alpha_{i} + \\beta^2"),
        Some("<em>\u{3b1}<sub>i</sub> + \u{3b2}<sup>2</sup></em>".to_string())
    );
    assert_eq!(
        latex_to_unicode_html("\\displaystyle \\mathbf{v} \\times \\mathrm{d}"),
        Some("<em>\u{1d42f} \u{d7} d</em>".to_string())
    );
    assert_eq!(latex_to_unicode_html(" \\text{speed} "), Some("<em>speed</em>".to_string()));
    assert_eq!(latex_to_unicode_html("\\frac{a}{b}"), None);
    assert_eq!(latex_to_unicode_html("\\left( x \\right)"), None);
}

#[test]
fn unicode_html_holds_no_backslash() {
    let h = latex_to_unicode_html("\\unknown{x} \\, y_\\alpha").unwrap();
    assert!(!h.contains('\\'));
    assert_eq!(h, "<em>unknown{x} , y_\u{3b1}</em>");
}
