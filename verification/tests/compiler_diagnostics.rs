use qvtf_author::diagnostics::parse_compiler_errors;
use qvtf_author::suggest::generate_suggestion;

#[test]
fn test_file_line_error_parser_uses_real_source_line() {
    let source = "\\documentclass{article}\n\\begin{document}\n\\badcommand{value}\n\\end{document}\n";
    let log = "main.tex:3: Undefined control sequence.\nl.3 \\badcommand{value}\n";
    let errors = parse_compiler_errors(log, source, false);
    assert_eq!(errors.len(), 1);
    assert_eq!(errors[0].line, 3);
    assert!(errors[0].context.contains(r"\badcommand"));
    assert!(errors[0].suggestion.contains(r"\badcommand"));
}

#[test]
fn test_classic_tex_error_parser_collects_context() {
    let source = "Text\n\\begin{equation}\nx = \\notacommand{y}\n\\end{equation}\n";
    let log = "! Undefined control sequence.\n<recently read> \\notacommand\nl.3 x = \\notacommand{y}\n";
    let errors = parse_compiler_errors(log, source, false);
    assert_eq!(errors.len(), 1);
    assert_eq!(errors[0].line, 3);
    assert_eq!(errors[0].context, r"x = \notacommand{y}");
}

#[test]
fn test_generated_tex_error_maps_back_to_markdown_command() {
    let source = "# Heading\n\nA formula with \\uniqueinvalidcommand{x}.\n";
    let log = "! Undefined control sequence.\nl.87 ...formula with \\uniqueinvalidcommand{x}.\n";
    let errors = parse_compiler_errors(log, source, true);
    assert_eq!(errors.len(), 1);
    assert_eq!(errors[0].line, 3);
}

#[test]
fn test_pandoc_duplicate_error_is_deduplicated_after_remap() {
    let source = "# Heading\n\nText with \\onlybadcommand{x}.\n";
    let log = "/tmp/generated.tex:87: Undefined control sequence.\n! Undefined control sequence.\nl.87 ...with \\onlybadcommand{x}.\n";
    let errors = parse_compiler_errors(log, source, true);
    assert_eq!(errors.len(), 1);
    assert_eq!(errors[0].line, 3);
}

#[test]
fn test_missing_item_gets_specific_list_fix() {
    let suggestion = generate_suggestion(
        "LaTeX Error: Something's wrong--perhaps a missing \\item.",
        r"\begin{itemize}",
    );
    assert!(suggestion.contains(r"\item"));
    assert!(suggestion.contains("list"));
    assert!(!suggestion.starts_with("Inspect the highlighted"));
}

#[test]
fn test_wrapped_latex_error_preserves_detail() {
    let source = "\\begin{document}\ntext\n\\end{document}\n";
    let log = "main.tex:2: LaTeX Error:\nSomething's wrong--perhaps a missing \\item.\nl.2 text\n";
    let errors = parse_compiler_errors(log, source, false);
    assert_eq!(errors.len(), 1);
    assert!(errors[0].message.contains("missing \\item"));
    assert!(errors[0].suggestion.contains("list"));
}

#[test]
fn test_unknown_error_fallback_quotes_real_message() {
    let suggestion = generate_suggestion("A very unusual compiler failure", "source");
    assert!(suggestion.contains("A very unusual compiler failure"));
    assert!(!suggestion.starts_with("Inspect the highlighted"));
}

#[test]
fn test_wrapped_latex_error_word_is_reassembled() {
    let source = "Intro\nLet \\mathcal{A} denote the algebra.\n";
    let log = "book.tex:2: LaTeX Er\nror: \\mathcal allowed only in math mode.\nl.2 Let \\mathcal{A} denote the algebra.\n";
    let errors = parse_compiler_errors(log, source, false);
    assert_eq!(errors.len(), 1);
    assert!(errors[0].message.contains("LaTeX Error:"));
    assert!(errors[0].message.contains("allowed only in math mode"));
    assert!(errors[0].suggestion.contains(r"$\mathcal{A}$"));
}

#[test]
fn test_mathcal_text_mode_error_gets_concrete_fix() {
    let suggestion = generate_suggestion(
        r"LaTeX Error: \mathcal allowed only in math mode.",
        r"Let \mathcal{A} denote the algebra.",
    );
    assert!(suggestion.contains(r"$\mathcal{A}$"));
    assert!(suggestion.contains("math-only"));
}

#[test]
fn test_generated_preamble_error_does_not_highlight_unrelated_prose() {
    let source = "# Chapter\n\nLet $\\mathcal{A}$ denote the algebra.\n";
    let log = "/tmp/generated.tex:41: LaTeX Error: Command `\\eth' already defined.\nl.41 \\newcommand{\\eth}{x}\n";
    let errors = parse_compiler_errors(log, source, true);
    assert_eq!(errors.len(), 1);
    assert_eq!(errors[0].line, 1);
    assert!(errors[0].context.contains("Generated LaTeX preamble"));
    assert!(errors[0].suggestion.contains("amssymb"));
    assert!(!errors[0].context.contains(r"\mathcal"));
}

#[test]
fn test_symbol_package_errors_are_classified_and_consolidated() {
    let source = "Let $\\mathcal{A}$ denote the algebra.\n";
    let log = "/texmf/amssymb.sty:240: LaTeX Error: Command `\\eth' already defined.\n\
/texmf/amssymb.sty:251: LaTeX Error: Command `\\smallsetminus' already defined.\n\
/texmf/amssymb.sty:259: LaTeX Error: Command `\\digamma' already defined.\n\
/texmf/amssymb.sty:265: LaTeX Error: Command `\\backepsilon' already defined.\n";
    let errors = parse_compiler_errors(log, source, true);
    assert_eq!(errors.len(), 1);
    assert_eq!(errors[0].line, 1);
    assert!(errors[0].message.contains("Symbol package conflict"));
    assert!(errors[0].suggestion.contains("amssymb"));
    assert!(errors[0].suggestion.contains("before unicode-math"));
    assert!(!errors[0].context.contains(r"\mathcal"));
}
