use qvtf_author::diagnostics::parse_compiler_errors;
use qvtf_author::html_post::{figure_display_math, unicode_inline_math};
use qvtf_author::numbering::{
    format_eq_num, scan_heading_events, update_heading_counters, EqScheme, HeadingEvent,
};
use qvtf_author::references::{resolve_equation_references, try_resolve_equation_references};

#[test]
fn compiler_errors_come_sorted_by_line() {
    let source = "a\nb\nc\nd\ne\n";
    let log = "main.tex:5: Undefined control sequence.\nmain.tex:2: Missing $ inserted.\nmain.tex:4: Undefined control sequence.\n";
    let errors = parse_compiler_errors(log, source, false);
    let lines: Vec<usize> = errors.iter().map(|e| e.line).collect();
    assert_eq!(lines, vec![2, 4, 5]);
    assert!(errors.iter().all(|e| e.line >= 1));
}

#[test]
fn emergency_stop_is_placed_at_line_one() {
    let errors = parse_compiler_errors("! Emergency stop.\n", "first\n", false);
    assert_eq!(errors.len(), 1);
    assert_eq!(errors[0].line, 1);
    assert_eq!(errors[0].context, "first");
}

#[test]
fn plain_text_resolves_to_itself() {
    let t = "Plain prose with (parentheses), 3.14 and # no commands at all.\n## Heading\n";
    assert_eq!(resolve_equation_references(t), t);
    assert_eq!(try_resolve_equation_references(""), Some(String::new()));
}

#[test]
fn headings_restart_the_counters() {
    let chapter = HeadingEvent { pos: 0, level: 1, is_starred: false };
    let section = HeadingEvent { pos: 0, level: 2, is_starred: false };
    let starred = HeadingEvent { pos: 0, level: 1, is_starred: true };
    let (mut c, mut s, mut e) = (2usize, 3usize, 7usize);
    update_heading_counters(&chapter, EqScheme::Chapter, &mut c, &mut s, &mut e);
    assert_eq!((c, s, e), (3, 0, 0));
    let (mut c, mut s, mut e) = (2usize, 3usize, 7usize);
    update_heading_counters(&section, EqScheme::Section, &mut c, &mut s, &mut e);
    assert_eq!((c, s, e), (2, 4, 0));
    let (mut c, mut s, mut e) = (2usize, 3usize, 7usize);
    update_heading_counters(&section, EqScheme::Chapter, &mut c, &mut s, &mut e);
    assert_eq!((c, s, e), (2, 4, 7));
    let (mut c, mut s, mut e) = (2usize, 3usize, 7usize);
    update_heading_counters(&starred, EqScheme::Global, &mut c, &mut s, &mut e);
    assert_eq!((c, s, e), (2, 3, 7));
    let (mut c, mut s, mut e) = (2usize, 3usize, 7usize);
    update_heading_counters(&chapter, EqScheme::Global, &mut c, &mut s, &mut e);
    assert_eq!((c, s, e), (3, 0, 7));
}

#[test]
fn global_numbering_runs_on_past_a_lone_heading() {
    let input = r#"
\begin{equation}
a = b \label{eq:a}
\end{equation}
# Results
\begin{equation}
c = d \label{eq:c}
\end{equation}
See \eqref{eq:a} and \ref{eq:c}.
"#;
    let res = resolve_equation_references(input);
    assert!(res.contains(r"a = b \qquad (1)"));
    assert!(res.contains(r"c = d \qquad (2)"));
    assert!(res.contains("See (1) and 2."));
}

#[test]
fn the_word_section_in_prose_keeps_numbering_global() {
    let input = r#"This section derives two results.
\begin{equation}
x = 1 \label{eq:x}
\end{equation}
\begin{equation}
y = 2 \label{eq:y}
\end{equation}
Compare \eqref{eq:x} with \eqref{eq:y}.
"#;
    let res = resolve_equation_references(input);
    assert!(res.contains(r"x = 1 \qquad (1)"));
    assert!(res.contains(r"y = 2 \qquad (2)"));
    assert!(res.contains("Compare (1) with (2)."));
}

#[test]
fn equation_numbers_have_the_scheme_shape() {
    assert_eq!(format_eq_num(EqScheme::Global, 4, 5, 6), "6");
    assert_eq!(format_eq_num(EqScheme::Chapter, 0, 5, 6), "1.6");
    assert_eq!(format_eq_num(EqScheme::Section, 4, 0, 12), "1.12");
    assert_eq!(format_eq_num(EqScheme::SectionWithChapter, 2, 3, 10), "2.3.10");
}

#[test]
fn pages_without_tags_are_untouched() {
    let t = "No tags here: a > b & c \"quoted\" class=math display alt=x";
    assert_eq!(figure_display_math(t), t);
    assert_eq!(unicode_inline_math(t), t);
}

#[test]
fn heading_positions_are_byte_offsets() {
    let evs = scan_heading_events("\u{e9}t\u{e9}\n# Title\n\\section*{Two}\n");
    assert_eq!(
        evs,
        vec![
            HeadingEvent { pos: 6, level: 1, is_starred: false },
            HeadingEvent { pos: 14, level: 2, is_starred: true },
        ]
    );
}

#[test]
fn emergency_stop_is_added_only_when_nothing_else_was_read() {
    let source = "first line\nsecond\n";
    let before = "This is pdfTeX\nmain.tex:2: Undefined control sequence.\n";
    let with_stop = format!("{}! Emergency stop.\n", before);
    let errors = parse_compiler_errors(&with_stop, source, false);
    let plain = parse_compiler_errors(before, source, false);
    assert_eq!(errors.len(), 1);
    assert_eq!(errors.len(), plain.len());
    assert_eq!(errors[0].line, 2);
    assert_eq!(errors[0].message, plain[0].message);
    let alone = parse_compiler_errors("This is pdfTeX\n! Emergency stop.\n", source, false);
    assert_eq!(alone.len(), 1);
    assert_eq!(alone[0].line, 1);
    assert_eq!(alone[0].message, "Emergency stop");
    assert_eq!(alone[0].context, "first line");
}
