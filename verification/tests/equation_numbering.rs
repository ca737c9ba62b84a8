use qvtf_author::references::resolve_equation_references;

#[test]
fn test_chapter_equation_numbering() {
    let input = r#"
\chapter{First Chapter}
\begin{equation}
E = mc^2 \label{eq:einstein}
\end{equation}

\chapter{Second Chapter}
\begin{equation}
F = ma \label{eq:newton}
\end{equation}

As seen in \eqref{eq:einstein} and \eqref{eq:newton}.
"#;
    let res = resolve_equation_references(input);
    assert!(res.contains(r"E = mc^2 \qquad (1.1)"));
    assert!(res.contains(r"F = ma \qquad (2.1)"));
    assert!(res.contains("As seen in (1.1) and (2.1)."));
}

#[test]
fn test_section_equation_numbering() {
    let input = r#"
\section{Introduction}
\begin{equation}
a = b \label{eq:one}
\end{equation}

\section{Methods}
\begin{equation}
c = d \label{eq:two}
\end{equation}

Ref: \ref{eq:one} and \eqref{eq:two}.
"#;
    let res = resolve_equation_references(input);
    assert!(res.contains(r"a = b \qquad (1.1)"));
    assert!(res.contains(r"c = d \qquad (2.1)"));
    assert!(res.contains("Ref: 1.1 and (2.1)."));
}

#[test]
fn test_numberwithin_section_with_chapter() {
    let input = r#"
\numberwithin{equation}{section}
\chapter{Main Chapter}
\section{Sub Section}
\begin{equation}
x = y \label{eq:sub}
\end{equation}

See \eqref{eq:sub}.
"#;
    let res = resolve_equation_references(input);
    assert!(res.contains(r"x = y \qquad (1.1.1)"));
    assert!(res.contains("See (1.1.1)."));
}

#[test]
fn test_global_equation_numbering() {
    let input = r#"
\begin{equation}
x = 1 \label{eq:g1}
\end{equation}
\begin{equation}
y = 2 \label{eq:g2}
\end{equation}
"#;
    let res = resolve_equation_references(input);
    assert!(res.contains(r"x = 1 \qquad (1)"));
    assert!(res.contains(r"y = 2 \qquad (2)"));
}

#[test]
fn test_starred_equation_is_not_numbered_but_labelled_one_is() {
    let input = r#"
\begin{equation*}
x = 1
\end{equation*}
\begin{equation*}
y = 2 \label{eq:labelled-star}
\end{equation*}
See \eqref{eq:labelled-star}.
"#;
    let res = resolve_equation_references(input);
    assert!(res.contains("\\begin{equation*}\nx = 1\n\\end{equation*}"));
    assert!(res.contains(r"y = 2 \qquad (1)"));
    assert!(res.contains("See (1)."));
}
