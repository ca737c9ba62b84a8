use qvtf_author::manuscript::manuscript_issues;
use qvtf_author::spelling::parse_spell_output;
use qvtf_author::unicode_math::latex_to_unicode_html;
use regex::Regex;

fn spell_by_regex(res: &str, content: &str, ignore_list: &[String]) -> Vec<(usize, usize, String, String, Option<String>)> {
    let file_lines: Vec<&str> = content.lines().collect();
    let pattern_fix = Regex::new(r"(?m)^.+?:(\d+):(\d+) - (?:Unknown word|Info|Forbidden word) \(([^)]+)\) fix: \(([^)]+)\)").unwrap();
    let pattern = Regex::new(r"(?m)^.+?:(\d+):(\d+) - (?:Unknown word|Info|Forbidden word) \(([^)]+)\)").unwrap();
    let pattern_alt = Regex::new(r"(?m)^.+?:(\d+):(\d+) - (?:Unknown word|Info|Forbidden word):? \x22([^\x22]+)\x22").unwrap();
    let pattern_simple = Regex::new(r"(?m)^.+?:(\d+):(\d+) - (?:Unknown word|Forbidden word):? (.+)").unwrap();
    let lower_ignores: Vec<String> = ignore_list.iter().map(|w| w.to_lowercase()).collect();
    let mut out = Vec::new();
    for line in res.lines() {
        let line = line.trim();
        if line.is_empty() {
            continue;
        }
        let (caps, fix) = if let Some(c) = pattern_fix.captures(line) {
            (c, true)
        } else if let Some(c) = pattern.captures(line) {
            (c, false)
        } else if let Some(c) = pattern_alt.captures(line) {
            (c, false)
        } else if let Some(c) = pattern_simple.captures(line) {
            (c, false)
        } else {
            continue;
        };
        let n: usize = caps.get(1).unwrap().as_str().parse().unwrap_or(0);
        let col: usize = caps.get(2).unwrap().as_str().parse().unwrap_or(0);
        let word = caps.get(3).unwrap().as_str().to_string();
        if lower_ignores.contains(&word.to_lowercase()) {
            continue;
        }
        let context = if n > 0 && n <= file_lines.len() { file_lines[n - 1].trim().to_string() } else { String::new() };
        let suggested = if fix { Some(caps.get(4).unwrap().as_str().to_string()) } else { None };
        out.push((n, col, word, context, suggested));
    }
    out
}

#[test]
fn spell_reports_agree_with_the_patterns() {
    let content = "alpha beta\n  gamma  \n\ndelta";
    let outputs = [
        "a:b:1:2 - Unknown word (alpah) fix: (alpha)\n x:2:3 - Info (gama)\n",
        "stdin://dummy.md:4:1 - Forbidden word: color and more\nf:1:1 - Unknown word: \"bta\"\n",
        "f:1:1 - Unknown word ()\nf:1:1 - Unknown word (x) fix: ()\nf:01:007 - Unknown word (y)\n",
        "f:99999999999999999999999:1 - Unknown word (big)\n:1:1 - Unknown word (z)\nf::1:1 - Unknown word (w)\n",
        "p:1:2 - Unknown word (a(b) fix: (c)\np:1:2 - Unknown word:\"q\"\np:2:2 - Info: skip me\n",
        "r:1:1 - Unknown word (Alpha)\nr:1:1 - Forbidden word:\nr:3:1 - Unknown word  (sp)\n",
        "s:\u{663}\u{664}:1 - Unknown word (ar)\ns:1:1:2:3 - Unknown word (nested)\n",
    ];
    let ignores = vec!["ALPHA".to_string(), "Ignored".to_string()];
    for out in outputs.iter() {
        let mine: Vec<(usize, usize, String, String, Option<String>)> = parse_spell_output(out, content, &ignores)
            .into_iter()
            .map(|e| (e.line, e.col, e.word, e.context, e.suggested))
            .collect();
        assert_eq!(mine, spell_by_regex(out, content, &ignores), "output: {:?}", out);
    }
}

fn issues_by_regex(content: &str) -> Vec<(usize, String, String, String)> {
    let mut issues = Vec::new();
    let re_nested_start = Regex::new(r"\$\$\s*\\begin\{(equation|align|gather|aligned|eqnarray|multline)").unwrap();
    let re_nested_end = Regex::new(r"\\end\{(equation|align|gather|aligned|eqnarray|multline)(\*?)\}\s*\$\$").unwrap();
    let re_dollar_bracket = Regex::new(r"\$\$\s*\\\[|\\\]\s*\$\$").unwrap();
    let re_bracket_env = Regex::new(r"\\\[\s*\\begin\{(equation|align|gather|aligned|eqnarray|multline)").unwrap();
    let re_env_bracket = Regex::new(r"\\end\{(equation|align|gather|aligned|eqnarray|multline)(\*?)\}\s*\\\]").unwrap();
    let re_text = Regex::new(r"\\text\{\s*([^}]+)\s*\}").unwrap();
    for (idx, line) in content.lines().enumerate() {
        let n = idx + 1;
        let stripped = line.trim().to_string();
        let checks = [
            (re_nested_start.is_match(line), qvtf_author::manuscript::NESTED_BEGIN),
            (re_nested_end.is_match(line), qvtf_author::manuscript::NESTED_END),
            (re_dollar_bracket.is_match(line), qvtf_author::manuscript::DOUBLED_DELIMITERS),
            (re_bracket_env.is_match(line), qvtf_author::manuscript::BRACKETED_BEGIN),
            (re_env_bracket.is_match(line), qvtf_author::manuscript::BRACKETED_END),
        ];
        for (hit, msg) in checks.iter() {
            if *hit {
                issues.push((n, "ERROR".to_string(), msg.to_string(), stripped.clone()));
            }
        }
        for caps in re_text.captures_iter(line) {
            let txt = caps.get(1).unwrap().as_str();
            if !txt.starts_with("\\cite") && !txt.starts_with("~\\cite") && txt.len() > 25 && txt.contains(' ') {
                let end = std::cmp::min(txt.len(), 40);
                issues.push((
                    n,
                    "WARNING".to_string(),
                    format!("Compatibility Warning: Long explanatory prose found inside \\text{{...}} in equation environment ('{}...'). For best DOCX/Pandoc compatibility, move explanatory prose out of the equation into standard paragraph text.", &txt[..end]),
                    stripped.clone(),
                ));
            }
        }
    }
    issues
}

#[test]
fn manuscript_issues_agree_with_the_patterns() {
    let samples = [
        "$$ \\begin{alignedat} x \\end{aligned*}  $$\n\\[\\begin{multline}\\end{eqnarray}\\]\n",
        "\\text{ } \\text{  short words}} \\text{a very long text with several words inside it here} \\text{\\cite{a b c d e f g h i j k l m n}}\n",
        "$$\\[ and \\]$$ and \\end{equation*}$$ \\end{equation**}$$\n\n  \\text{~\\cite{x}} \\text{ lots of words here, more than enough to warn}\n",
        "no math here\r\nsecond line \\text{text without a closing brace and words\n",
    ];
    for s in samples.iter() {
        let mine: Vec<(usize, String, String, String)> = manuscript_issues(s)
            .into_iter()
            .map(|i| (i.line, i.level, i.message, i.snippet))
            .collect();
        assert_eq!(mine, issues_by_regex(s), "input: {:?}", s);
    }
}

fn unicode_by_regex(latex: &str) -> Option<String> {
    let mut c = latex.replace("\\displaystyle", "").replace("\\textstyle", "").trim().to_string();
    for kw in ["\\frac", "\\int", "\\sum", "\\sqrt", "\\begin", "\\end", "\\left", "\\right", "\\over"] {
        if c.contains(kw) {
            return None;
        }
    }
    let map = [
        (r"\alpha", "α"), (r"\beta", "β"), (r"\gamma", "γ"), (r"\delta", "δ"),
        (r"\epsilon", "ε"), (r"\zeta", "ζ"), (r"\eta", "η"), (r"\theta", "θ"),
        (r"\iota", "ι"), (r"\kappa", "κ"), (r"\lambda", "λ"), (r"\mu", "μ"),
        (r"\nu", "ν"), (r"\xi", "ξ"), (r"\omicron", "o"), (r"\pi", "π"),
        (r"\rho", "ρ"), (r"\sigma", "σ"), (r"\tau", "τ"), (r"\upsilon", "υ"),
        (r"\phi", "φ"), (r"\chi", "χ"), (r"\psi", "ψ"), (r"\omega", "ω"),
        (r"\Gamma", "Γ"), (r"\Delta", "Δ"), (r"\Theta", "Θ"), (r"\Lambda", "Λ"),
        (r"\Xi", "Ξ"), (r"\Pi", "Π"), (r"\Sigma", "Σ"), (r"\Upsilon", "Υ"),
        (r"\Phi", "Φ"), (r"\Psi", "Ψ"), (r"\Omega", "Ω"),
        (r"\boldsymbol{\omega}", "𝝎"), (r"\boldsymbol{\tau}", "𝝳"), (r"\mathbf{D}", "𝐃"),
        (r"\mathbf{F}", "𝐅"), (r"\mathbf{v}", "𝐯"), (r"\mathrm{rel}", "rel"),
        (r"\nabla", "∇"), (r"\times", "×"), (r"\propto", "∝"),
    ];
    for (k, v) in map {
        c = c.replace(k, v);
    }
    for (p, r) in [
        (r"\_\{([^}]+)\}", "<sub>$1</sub>"),
        (r"\_([a-zA-Z0-9])", "<sub>$1</sub>"),
        (r"\^\{([^}]+)\}", "<sup>$1</sup>"),
        (r"\^([a-zA-Z0-9])", "<sup>$1</sup>"),
        (r"\\boldsymbol\{([^}]+)\}", "<strong>$1</strong>"),
        (r"\\mathbf\{([^}]+)\}", "<strong>$1</strong>"),
        (r"\\mathrm\{([^}]+)\}", "$1"),
        (r"\\text\{([^}]+)\}", "$1"),
    ] {
        c = Regex::new(p).unwrap().replace_all(&c, r).to_string();
    }
    c = c.replace("\\", "");
    Some(format!("<em>{}</em>", c))
}

#[test]
fn unicode_math_agrees_with_the_patterns() {
    let samples = [
        "\\alpha_{ij}^{2} + x_1 - y^z_",
        "\\boldsymbol{\\omega} \\boldsymbol{x} \\mathbf{F}\\mathbf{G}_{}",
        "\\mathrm{rel} \\mathrm{d}t \\text{if } \\text{} \\theta\\eta\\beta",
        " \\textstyle a_{b_{c}} ^é _é ",
        "\\sqrt{2}",
        "\\Omegaaa \\Pix \\nabla\\times\\propto",
    ];
    for s in samples.iter() {
        assert_eq!(latex_to_unicode_html(s), unicode_by_regex(s), "input: {:?}", s);
    }
}
