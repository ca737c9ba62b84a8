use qvtf_author::html_post::{figure_display_math, unicode_inline_math};
use qvtf_author::html_source::prepare_html_source;
use qvtf_author::mathfix::sanitize_math_environments;
use qvtf_author::unicode_math::latex_to_unicode_html;
use regex::Regex;

fn figures_by_regex(content: &str) -> String {
    let p = Regex::new(r#"(?ms)<p>\s*(<img[^>]*?class\s*=\s*["']?(?:math\s+display|display\s+math)["']?[^>]*?>)\s*</p>"#).unwrap();
    p.replace_all(content, |caps: &regex::Captures| format!("<figure class=\x22math-figure\x22>{}</figure>", &caps[1]))
        .to_string()
}

fn inline_by_regex(content: &str) -> String {
    let pattern = Regex::new(r#"(?i)<img([^>]*?class\s*=\s*["']?(?:math\s+inline|inline\s+math)["']?[^>]*?alt\s*=\s*["']?([^"']+)["']?[^>]*?/?>)"#).unwrap();
    let mut new_content = content.to_string();
    let mut offset: isize = 0;
    for caps in pattern.captures_iter(content) {
        let full = caps.get(0).unwrap();
        let alt = caps.get(2).unwrap().as_str();
        if let Some(u) = latex_to_unicode_html(alt) {
            let start = (full.start() as isize + offset) as usize;
            let end = (full.end() as isize + offset) as usize;
            new_content.replace_range(start..end, &u);
            offset += u.len() as isize - full.as_str().len() as isize;
        }
    }
    new_content
}

fn sanitize_by_regex(content: &str) -> String {
    let mut result = content.to_string();
    let envs = r"(equation|align|gather|aligned|eqnarray|multline)";
    let re_env = Regex::new(&format!(r"(?s)\\begin\{{{}(\*?)\}}(.*?)\\end\{{{}(\*?)\}}", envs, envs)).unwrap();
    let re_text = Regex::new(r"(?:\\quad|\\qquad|,|;|\s)*\\text\{\s*([^}]+)\s*\}").unwrap();
    let mut out = String::new();
    let mut last = 0;
    for caps in re_env.captures_iter(&result) {
        let m = caps.get(0).unwrap();
        out.push_str(&result[last..m.start()]);
        let name = caps.get(1).unwrap().as_str();
        let star = caps.get(2).unwrap().as_str();
        let body = caps.get(3).unwrap().as_str();
        last = m.end();
        if body.contains(r"\begin{aligned}") || body.contains(r"\begin{array}") || body.contains(r"\begin{matrix}") {
            out.push_str(m.as_str());
            continue;
        }
        if let Some(tc) = re_text.captures(body) {
            let prose = tc.get(1).unwrap().as_str().trim();
            if !prose.starts_with("\\cite") && !prose.starts_with("~\\cite") && prose.len() > 35 && prose.contains(' ') {
                let clean = re_text.replace(body, "").to_string();
                out.push_str(&format!("\\begin{{{}{}}}{}\\end{{{}{}}}\n\n{}\n", name, star, clean, name, star, prose));
                continue;
            }
        }
        out.push_str(m.as_str());
    }
    out.push_str(&result[last..]);
    result = out;
    let steps: [(String, &str); 6] = [
        (format!(r"(?s)\$\$\s*\\begin\{{{}(\*?)\}}", envs), r"\begin{$1$2}"),
        (format!(r"(?s)\\end\{{{}(\*?)\}}\s*\$\$", envs), r"\end{$1$2}"),
        (format!(r"(?s)\\\[\s*\\begin\{{{}(\*?)\}}", envs), r"\begin{$1$2}"),
        (format!(r"(?s)\\end\{{{}(\*?)\}}\s*\\\]", envs), r"\end{$1$2}"),
        (r"\$\$\s*\\\[".to_string(), r"\\["),
        (r"\\\]\s*\$\$".to_string(), r"\]"),
    ];
    for (p, r) in steps.iter() {
        result = Regex::new(p).unwrap().replace_all(&result, *r).to_string();
    }
    result
}

fn html_source_by_regex(content: &str) -> String {
    let mut c = content.to_string();
    c = Regex::new(r"\\ket\{([^}]+)\}").unwrap().replace_all(&c, |k: &regex::Captures| format!("\\left| {}\\right\\rangle", &k[1])).to_string();
    c = Regex::new(r"\\bra\{([^}]+)\}").unwrap().replace_all(&c, |k: &regex::Captures| format!("\\left\\langle {}\\right|", &k[1])).to_string();
    c = Regex::new(r"\\braket\{([^}]+)\}\{([^}]+)\}").unwrap().replace_all(&c, |k: &regex::Captures| format!("\\left\\langle {}\\middle| {}\\right\\rangle", &k[1], &k[2])).to_string();
    for env in ["equation", "equation\\*", "align", "align\\*", "gather", "gather\\*"] {
        let p = r"(?s)\\begin\{ENV\}([\s\S]*?)(?:\\quad\s*|\\qquad\s*|,\s*|~\s*|;\s*|\s+)?\\text\{\s*~?\s*\\cite\{([^}]+)\}\s*\}([\s\S]*?)\\end\{ENV\}".replace("ENV", env);
        let clean = env.replace("\\", "");
        c = Regex::new(&p).unwrap().replace_all(&c, |k: &regex::Captures| {
            format!("\\begin{{{}}}{}{}\\end{{{}}}~\\cite{{{}}}", clean, &k[1], &k[3], clean, &k[2])
        }).to_string();
    }
    c = Regex::new(r"(?s)\$\$([\s\S]*?)(?:\\quad\s*|\\qquad\s*|,\s*|~\s*|;\s*|\s+)?\\text\{\s*~?\s*\\cite\{([^}]+)\}\s*\}([\s\S]*?)\$\$").unwrap()
        .replace_all(&c, |k: &regex::Captures| format!("$$\n{}{}\n$$~\\cite{{{}}}", &k[1], &k[3], &k[2])).to_string();
    let pairs = [
        (r"\\begin\{equation\*?\}", "\\["),
        (r"\\end\{equation\*?\}", "\\]"),
        (r"\\begin\{align\*?\}", "\\[ \\begin{aligned}"),
        (r"\\end\{align\*?\}", "\\end{aligned} \\]"),
        (r"\\begin\{gather\*?\}", "\\[ \\begin{gathered}"),
        (r"\\end\{gather\*?\}", "\\end{gathered} \\]"),
    ];
    for (p, r) in pairs {
        c = Regex::new(p).unwrap().replace_all(&c, regex::NoExpand(r)).to_string();
    }
    c
}

const HTML_SAMPLES: [&str; 9] = [
    "<p><img src=\"a.svg\" class=\"math display\" alt=\"x\" /></p>",
    "<p>\n  <img class='display math' src=x>\n</p> tail <p><img class=math inline></p>",
    "<p><img src=a class=\"math  display\"></p><p><img class=\" math display\"></p>",
    "<p><img class=\"math display\" alt=\"a>b\"> x </p>",
    "text <img class=\"math inline\" alt=\"\\alpha_1\" src=\"u\" /> more",
    "<IMG CLASS=\"Inline Math\" ALT='\\beta^2'> and <img class=math inline alt=\\frac{a}{b}>",
    "<img clas\u{17f}=\"math inline\" alt=\"x\"><img class=\"math inline\" alt=x>y>z",
    "<img class=\"math inline\" src=a><img class=\"math inline\" alt=\"\\gamma\">",
    "<img alt=\"q\" class=\"math inline\"> <img class=\"math inline\" alt=\"\\mu\"/>",
];

#[test]
fn display_figures_agree_with_the_pattern() {
    for s in HTML_SAMPLES.iter() {
        assert_eq!(figure_display_math(s), figures_by_regex(s), "input: {:?}", s);
    }
}

#[test]
fn inline_images_agree_with_the_pattern() {
    for s in HTML_SAMPLES.iter() {
        assert_eq!(unicode_inline_math(s), inline_by_regex(s), "input: {:?}", s);
    }
}

const TEX_SAMPLES: [&str; 10] = [
    "$$\\begin{equation}x\\end{equation}$$",
    "$$ \n \\begin{align*} a \\end{align*}\t$$ and \\[\\begin{gather}b\\end{gather}\\]",
    "$$ \\[ x \\] $$ and \\] $$",
    "\\begin{equation}E = mc^2 \\quad \\text{where this relation describes the energy of a body}\\end{equation}",
    "\\begin{equation*}a, \\text{  this is long explanatory prose that goes on and on } b\\end{equation*}",
    "\\begin{align}x \\text{\\cite{somebody} with a long tail of words here}\\end{align}",
    "\\begin{equation}\\begin{aligned} a \\end{aligned} \\text{where this relation describes the energy of a body}\\end{equation}",
    "\\begin{multline}q\\end{gather} \\text{where this relation describes the energy of a body ok}",
    "\\begin{eqnarray}\\text{ }\\text{where this relation describes the energy of a body}\\end{eqnarray}",
    "\\begin{alignedx}y\\end{aligned*} and \\begin{align*}\\text{short}\\end{align*}",
];

#[test]
fn math_cleanup_agrees_with_the_patterns() {
    for s in TEX_SAMPLES.iter() {
        assert_eq!(sanitize_math_environments(s), sanitize_by_regex(s), "input: {:?}", s);
    }
}

const SOURCE_SAMPLES: [&str; 8] = [
    "\\ket{0} \\bra{1} \\braket{a}{b} \\braket{c}{} \\ket{}",
    "\\begin{equation}x = 1, \\text{~\\cite{key}}\\end{equation}",
    "\\begin{equation*}x \\quad \\text{ ~ \\cite{k1,k2} } y\\end{equation*} \\begin{equation}z\\end{equation}",
    "$$a \\text{\\cite{k}} b$$ and $$c$$",
    "\\begin{align}a \\end{align} \\text{\\cite{late}} \\end{align}",
    "\\begin{gather*}g; \\text{\\cite{x}}\\end{gather*}\\begin{gather}h\\end{gather}",
    "\\begin{equation}p \\text{\\cite{a}} q \\text{\\cite{b}} r\\end{equation}",
    "$$ x \\qquad \\text{~\\cite{w}}$$ $$",
];

#[test]
fn html_source_agrees_with_the_patterns() {
    for s in SOURCE_SAMPLES.iter() {
        assert_eq!(prepare_html_source(s), html_source_by_regex(s), "input: {:?}", s);
    }
}
