//! Advice for LaTeX and Pandoc compiler messages.
use vstd::prelude::*;
use crate::numbering::{lemma_skip_ws, skip_ws, skip_ws_exec};
use crate::text::{
    chars_of, contains, contains_exec, copy_range, has_at, has_at_exec, is_ascii_letter, is_white,
    is_ws, lowercase, push_range, push_str, to_lowercase, trim, trim_range,
};

verus! {

// ---------------------------------------------------------------------------
// Fixed advice texts.
// ---------------------------------------------------------------------------

pub const UNDEFINED_COMMAND: &'static str = "A LaTeX command is undefined. Check the highlighted line for a misspelled command or a command whose package has not been loaded.";
pub const FILE_MISSING: &'static str = "A required file, image, bibliography, class or package could not be found. Check the filename and path (including letter case), then confirm the dependency is installed.";
pub const OPEN_ARGUMENT: &'static str = "An argument was left open. Starting at the highlighted line, check for a missing closing brace '}', bracket ']' or environment terminator. The real opening delimiter is often a few lines earlier.";
pub const MALFORMED_LIST: &'static str = "A list structure is malformed. Ensure every item in itemize/enumerate begins with \\item, remove any \\item outside a list, and check that the list's \\begin and \\end match.";
pub const AMSSYMB_AFTER_UNICODE_MATH: &'static str = "The legacy amssymb symbol set is being loaded after unicode-math, so both packages try to define the same symbols. Remove the later/duplicate amssymb load, or load amsmath/amssymb before unicode-math. Do not edit the highlighted prose line.";
pub const DEFINED_TWICE: &'static str = "A command or environment is being defined twice in the LaTeX preamble. This is usually a package conflict, not an error in the highlighted prose. Remove the duplicate package/definition; if Unicode Math is enabled, avoid also loading unicode-math or a conflicting legacy symbol package manually.";
pub const OPTION_CLASH: &'static str = "The same package is loaded more than once with incompatible options. Combine its options in a single \\usepackage[...] declaration and remove the duplicate load.";
pub const NUMBER_EXPECTED: &'static str = "LaTeX expected a number here. Check lengths, counters and optional arguments for a missing numeric value; for dimensions include a valid unit such as pt, mm, cm or in.";
pub const BAD_UNIT: &'static str = "A length has a missing or invalid unit. Use a supported unit such as pt, mm, cm, em, ex or in—for example, '12pt' rather than just '12'.";
pub const DOUBLE_SCRIPT: &'static str = "The same math atom has two consecutive subscripts or superscripts. Group the intended expression with braces, for example x_{a_b}, or remove the extra '_'/'^'.";
pub const GRAPHIC_SIZE: &'static str = "LaTeX cannot determine the image dimensions. Check the image path and format; use PDF/PNG/JPEG with pdfLaTeX or a compatible graphics driver, and verify the file is not corrupt.";
pub const MACRO_ARGUMENTS: &'static str = "A macro was called with arguments that do not match its definition. Check the command's required braces, optional brackets and delimiter order on this line.";
pub const BAD_CSNAME: &'static str = "A command name or reference key contains invalid syntax, often from an unexpected backslash, brace or expansion inside a label/citation. Simplify the key and check delimiter balance.";
pub const EXTRA_RIGHT: &'static str = "Found a \\right that does not have a matching \\left. Check for an extra period (\\right.) or check bracket balance.";
pub const WRONG_END: &'static str = "A math or environment block ended with the wrong environment name. Compare the nearest \\begin{...} and \\end{...} pair.";
pub const UNBALANCED_BRACES: &'static str = "A curly bracket is unbalanced. Check the nesting of your brackets { } (LaTeX often reports this at the end of a paragraph or blank line; check preceding lines if this line is blank).";
pub const UNBALANCED_MATH: &'static str = "Math mode is unbalanced near this line. Check for a missing or extra '$', '$$', '\\(' or '\\[' delimiter, and ensure math-only commands are inside a math environment.";
pub const NESTED_DISPLAY_MATH: &'static str = "Check for nested or mismatched display-math delimiters. Do not wrap an equation/align environment inside '$$...$$' or '\\[...\\]'.";
pub const TEXT_IN_PREAMBLE: &'static str = "LaTeX detected plain text or an illegal document command inside the preamble (before \\begin{document}). You cannot write regular document text in the preamble. Check if you recently uncommented or added plain text above \\begin{document}.";
pub const MISPLACED_ALIGNMENT: &'static str = "An '&' alignment marker or '\\\\' row break is outside a valid table/alignment position, or the row has too many columns. Check the complete row containing the highlighted line.";
pub const UNICODE_CHARACTER: &'static str = "This engine cannot typeset the reported Unicode character. Use LuaLaTeX/XeLaTeX, replace the character with a LaTeX command, or load an appropriate input/font package.";
pub const NO_LINE_TO_END: &'static str = "A '\\\\' line break appears where LaTeX has no active text line. Remove it or place it inside the intended paragraph, table or alignment environment.";
pub const CAPACITY_EXCEEDED: &'static str = "TeX exhausted an internal limit, often because of recursive macro expansion or a cyclic include. Check recently defined commands and included files near the highlighted location.";
pub const FLOAT_LOST: &'static str = "A floating environment (like a figure or table) was not closed properly. Check that all \\begin{figure} blocks have a matching \\end{figure}.";
pub const EMERGENCY_STOP: &'static str = "Compilation stopped after an earlier fatal error. Fix the first error in the list first; this stop message is usually a consequence rather than the root cause.";
pub const UNDEFINED_NAMED_COMMAND_BEFORE: &'static str = "The command '";
pub const UNDEFINED_NAMED_COMMAND_AFTER: &'static str = "' is undefined. Check its spelling and capitalisation, or load the package that defines it. The highlighted source line contains the command LaTeX could not expand.";
pub const UNDEFINED_ENVIRONMENT_AFTER: &'static str = " is not defined. Check the environment name and load the package that supplies it, then confirm its \\begin and \\end names match exactly.";
pub const MATH_ONLY_1: &'static str = " is a math-only command but is being used as ordinary text. Put the complete mathematical expression in math mode—for example, change '";
pub const MATH_ONLY_2: &'static str = "{A}' to '$";
pub const MATH_ONLY_3: &'static str = "{A}$'—or use a text-mode alternative.";
pub const REPORTED_BEFORE: &'static str = "The compiler reported: '";
pub const REPORTED_NAMED_AFTER: &'static str = "'. Check the highlighted source against that message; if it names a command, environment or package, correct or load that specific item first.";
pub const REPORTED_OTHER_AFTER: &'static str = "'. Start at the highlighted line and read one statement backwards; check the exact command or delimiter named in the message before addressing later errors.";



// ---------------------------------------------------------------------------
// What the advice refers to.
// ---------------------------------------------------------------------------

/// Characters of a LaTeX command name (`[A-Za-z@]`).
pub open spec fn command_char(c: char) -> bool {
    is_ascii_letter(c) || c == '@'
}

/// The end of the run of command-name characters from `k`.
pub open spec fn command_end(s: Seq<char>, k: int) -> int
    decreases s.len() - k,
{
    if 0 <= k < s.len() && command_char(s[k]) {
        command_end(s, k + 1)
    } else {
        k
    }
}

/// The leftmost command (`\\[A-Za-z@]+`) at or after `i`: its bounds.
pub open spec fn first_command_from(s: Seq<char>, i: int) -> Option<(int, int)>
    decreases s.len() - i,
{
    if i < 0 || i + 1 >= s.len() {
        None
    } else if s[i] == '\\' && command_char(s[i + 1]) {
        Some((i, command_end(s, i + 1)))
    } else {
        first_command_from(s, i + 1)
    }
}

pub open spec fn first_command(s: Seq<char>) -> Option<(int, int)> {
    first_command_from(s, 0)
}

proof fn lemma_command_end(s: Seq<char>, k: int)
    requires
        0 <= k <= s.len(),
    ensures
        k <= command_end(s, k) <= s.len(),
    decreases s.len() - k,
{
    if k < s.len() && command_char(s[k]) {
        lemma_command_end(s, k + 1);
    }
}

pub proof fn lemma_first_command(s: Seq<char>, i: int)
    requires
        0 <= i,
    ensures
        first_command_from(s, i) matches Some((a, b)) ==> i <= a < b <= s.len(),
    decreases s.len() - i,
{
    if i + 1 < s.len() {
        if s[i] == '\\' && command_char(s[i + 1]) {
            lemma_command_end(s, i + 1);
        } else {
            lemma_first_command(s, i + 1);
        }
    }
}

fn command_char_exec(c: char) -> (r: bool)
    ensures
        r == command_char(c),
{
    ('a' <= c && c <= 'z') || ('A' <= c && c <= 'Z') || c == '@'
}

/// The bounds of the leftmost LaTeX command in `s`.
pub fn first_command_exec(s: &Vec<char>) -> (r: Option<(usize, usize)>)
    ensures
        r matches Some((a, b)) ==> first_command(s@) == Some((a as int, b as int)) && a < b
            <= s@.len(),
        r is None ==> first_command(s@) is None,
{
    proof {
        lemma_first_command(s@, 0);
    }
    let mut i: usize = 0;
    while i < s.len() && i + 1 < s.len()
        invariant
            first_command(s@) == first_command_from(s@, i as int),
        decreases s.len() - i,
    {
        if s[i] == '\\' && command_char_exec(s[i + 1]) {
            let mut e = i + 1;
            while e < s.len() && command_char_exec(s[e])
                invariant
                    i + 1 <= e <= s.len(),
                    command_end(s@, i + 1) == command_end(s@, e as int),
                decreases s.len() - e,
            {
                e = e + 1;
            }
            return Some((i, e));
        }
        i = i + 1;
    }
    None
}

/// The end of the run of non-white-space characters from `k`.
pub open spec fn nonws_end(s: Seq<char>, k: int) -> int
    decreases s.len() - k,
{
    if 0 <= k < s.len() && !is_ws(s[k]) {
        nonws_end(s, k + 1)
    } else {
        k
    }
}

/// `Environment`, white space and a name at `i` (`Environment\\s+([^\\s]+)`).
pub open spec fn environment_word_at(m: Seq<char>, i: int) -> bool {
    &&& has_at(m, i, "Environment"@)
    &&& i + 11 < m.len()
    &&& is_ws(m[i + 11])
    &&& skip_ws(m, i + 11) < m.len()
}

/// The name after the leftmost `Environment` at or after `i`: its bounds.
pub open spec fn environment_named_from(m: Seq<char>, i: int) -> Option<(int, int)>
    decreases m.len() - i,
{
    if i < 0 || i >= m.len() {
        None
    } else if environment_word_at(m, i) {
        Some((skip_ws(m, i + 11), nonws_end(m, skip_ws(m, i + 11))))
    } else {
        environment_named_from(m, i + 1)
    }
}

pub open spec fn environment_named(m: Seq<char>) -> Option<(int, int)> {
    environment_named_from(m, 0)
}

fn environment_named_exec(m: &Vec<char>) -> (r: Option<(usize, usize)>)
    ensures
        r matches Some((a, b)) ==> environment_named(m@) == Some((a as int, b as int)) && a <= b
            <= m@.len(),
        r is None ==> environment_named(m@) is None,
{
    let word = chars_of("Environment");
    proof {
        reveal_strlit("Environment");
    }
    let ml = m.len();
    let mut i: usize = 0;
    while i < ml
        invariant
            i <= ml,
            ml == m@.len(),
            word@ == "Environment"@,
            word@.len() == 11,
            environment_named(m@) == environment_named_from(m@, i as int),
        decreases ml - i,
    {
        if has_at_exec(m, i, &word) && i + 11 < ml && is_white(m[i + 11]) {
            let a = skip_ws_exec(m, i + 11);
            proof {
                lemma_skip_ws(m@, i + 11);
            }
            if a < ml {
                let mut b = a;
                while b < ml && !is_white(m[b])
                    invariant
                        a <= b <= ml,
                        ml == m@.len(),
                        nonws_end(m@, a as int) == nonws_end(m@, b as int),
                    decreases ml - b,
                {
                    b = b + 1;
                }
                return Some((a, b));
            }
        }
        i = i + 1;
    }
    None
}

/// The text mentions a symbol that both `amssymb` and `unicode-math` define.
pub open spec fn mentions_conflicting_symbol(c: Seq<char>) -> bool {
    ||| contains(c, "\\eth"@)
    ||| contains(c, "\\smallsetminus"@)
    ||| contains(c, "\\digamma"@)
    ||| contains(c, "\\backepsilon"@)
}

fn has(t: &Vec<char>, p: &str) -> (r: bool)
    ensures
        r == contains(t@, p@),
{
    contains_exec(t, &chars_of(p))
}

fn mentions_conflicting_symbol_exec(c: &Vec<char>) -> (r: bool)
    ensures
        r == mentions_conflicting_symbol(c@),
{
    has(c, "\\eth") || has(c, "\\smallsetminus") || has(c, "\\digamma") || has(c, "\\backepsilon")
}

/// Advice for a math-only command `cmd` used in text.
pub open spec fn math_only_text(cmd: Seq<char>) -> Seq<char> {
    cmd + MATH_ONLY_1@ + cmd + MATH_ONLY_2@ + cmd + MATH_ONLY_3@
}

fn push_math_only_text(out: &mut String, cmd: &Vec<char>)
    ensures
        final(out)@ == old(out)@ + math_only_text(cmd@),
{
    crate::text::push_chars(out, cmd);
    push_str(out, MATH_ONLY_1);
    crate::text::push_chars(out, cmd);
    push_str(out, MATH_ONLY_2);
    crate::text::push_chars(out, cmd);
    push_str(out, MATH_ONLY_3);
    assert(out@ =~= old(out)@ + math_only_text(cmd@));
}

fn push_all(out: &mut Vec<char>, v: &Vec<char>)
    ensures
        final(out)@ == old(out)@ + v@,
{
    let mut k: usize = 0;
    while k < v.len()
        invariant
            k <= v.len(),
            out@ == old(out)@ + v@.subrange(0, k as int),
        decreases v.len() - k,
    {
        out.push(v[k]);
        k = k + 1;
        assert(out@ =~= old(out)@ + v@.subrange(0, k as int));
    }
    assert(v@.subrange(0, k as int) =~= v@);
}

// ---------------------------------------------------------------------------
// The advice.
// ---------------------------------------------------------------------------

/// The advice given for a compiler message and the source context it was
/// reported with: the first rule, in order, whose phrases occur in the
/// lowercased message decides; commands are looked up in the message
/// followed by a space and the context.
pub open spec fn suggestion(message: Seq<char>, context: Seq<char>) -> Seq<char> {
    let lower = lowercase(message);
    let combined = message + seq![' '] + context;
    if (contains(lower, "undefined control sequence"@)) {
        match first_command(combined) {
            Some((a, b)) => UNDEFINED_NAMED_COMMAND_BEFORE@ + combined.subrange(a, b) + UNDEFINED_NAMED_COMMAND_AFTER@,
            None => UNDEFINED_COMMAND@,
        }
    } else if (contains(lower, "file"@) && contains(lower, "not found"@)) {
        FILE_MISSING@
    } else if (contains(lower, "runaway argument"@)) || (contains(lower, "paragraph ended before"@)) {
        OPEN_ARGUMENT@
    } else if (contains(lower, "something's wrong"@)) || (contains(lower, "missing \\item"@)) || (contains(lower, "lonely \\item"@)) {
        MALFORMED_LIST@
    } else if (contains(lower, "environment"@) && contains(lower, "undefined"@)) {
        match environment_named(message) {
            Some((a, b)) => message.subrange(a, b) + UNDEFINED_ENVIRONMENT_AFTER@,
            None => "the reported environment"@ + UNDEFINED_ENVIRONMENT_AFTER@,
        }
    } else if (contains(lower, "already defined"@)) || (contains(lower, "command \\end"@) && contains(lower, "already"@)) {
        if mentions_conflicting_symbol(combined) {
            AMSSYMB_AFTER_UNICODE_MATH@
        } else {
            DEFINED_TWICE@
        }
    } else if (contains(lower, "option clash for package"@)) {
        OPTION_CLASH@
    } else if (contains(lower, "missing number"@)) || (contains(lower, "number expected"@)) {
        NUMBER_EXPECTED@
    } else if (contains(lower, "illegal unit of measure"@)) {
        BAD_UNIT@
    } else if (contains(lower, "double subscript"@)) || (contains(lower, "double superscript"@)) {
        DOUBLE_SCRIPT@
    } else if (contains(lower, "cannot determine size of graphic"@)) || (contains(lower, "no boundingbox"@)) {
        GRAPHIC_SIZE@
    } else if (contains(lower, "use of"@) && contains(lower, "doesn't match its definition"@)) {
        MACRO_ARGUMENTS@
    } else if (contains(lower, "missing \\endcsname inserted"@)) {
        BAD_CSNAME@
    } else if (contains(lower, "extra \\right"@)) {
        EXTRA_RIGHT@
    } else if (contains(lower, "ended by \\end"@)) {
        WRONG_END@
    } else if (contains(lower, "missing } inserted"@)) || (contains(lower, "too many }"@)) {
        UNBALANCED_BRACES@
    } else if (contains(lower, "missing $ inserted"@)) || (contains(lower, "math shift"@)) {
        UNBALANCED_MATH@
    } else if (contains(lower, "allowed only in math mode"@)) || (contains(lower, "only allowed in math mode"@)) {
        math_only_text(match first_command(combined) {
            Some((a, b)) => combined.subrange(a, b),
            None => "This command"@,
        })
    } else if (contains(lower, "display math"@)) || (contains(lower, "bad math environment"@)) || (contains(lower, "eqno"@)) {
        NESTED_DISPLAY_MATH@
    } else if (contains(lower, "missing \\begin{document}"@)) || (contains(lower, "missing begin{document}"@)) {
        TEXT_IN_PREAMBLE@
    } else if (contains(lower, "misplaced alignment tab"@)) || (contains(lower, "misplaced \\crcr"@)) || (contains(lower, "extra alignment tab"@)) {
        MISPLACED_ALIGNMENT@
    } else if (contains(lower, "unicode character"@) && contains(lower, "not set up"@)) {
        UNICODE_CHARACTER@
    } else if (contains(lower, "there's no line here to end"@)) {
        NO_LINE_TO_END@
    } else if (contains(lower, "capacity exceeded"@)) {
        CAPACITY_EXCEEDED@
    } else if (contains(lower, "float(s) lost"@)) {
        FLOAT_LOST@
    } else if (contains(lower, "emergency stop"@)) {
        EMERGENCY_STOP@
    } else if (contains(lower, "latex error"@)) || (contains(lower, "package error"@)) {
        REPORTED_BEFORE@ + trim(message) + REPORTED_NAMED_AFTER@
    } else {
        REPORTED_BEFORE@ + trim(message) + REPORTED_OTHER_AFTER@
    }
}

pub fn generate_suggestion(message: &str, context: &str) -> (r: String)
    ensures
        r@ == suggestion(message@, context@),
{
    let lower_s = to_lowercase(message);
    let lower = chars_of(lower_s.as_str());
    let msg = chars_of(message);
    let mut combined = chars_of(message);
    combined.push(' ');
    push_all(&mut combined, &chars_of(context));
    assert(combined@ =~= message@ + seq![' '] + context@);
    let (ta, tb) = trim_range(&msg, 0, msg.len());
    assert(msg@.subrange(0, msg@.len() as int) =~= msg@);
    let mut out = String::new();
    if (has(&lower, "undefined control sequence")) {
        match first_command_exec(&combined) {
            Some((a, b)) => {
                push_str(&mut out, UNDEFINED_NAMED_COMMAND_BEFORE);
                push_range(&mut out, &combined, a, b);
                push_str(&mut out, UNDEFINED_NAMED_COMMAND_AFTER);
            },
            None => push_str(&mut out, UNDEFINED_COMMAND),
        }
    } else if (has(&lower, "file") && has(&lower, "not found")) {
        push_str(&mut out, FILE_MISSING);
    } else if (has(&lower, "runaway argument")) || (has(&lower, "paragraph ended before")) {
        push_str(&mut out, OPEN_ARGUMENT);
    } else if (has(&lower, "something's wrong")) || (has(&lower, "missing \\item")) || (has(&lower, "lonely \\item")) {
        push_str(&mut out, MALFORMED_LIST);
    } else if (has(&lower, "environment") && has(&lower, "undefined")) {
        match environment_named_exec(&msg) {
            Some((a, b)) => push_range(&mut out, &msg, a, b),
            None => push_str(&mut out, "the reported environment"),
        }
        push_str(&mut out, UNDEFINED_ENVIRONMENT_AFTER);
    } else if (has(&lower, "already defined")) || (has(&lower, "command \\end") && has(&lower, "already")) {
        if mentions_conflicting_symbol_exec(&combined) {
            push_str(&mut out, AMSSYMB_AFTER_UNICODE_MATH);
        } else {
            push_str(&mut out, DEFINED_TWICE);
        }
    } else if (has(&lower, "option clash for package")) {
        push_str(&mut out, OPTION_CLASH);
    } else if (has(&lower, "missing number")) || (has(&lower, "number expected")) {
        push_str(&mut out, NUMBER_EXPECTED);
    } else if (has(&lower, "illegal unit of measure")) {
        push_str(&mut out, BAD_UNIT);
    } else if (has(&lower, "double subscript")) || (has(&lower, "double superscript")) {
        push_str(&mut out, DOUBLE_SCRIPT);
    } else if (has(&lower, "cannot determine size of graphic")) || (has(&lower, "no boundingbox")) {
        push_str(&mut out, GRAPHIC_SIZE);
    } else if (has(&lower, "use of") && has(&lower, "doesn't match its definition")) {
        push_str(&mut out, MACRO_ARGUMENTS);
    } else if (has(&lower, "missing \\endcsname inserted")) {
        push_str(&mut out, BAD_CSNAME);
    } else if (has(&lower, "extra \\right")) {
        push_str(&mut out, EXTRA_RIGHT);
    } else if (has(&lower, "ended by \\end")) {
        push_str(&mut out, WRONG_END);
    } else if (has(&lower, "missing } inserted")) || (has(&lower, "too many }")) {
        push_str(&mut out, UNBALANCED_BRACES);
    } else if (has(&lower, "missing $ inserted")) || (has(&lower, "math shift")) {
        push_str(&mut out, UNBALANCED_MATH);
    } else if (has(&lower, "allowed only in math mode")) || (has(&lower, "only allowed in math mode")) {
        let cmd = match first_command_exec(&combined) {
            Some((a, b)) => copy_range(&combined, a, b),
            None => chars_of("This command"),
        };
        push_math_only_text(&mut out, &cmd);
    } else if (has(&lower, "display math")) || (has(&lower, "bad math environment")) || (has(&lower, "eqno")) {
        push_str(&mut out, NESTED_DISPLAY_MATH);
    } else if (has(&lower, "missing \\begin{document}")) || (has(&lower, "missing begin{document}")) {
        push_str(&mut out, TEXT_IN_PREAMBLE);
    } else if (has(&lower, "misplaced alignment tab")) || (has(&lower, "misplaced \\crcr")) || (has(&lower, "extra alignment tab")) {
        push_str(&mut out, MISPLACED_ALIGNMENT);
    } else if (has(&lower, "unicode character") && has(&lower, "not set up")) {
        push_str(&mut out, UNICODE_CHARACTER);
    } else if (has(&lower, "there's no line here to end")) {
        push_str(&mut out, NO_LINE_TO_END);
    } else if (has(&lower, "capacity exceeded")) {
        push_str(&mut out, CAPACITY_EXCEEDED);
    } else if (has(&lower, "float(s) lost")) {
        push_str(&mut out, FLOAT_LOST);
    } else if (has(&lower, "emergency stop")) {
        push_str(&mut out, EMERGENCY_STOP);
    } else if (has(&lower, "latex error")) || (has(&lower, "package error")) {
        push_str(&mut out, REPORTED_BEFORE);
        push_range(&mut out, &msg, ta, tb);
        push_str(&mut out, REPORTED_NAMED_AFTER);
    } else {
        push_str(&mut out, REPORTED_BEFORE);
        push_range(&mut out, &msg, ta, tb);
        push_str(&mut out, REPORTED_OTHER_AFTER);
    }
    assert(out@ =~= suggestion(message@, context@));
    out
}

// ---------------------------------------------------------------------------
// Laws.
// ---------------------------------------------------------------------------

/// Some rule that comes before the brace and math rules claims the
/// (lowercased) message.
pub open spec fn claimed_before_delimiters(lower: Seq<char>) -> bool {
    ||| contains(lower, "undefined control sequence"@)
    ||| (contains(lower, "file"@) && contains(lower, "not found"@))
    ||| contains(lower, "runaway argument"@)
    ||| contains(lower, "paragraph ended before"@)
    ||| contains(lower, "something's wrong"@)
    ||| contains(lower, "missing \\item"@)
    ||| contains(lower, "lonely \\item"@)
    ||| (contains(lower, "environment"@) && contains(lower, "undefined"@))
    ||| contains(lower, "already defined"@)
    ||| (contains(lower, "command \\end"@) && contains(lower, "already"@))
    ||| contains(lower, "option clash for package"@)
    ||| contains(lower, "missing number"@)
    ||| contains(lower, "number expected"@)
    ||| contains(lower, "illegal unit of measure"@)
    ||| contains(lower, "double subscript"@)
    ||| contains(lower, "double superscript"@)
    ||| contains(lower, "cannot determine size of graphic"@)
    ||| contains(lower, "no boundingbox"@)
    ||| (contains(lower, "use of"@) && contains(lower, "doesn't match its definition"@))
    ||| contains(lower, "missing \\endcsname inserted"@)
    ||| contains(lower, "extra \\right"@)
    ||| contains(lower, "ended by \\end"@)
}

/// Unbalanced braces and unbalanced math get different advice: a message
/// about a missing `}` (or too many) gets the brace advice, and one about a
/// missing `$` (or a math shift) that no brace phrase claims gets the
/// math-mode advice, never the brace advice.
pub proof fn law_unbalanced_math_and_braces_advice(message: Seq<char>, context: Seq<char>)
    requires
        !claimed_before_delimiters(lowercase(message)),
    ensures
        (contains(lowercase(message), "missing } inserted"@) || contains(lowercase(message), "too many }"@))
            ==> suggestion(message, context) == UNBALANCED_BRACES@,
        !contains(lowercase(message), "missing } inserted"@) && !contains(lowercase(message), "too many }"@)
            && (contains(lowercase(message), "missing $ inserted"@) || contains(
            lowercase(message),
            "math shift"@,
        )) ==> suggestion(message, context) == UNBALANCED_MATH@ && suggestion(message, context)
            != UNBALANCED_BRACES@,
{
    reveal_strlit("Math mode is unbalanced near this line. Check for a missing or extra '$', '$$', '\\(' or '\\[' delimiter, and ensure math-only commands are inside a math environment.");
    reveal_strlit("A curly bracket is unbalanced. Check the nesting of your brackets { } (LaTeX often reports this at the end of a paragraph or blank line; check preceding lines if this line is blank).");
    assert(UNBALANCED_MATH@[0] != UNBALANCED_BRACES@[0]);
}

} // verus!
