//! Checks of a manuscript's display mathematics, line by line: delimiters
//! that wrap an environment, and long prose written inside `\text{..}`.
use vstd::prelude::*;
use crate::diagnostics::{utf8_len, utf8_len_at_least};
use crate::mathfix::{math_env, text_group_at, text_group_exec, unwrap_at, unwrap_at_exec, MathWords};
use crate::numbering::{lemma_skip_ws, skip_ws, skip_ws_exec, utf8_width};
use crate::text::{
    chars_of, contains, contains_exec, copy_range, has_at, has_at_exec, lines, push_range,
    push_str, split_lines, starts_with, string_of, trim, trim_range, views,
};

verus! {

pub const NESTED_BEGIN: &'static str = "Invalid nested math mode: Found '$$\\begin{...}'. Display math delimiters ($$ or \\[ \\]) must NEVER wrap LaTeX equation environments (\\begin{equation}). Use one method only.";

pub const NESTED_END: &'static str = "Invalid nested math mode: Found '\\end{...}$$'. Remove redundant trailing '$$' delimiters.";

pub const DOUBLED_DELIMITERS: &'static str = "Invalid nested math mode: Found '$$\\[' or '\\]$$'. Do not combine '$$' delimiters with '\\[ \\]' brackets.";

pub const BRACKETED_BEGIN: &'static str = "Invalid nested math mode: Found '\\[\\begin{...}'. Display math brackets '\\[ \\]' must not wrap equation environments.";

pub const BRACKETED_END: &'static str = "Invalid nested math mode: Found '\\end{...}\\]'. Remove redundant trailing '\\]' brackets.";

pub const PROSE_WARNING_BEFORE: &'static str = "Compatibility Warning: Long explanatory prose found inside \\text{...} in equation environment ('";

pub const PROSE_WARNING_AFTER: &'static str = "...'). For best DOCX/Pandoc compatibility, move explanatory prose out of the equation into standard paragraph text.";

pub const ERROR_LEVEL: &'static str = "ERROR";

pub const WARNING_LEVEL: &'static str = "WARNING";

/// One of the math environment names stands at `p` (as a prefix).
pub open spec fn begins_math_env(l: Seq<char>, p: int) -> bool {
    exists|k: int| 0 <= k < 6 && has_at(l, p, #[trigger] math_env(k))
}

/// `open`, white space, then `\begin{` and a math environment name, at `i`.
pub open spec fn wrapped_begin_at(l: Seq<char>, i: int, open: Seq<char>) -> bool {
    &&& has_at(l, i, open)
    &&& has_at(l, skip_ws(l, i + open.len()), "\\begin{"@)
    &&& begins_math_env(l, skip_ws(l, i + open.len()) + "\\begin{"@.len())
}

/// `$$ \begin{NAME` somewhere in the line.
pub open spec fn has_nested_begin(l: Seq<char>) -> bool {
    exists|i: int| 0 <= i < l.len() && #[trigger] wrapped_begin_at(l, i, "$$"@)
}

/// `\[ \begin{NAME` somewhere in the line.
pub open spec fn has_bracketed_begin(l: Seq<char>) -> bool {
    exists|i: int| 0 <= i < l.len() && #[trigger] wrapped_begin_at(l, i, "\\["@)
}

/// A rewrite of the given kind (see `mathfix`) applies somewhere in the line.
pub open spec fn has_wrap(l: Seq<char>, kind: int) -> bool {
    exists|i: int| 0 <= i < l.len() && #[trigger] unwrap_at(l, i, kind) is Some
}

/// The `\text{..}` captures of a line, left to right without overlap.
pub open spec fn text_groups_from(l: Seq<char>, i: int) -> Seq<(int, int)>
    decreases l.len() - i,
{
    if i < 0 || i >= l.len() {
        seq![]
    } else {
        match text_group_at(l, i) {
            Some((a, z, e)) => if i < e <= l.len() {
                seq![(a, z)] + text_groups_from(l, e)
            } else {
                text_groups_from(l, i + 1)
            },
            None => text_groups_from(l, i + 1),
        }
    }
}

/// The number of leading characters of `s` that make up its first `n`
/// bytes in UTF-8 (all of them where `s` is shorter); `None` where byte `n`
/// falls inside a character.
pub open spec fn byte_cut(s: Seq<char>, n: int, k: int, used: int) -> Option<int>
    decreases s.len() - k,
{
    if used == n {
        Some(k)
    } else if used > n {
        None
    } else if k < 0 || k >= s.len() {
        Some(k)
    } else {
        byte_cut(s, n, k + 1, used + utf8_width(s[k]))
    }
}

/// Prose that deserves a warning: not a citation, longer than 25 bytes,
/// and with a space.
pub open spec fn is_prose_warning(t: Seq<char>) -> bool {
    !starts_with(t, "\\cite"@) && !starts_with(t, "~\\cite"@) && utf8_len(t) > 25 && contains(
        t,
        " "@,
    )
}

/// A problem found in a manuscript.
pub struct ManuscriptIssue {
    pub line: usize,
    pub level: String,
    pub message: String,
    pub snippet: String,
}

/// What a `ManuscriptIssue` holds.
pub struct Issue {
    pub line: nat,
    pub level: Seq<char>,
    pub message: Seq<char>,
    pub snippet: Seq<char>,
}

impl View for ManuscriptIssue {
    type V = Issue;

    open spec fn view(&self) -> Issue {
        Issue {
            line: self.line as nat,
            level: self.level@,
            message: self.message@,
            snippet: self.snippet@,
        }
    }
}

pub open spec fn issues_of(v: Seq<ManuscriptIssue>) -> Seq<Issue> {
    v.map_values(|i: ManuscriptIssue| i@)
}

pub open spec fn error_if(cond: bool, n: nat, message: Seq<char>, snippet: Seq<char>) -> Seq<Issue> {
    if cond {
        seq![Issue { line: n, level: ERROR_LEVEL@, message, snippet }]
    } else {
        seq![]
    }
}

/// The warnings for the captured texts `gs` of line `l`.
pub open spec fn prose_warnings(l: Seq<char>, gs: Seq<(int, int)>, n: nat, snippet: Seq<char>) -> Seq<
    Issue,
>
    decreases gs.len(),
{
    if gs.len() == 0 {
        seq![]
    } else {
        let prev = prose_warnings(l, gs.drop_last(), n, snippet);
        let t = l.subrange(gs.last().0, gs.last().1);
        if is_prose_warning(t) {
            let cut = match byte_cut(t, 40, 0, 0) {
                Some(k) => k,
                None => 0,
            };
            prev.push(
                Issue {
                    line: n,
                    level: WARNING_LEVEL@,
                    message: PROSE_WARNING_BEFORE@ + t.subrange(0, cut) + PROSE_WARNING_AFTER@,
                    snippet,
                },
            )
        } else {
            prev
        }
    }
}

/// The errors of line `l`, numbered `n`, each quoting the trimmed line.
pub open spec fn line_errors(l: Seq<char>, n: nat, snip: Seq<char>) -> Seq<Issue> {
    error_if(has_nested_begin(l), n, NESTED_BEGIN@, snip) + error_if(has_wrap(l, 1), n, NESTED_END@, snip)
        + error_if(has_wrap(l, 4) || has_wrap(l, 5), n, DOUBLED_DELIMITERS@, snip) + error_if(
        has_bracketed_begin(l),
        n,
        BRACKETED_BEGIN@,
        snip,
    ) + error_if(has_wrap(l, 3), n, BRACKETED_END@, snip)
}

/// The issues of line `l`, numbered `n`: its errors, then its warnings.
pub open spec fn line_issues(l: Seq<char>, n: nat) -> Seq<Issue> {
    line_errors(l, n, trim(l)) + prose_warnings(l, text_groups_from(l, 0), n, trim(l))
}

/// The issues of all lines, in order.
pub open spec fn manuscript_issues_of(ls: Seq<Seq<char>>) -> Seq<Issue>
    decreases ls.len(),
{
    if ls.len() == 0 {
        seq![]
    } else {
        manuscript_issues_of(ls.drop_last()) + line_issues(ls.last(), ls.len())
    }
}

/// Some warning among the captures `gs` would quote its prose cut inside
/// a character.
pub open spec fn cut_fails_in(l: Seq<char>, gs: Seq<(int, int)>) -> bool
    decreases gs.len(),
{
    if gs.len() == 0 {
        false
    } else {
        let t = l.subrange(gs.last().0, gs.last().1);
        cut_fails_in(l, gs.drop_last()) || (is_prose_warning(t) && byte_cut(t, 40, 0, 0) is None)
    }
}

/// A warning of line `l` would quote its prose cut inside a character.
pub open spec fn line_cut_fails(l: Seq<char>) -> bool {
    cut_fails_in(l, text_groups_from(l, 0))
}

/// Checking the manuscript fails: some warning cannot cut its quotation.
pub open spec fn manuscript_check_fails(content: Seq<char>) -> bool {
    exists|k: int| 0 <= k < lines(content).len() && #[trigger] line_cut_fails(lines(content)[k])
}

// ---------------------------------------------------------------------------
// The executable side.
// ---------------------------------------------------------------------------

fn begins_math_env_exec(l: &Vec<char>, p: usize, w: &MathWords) -> (r: bool)
    requires
        w.wf(),
    ensures
        r == begins_math_env(l@, p as int),
{
    let mut k: usize = 0;
    while k < 6
        invariant
            w.wf(),
            k <= 6,
            forall|j: int| 0 <= j < k ==> !has_at(l@, p as int, #[trigger] math_env(j)),
        decreases 6 - k,
    {
        assert(w.names@[k as int]@ == math_env(k as int));
        if has_at_exec(l, p, &w.names[k]) {
            return true;
        }
        k = k + 1;
    }
    false
}

fn wrapped_begin_exec(l: &Vec<char>, i: usize, open: &Vec<char>, w: &MathWords) -> (r: bool)
    requires
        w.wf(),
    ensures
        r == wrapped_begin_at(l@, i as int, open@),
{
    if !has_at_exec(l, i, open) {
        return false;
    }
    assert(i + open@.len() <= l.len());
    proof {
        lemma_skip_ws(l@, i + open@.len());
    }
    let ws = skip_ws_exec(l, i + open.len());
    if !has_at_exec(l, ws, &w.begin) {
        return false;
    }
    assert(ws + w.begin@.len() <= l.len());
    begins_math_env_exec(l, ws + w.begin.len(), w)
}

fn has_wrapped_begin_exec(l: &Vec<char>, open: &Vec<char>, w: &MathWords) -> (r: bool)
    requires
        w.wf(),
    ensures
        r == exists|i: int| 0 <= i < l@.len() && #[trigger] wrapped_begin_at(l@, i, open@),
{
    let mut i: usize = 0;
    while i < l.len()
        invariant
            w.wf(),
            i <= l.len(),
            forall|j: int| 0 <= j < i ==> !#[trigger] wrapped_begin_at(l@, j, open@),
        decreases l.len() - i,
    {
        if wrapped_begin_exec(l, i, open, w) {
            return true;
        }
        i = i + 1;
    }
    false
}

fn has_wrap_exec(l: &Vec<char>, kind: usize, w: &MathWords) -> (r: bool)
    requires
        w.wf(),
        kind < 6,
    ensures
        r == has_wrap(l@, kind as int),
{
    let mut i: usize = 0;
    while i < l.len()
        invariant
            w.wf(),
            kind < 6,
            i <= l.len(),
            forall|j: int| 0 <= j < i ==> !(#[trigger] unwrap_at(l@, j, kind as int) is Some),
        decreases l.len() - i,
    {
        if unwrap_at_exec(l, i, kind, w).is_some() {
            return true;
        }
        i = i + 1;
    }
    false
}

fn byte_cut_exec(t: &Vec<char>, n: usize) -> (r: Option<usize>)
    requires
        n < 1000,
    ensures
        match r {
            Some(k) => byte_cut(t@, n as int, 0, 0) == Some(k as int) && k <= t.len(),
            None => byte_cut(t@, n as int, 0, 0) is None,
        },
{
    let mut k: usize = 0;
    let mut used: usize = 0;
    while k < t.len() && used < n
        invariant
            k <= t.len(),
            used <= n + 4,
            n < 1000,
            byte_cut(t@, n as int, 0, 0) == byte_cut(t@, n as int, k as int, used as int),
        decreases t.len() - k,
    {
        let v = t[k] as u32;
        let wd: usize = if v < 0x80 {
            1
        } else if v < 0x800 {
            2
        } else if v < 0x10000 {
            3
        } else {
            4
        };
        assert(wd == utf8_width(t@[k as int]));
        used = used + wd;
        k = k + 1;
    }
    if used > n {
        None
    } else {
        Some(k)
    }
}

fn is_prose_warning_exec(t: &Vec<char>, w: &MathWords) -> (r: bool)
    requires
        w.wf(),
    ensures
        r == is_prose_warning(t@),
{
    assert(t@.subrange(0, t@.len() as int) =~= t@);
    !has_at_exec(t, 0, &w.cite) && !has_at_exec(t, 0, &w.tilde_cite) && utf8_len_at_least(
        t,
        0,
        t.len(),
        26,
    ) && contains_exec(t, &w.space)
}

pub open spec fn issue_with(line: nat, level: Seq<char>, message: Seq<char>, snippet: Seq<char>) -> Issue {
    Issue { line, level, message, snippet }
}

fn push_issue(out: &mut Vec<ManuscriptIssue>, line: usize, level: &str, message: String, snippet: &Vec<char>)
    ensures
        issues_of(final(out)@) == issues_of(old(out)@).push(
            issue_with(line as nat, level@, message@, snippet@),
        ),
{
    let ghost before = out@;
    let i = ManuscriptIssue {
        line,
        level: String::from_str(level),
        message,
        snippet: string_of(snippet),
    };
    out.push(i);
    assert(issues_of(out@) =~= issues_of(before).push(i@));
}

fn error_when(
    out: &mut Vec<ManuscriptIssue>,
    cond: bool,
    line: usize,
    message: &str,
    snippet: &Vec<char>,
)
    ensures
        issues_of(final(out)@) == issues_of(old(out)@) + error_if(
            cond,
            line as nat,
            message@,
            snippet@,
        ),
{
    if cond {
        push_issue(out, line, ERROR_LEVEL, String::from_str(message), snippet);
        assert(error_if(cond, line as nat, message@, snippet@) =~= seq![
            issue_with(line as nat, ERROR_LEVEL@, message@, snippet@),
        ]);
    }
    assert(issues_of(out@) =~= issues_of(old(out)@) + error_if(cond, line as nat, message@, snippet@));
}

fn line_errors_exec(l: &Vec<char>, n: usize, snip: &Vec<char>, w: &MathWords, out: &mut Vec<ManuscriptIssue>)
    requires
        w.wf(),
    ensures
        issues_of(final(out)@) == issues_of(old(out)@) + line_errors(l@, n as nat, snip@),
{
    error_when(out, has_wrapped_begin_exec(l, &w.dollars, w), n, NESTED_BEGIN, snip);
    error_when(out, has_wrap_exec(l, 1, w), n, NESTED_END, snip);
    let doubled = has_wrap_exec(l, 4, w) || has_wrap_exec(l, 5, w);
    error_when(out, doubled, n, DOUBLED_DELIMITERS, snip);
    error_when(out, has_wrapped_begin_exec(l, &w.open_br, w), n, BRACKETED_BEGIN, snip);
    error_when(out, has_wrap_exec(l, 3, w), n, BRACKETED_END, snip);
    assert(issues_of(out@) =~= issues_of(old(out)@) + line_errors(l@, n as nat, snip@));
}

fn prose_warnings_exec(
    l: &Vec<char>,
    n: usize,
    snip: &Vec<char>,
    w: &MathWords,
    out: &mut Vec<ManuscriptIssue>,
) -> (fails: bool)
    requires
        w.wf(),
    ensures
        fails == line_cut_fails(l@),
        !fails ==> issues_of(final(out)@) == issues_of(old(out)@) + prose_warnings(
            l@,
            text_groups_from(l@, 0),
            n as nat,
            snip@,
        ),
{
    let ghost all = text_groups_from(l@, 0);
    let ghost start = issues_of(out@);
    let ghost mut seen: Seq<(int, int)> = seq![];
    let mut fails = false;
    let mut i: usize = 0;
    while i < l.len()
        invariant
            w.wf(),
            i <= l.len(),
            all == text_groups_from(l@, 0),
            seen + text_groups_from(l@, i as int) == all,
            fails == cut_fails_in(l@, seen),
            !fails ==> issues_of(out@) == start + prose_warnings(l@, seen, n as nat, snip@),
        decreases l.len() - i,
    {
        match text_group_exec(l, i, w) {
            Some((ga, gz, ge)) => {
                let t = copy_range(l, ga, gz);
                let ghost old_seen = seen;
                proof {
                    seen = seen.push((ga as int, gz as int));
                    assert(seen.drop_last() =~= old_seen);
                    assert(seq![(ga as int, gz as int)] + text_groups_from(l@, ge as int)
                        == text_groups_from(l@, i as int));
                    assert(seen + text_groups_from(l@, ge as int) =~= old_seen + (seq![
                        (ga as int, gz as int),
                    ] + text_groups_from(l@, ge as int)));
                }
                if is_prose_warning_exec(&t, w) {
                    match byte_cut_exec(&t, 40) {
                        Some(cut) => {
                            if !fails {
                                let mut m = String::from_str(PROSE_WARNING_BEFORE);
                                push_range(&mut m, &t, 0, cut);
                                push_str(&mut m, PROSE_WARNING_AFTER);
                                push_issue(out, n, WARNING_LEVEL, m, snip);
                            }
                        },
                        None => {
                            fails = true;
                        },
                    }
                }
                i = ge;
            },
            None => {
                i = i + 1;
            },
        }
    }
    proof {
        assert(seen + text_groups_from(l@, i as int) =~= seen);
    }
    fails
}

/// Checks one line; `fails` tells whether a warning could not cut its quotation.
fn line_issues_exec(l: &Vec<char>, n: usize, w: &MathWords, out: &mut Vec<ManuscriptIssue>) -> (fails: bool)
    requires
        w.wf(),
    ensures
        fails == line_cut_fails(l@),
        !fails ==> issues_of(final(out)@) == issues_of(old(out)@) + line_issues(l@, n as nat),
{
    let (a, b) = trim_range(l, 0, l.len());
    assert(l@.subrange(0, l@.len() as int) =~= l@);
    let snip = copy_range(l, a, b);
    line_errors_exec(l, n, &snip, w, out);
    let ghost mid = issues_of(out@);
    let fails = prose_warnings_exec(l, n, &snip, w, out);
    assert(snip@ == trim(l@));
    proof {
        if !fails {
            assert(issues_of(out@) =~= issues_of(old(out)@) + (line_errors(l@, n as nat, snip@)
                + prose_warnings(l@, text_groups_from(l@, 0), n as nat, snip@)));
        }
    }
    fails
}

/// Whether checking `content` fails: some warning would quote its prose
/// cut inside a character.
pub fn manuscript_check_would_fail(content: &str) -> (r: bool)
    ensures
        r == manuscript_check_fails(content@),
{
    let ls = split_lines(&chars_of(content));
    let w = MathWords::new();
    let mut k: usize = 0;
    while k < ls.len()
        invariant
            w.wf(),
            k <= ls.len(),
            views(ls@) == lines(content@),
            forall|j: int| 0 <= j < k ==> !#[trigger] line_cut_fails(lines(content@)[j]),
        decreases ls.len() - k,
    {
        let mut scratch: Vec<ManuscriptIssue> = Vec::new();
        if line_issues_exec(&ls[k], k + 1, &w, &mut scratch) {
            assert(line_cut_fails(lines(content@)[k as int]));
            return true;
        }
        k = k + 1;
    }
    false
}

/// The issues of a manuscript, line by line: errors for delimiters that
/// wrap an equation environment, then warnings for long prose in `\text{..}`.
pub fn manuscript_issues(content: &str) -> (r: Vec<ManuscriptIssue>)
    requires
        !manuscript_check_fails(content@),
    ensures
        issues_of(r@) == manuscript_issues_of(lines(content@)),
{
    let ls = split_lines(&chars_of(content));
    let w = MathWords::new();
    let mut out: Vec<ManuscriptIssue> = Vec::new();
    let mut k: usize = 0;
    assert(issues_of(out@) =~= manuscript_issues_of(views(ls@).subrange(0, 0)));
    while k < ls.len()
        invariant
            w.wf(),
            k <= ls.len(),
            views(ls@) == lines(content@),
            !manuscript_check_fails(content@),
            issues_of(out@) == manuscript_issues_of(views(ls@).subrange(0, k as int)),
        decreases ls.len() - k,
    {
        assert(!line_cut_fails(lines(content@)[k as int]));
        let f = line_issues_exec(&ls[k], k + 1, &w, &mut out);
        assert(views(ls@).subrange(0, k + 1).drop_last() =~= views(ls@).subrange(0, k as int));
        k = k + 1;
    }
    assert(views(ls@).subrange(0, k as int) =~= views(ls@));
    out
}

/// The issues of a manuscript, or `None` where checking it fails.
pub fn try_manuscript_issues(content: &str) -> (r: Option<Vec<ManuscriptIssue>>)
    ensures
        r is None <==> manuscript_check_fails(content@),
        r matches Some(v) ==> issues_of(v@) == manuscript_issues_of(lines(content@)),
{
    if manuscript_check_would_fail(content) {
        None
    } else {
        Some(manuscript_issues(content))
    }
}

// ---------------------------------------------------------------------------
// Laws.
// ---------------------------------------------------------------------------

/// Every issue names line `n` and quotes `snip`.
pub open spec fn all_name(is: Seq<Issue>, n: nat, snip: Seq<char>) -> bool {
    forall|k: int| 0 <= k < is.len() ==> (#[trigger] is[k]).line == n && is[k].snippet == snip
}

proof fn lemma_warnings_name(l: Seq<char>, gs: Seq<(int, int)>, n: nat, snip: Seq<char>)
    ensures
        all_name(prose_warnings(l, gs, n, snip), n, snip),
    decreases gs.len(),
{
    if gs.len() > 0 {
        lemma_warnings_name(l, gs.drop_last(), n, snip);
        let prev = prose_warnings(l, gs.drop_last(), n, snip);
        let r = prose_warnings(l, gs, n, snip);
        assert forall|k: int| 0 <= k < r.len() implies (#[trigger] r[k]).line == n && r[k].snippet == snip by {
            if k < prev.len() {
                assert(r[k] == prev[k]);
            }
        }
    }
}

proof fn lemma_line_issues_name(l: Seq<char>, n: nat)
    ensures
        all_name(line_issues(l, n), n, trim(l)),
{
    lemma_warnings_name(l, text_groups_from(l, 0), n, trim(l));
    let e = line_errors(l, n, trim(l));
    assert(all_name(e, n, trim(l)));
    let w = prose_warnings(l, text_groups_from(l, 0), n, trim(l));
    let r = line_issues(l, n);
    assert forall|k: int| 0 <= k < r.len() implies (#[trigger] r[k]).line == n && r[k].snippet == trim(l) by {
        if k < e.len() {
            assert(r[k] == e[k]);
        } else {
            assert(r[k] == w[k - e.len()]);
        }
    }
}

/// Every issue names a line of the manuscript (counting from 1) and quotes
/// that line, trimmed.
pub proof fn law_issues_quote_their_line(ls: Seq<Seq<char>>)
    ensures
        forall|k: int|
            0 <= k < manuscript_issues_of(ls).len() ==> 1 <= (#[trigger] manuscript_issues_of(ls)[k]).line
                <= ls.len() && manuscript_issues_of(ls)[k].snippet == trim(
                ls[manuscript_issues_of(ls)[k].line - 1],
            ),
    decreases ls.len(),
{
    if ls.len() > 0 {
        let t = ls.drop_last();
        law_issues_quote_their_line(t);
        lemma_line_issues_name(ls.last(), ls.len());
        let prev = manuscript_issues_of(t);
        let last = line_issues(ls.last(), ls.len());
        let r = manuscript_issues_of(ls);
        assert forall|k: int| 0 <= k < r.len() implies 1 <= (#[trigger] r[k]).line <= ls.len() && r[k].snippet
            == trim(ls[r[k].line - 1]) by {
            if k < prev.len() {
                assert(r[k] == prev[k]);
                assert(ls[r[k].line - 1] == t[r[k].line - 1]);
            } else {
                assert(r[k] == last[k - prev.len()]);
            }
        }
    }
}

} // verus!
