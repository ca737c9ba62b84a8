//! Resolving `\eqref`/`\ref` cross-references to printed equation, table and
//! figure numbers.
use vstd::prelude::*;
use crate::environments::{
    begin_alt, begin_open, env_alt, env_any, next_env, next_env_exec, process_env, processed_env,
    lemma_next_env, EnvPatterns,
};
use crate::labels::{label_at, label_at_exec, label_open, lemma_label_at, LabelMap};
use crate::numbering::{
    after_headings, apply_headings, find_char, h2_mark, has_chapters, headings, lemma_after_headings_bound,
    lemma_scan_len, md_heading_at, scan_events, scan_panics, skip_ws, EqScheme, HeadingEvent,
    detect_document_has_chapters, law_global_numbering_never_restarts,
};
use crate::text::{
    chars_of, contains, contains_exec, copy_range, decimal, find_from, has_at, has_at_exec,
    is_white, is_ws, lemma_find_from, starts_with, string_of, trim, trim_range, word_ends_at,
    word_ends_at_exec,
};

verus! {

// ---------------------------------------------------------------------------
// Choosing the numbering scheme.
// ---------------------------------------------------------------------------

/// A `\\section` command at `i`: the command name followed by no further
/// word character (`\\section\b`, so `\\section*` and `\\section{` count).
pub open spec fn section_command_at(t: Seq<char>, i: int) -> bool {
    has_at(t, i, "\\section"@) && word_ends_at(t, i + 8)
}

/// Sections are used: a `\\section` command without any `\\subsection`, or a
/// `##` heading line.  The word "section" in running text selects nothing.
pub open spec fn has_sections(t: Seq<char>) -> bool {
    ||| ((exists|i: int| section_command_at(t, i)) && !contains(t, "\\subsection"@))
    ||| (exists|i: int| md_heading_at(t, i, h2_mark()) is Some)
}

pub open spec fn numbered_within(t: Seq<char>, unit: Seq<char>) -> bool {
    ||| contains(t, "\\numberwithin{equation}{"@ + unit + seq!['}'])
    ||| contains(t, "\\numberwithin*{equation}{"@ + unit + seq!['}'])
}

/// An explicit `\numberwithin` wins; otherwise chapters, then sections,
/// decide; otherwise numbering is global.
pub open spec fn scheme_of(t: Seq<char>) -> EqScheme {
    if numbered_within(t, "chapter"@) {
        EqScheme::Chapter
    } else if numbered_within(t, "section"@) {
        if has_chapters(t) {
            EqScheme::SectionWithChapter
        } else {
            EqScheme::Section
        }
    } else if has_chapters(t) {
        EqScheme::Chapter
    } else if has_sections(t) {
        EqScheme::Section
    } else {
        EqScheme::Global
    }
}

fn numbered_within_exec(t: &Vec<char>, unit: &str) -> (r: bool)
    ensures
        r == numbered_within(t@, unit@),
{
    let mut a = chars_of("\\numberwithin{equation}{");
    let mut b = chars_of("\\numberwithin*{equation}{");
    let u = chars_of(unit);
    let ghost a0 = a@;
    let ghost b0 = b@;
    let mut k: usize = 0;
    while k < u.len()
        invariant
            k <= u.len(),
            a@ == a0 + u@.subrange(0, k as int),
            b@ == b0 + u@.subrange(0, k as int),
        decreases u.len() - k,
    {
        a.push(u[k]);
        b.push(u[k]);
        k = k + 1;
        assert(a@ =~= a0 + u@.subrange(0, k as int));
        assert(b@ =~= b0 + u@.subrange(0, k as int));
    }
    a.push('}');
    b.push('}');
    assert(u@.subrange(0, k as int) =~= u@);
    assert(a@ =~= "\\numberwithin{equation}{"@ + unit@ + seq!['}']);
    assert(b@ =~= "\\numberwithin*{equation}{"@ + unit@ + seq!['}']);
    contains_exec(t, &a) || contains_exec(t, &b)
}

fn has_sections_exec(t: &Vec<char>) -> (r: bool)
    ensures
        r == has_sections(t@),
{
    let command = chars_of("\\section");
    let mut h2: Vec<char> = Vec::new();
    h2.push('#');
    h2.push('#');
    assert(h2@ =~= h2_mark());
    proof {
        reveal_strlit("\\section");
    }
    let tl = t.len();
    let mut cmd = false;
    let mut md = false;
    let mut i: usize = 0;
    while i < tl
        invariant
            i <= tl,
            tl == t@.len(),
            command@ == "\\section"@,
            command@.len() == 8,
            h2@ == h2_mark(),
            cmd == exists|j: int| 0 <= j < i && section_command_at(t@, j),
            md == exists|j: int| 0 <= j < i && md_heading_at(t@, j, h2_mark()) is Some,
        decreases tl - i,
    {
        let w = has_at_exec(t, i, &command) && word_ends_at_exec(t, i + 8);
        assert(w == section_command_at(t@, i as int));
        if w {
            cmd = true;
        }
        if crate::numbering::md_heading_exec(t, i, &h2).is_some() {
            md = true;
        }
        i = i + 1;
    }
    assert forall|j: int| section_command_at(t@, j) implies 0 <= j < tl by {}
    assert forall|j: int| md_heading_at(t@, j, h2_mark()) is Some implies 0 <= j < tl by {}
    (cmd && !contains_exec(t, &chars_of("\\subsection"))) || md
}

pub fn scheme_of_exec(t: &Vec<char>) -> (r: EqScheme)
    ensures
        r == scheme_of(t@),
{
    let s = string_of(t);
    if numbered_within_exec(t, "chapter") {
        EqScheme::Chapter
    } else if numbered_within_exec(t, "section") {
        if detect_document_has_chapters(s.as_str()) {
            EqScheme::SectionWithChapter
        } else {
            EqScheme::Section
        }
    } else if detect_document_has_chapters(s.as_str()) {
        EqScheme::Chapter
    } else if has_sections_exec(t) {
        EqScheme::Section
    } else {
        EqScheme::Global
    }
}

// ---------------------------------------------------------------------------
// Numbering every environment.
// ---------------------------------------------------------------------------

/// The text from `from` on with every numbered environment rewritten, and
/// the labels registered, given the counters and labels so far.  Headings
/// between environments advance the counters; headings after the last
/// environment do not matter.
pub open spec fn env_pass(
    t: Seq<char>,
    from: int,
    scheme: EqScheme,
    c: (nat, nat, nat),
    m: Map<Seq<char>, Seq<char>>,
) -> (Seq<char>, Map<Seq<char>, Seq<char>>)
    decreases t.len() - from,
{
    if from < 0 || from > t.len() {
        (seq![], m)
    } else {
        match next_env(t, from) {
            None => (t.subrange(from, t.len() as int), m),
            Some((i, (n, st, h, q, e))) => {
                if from <= i < e <= t.len() && i <= h <= q <= e {
                    let seg = t.subrange(from, i);
                    let c1 = after_headings(headings(seg), scheme, c);
                    let pe = processed_env(n, st, t.subrange(h, q), scheme, c1.0, c1.1, c1.2, m);
                    let rest = env_pass(t, e, scheme, (c1.0, c1.1, pe.1), pe.2);
                    (seg + pe.0 + rest.0, rest.1)
                } else {
                    (seq![], m)
                }
            },
        }
    }
}

/// Scanning the headings before some environment reaches a `\section`
/// whose three-byte look-behind cannot be sliced.
pub open spec fn env_pass_panics(t: Seq<char>, from: int) -> bool
    decreases t.len() - from,
{
    if from < 0 || from > t.len() {
        false
    } else {
        match next_env(t, from) {
            None => false,
            Some((i, (n, st, h, q, e))) => {
                if from <= i < e <= t.len() {
                    scan_panics(t.subrange(from, i)) || env_pass_panics(t, e)
                } else {
                    false
                }
            },
        }
    }
}

fn push_all(out: &mut Vec<char>, v: &Vec<char>)
    ensures
        final(out)@ == old(out)@ + v@,
{
    let mut k: usize = 0;
    while k < v.len()
        invariant
            k <= v.len(),
            out@ == old(out)@ + v@.subrange(0, k as int),
        decreases v.len() - k,
    {
        out.push(v[k]);
        k = k + 1;
        assert(out@ =~= old(out)@ + v@.subrange(0, k as int));
    }
    assert(v@.subrange(0, k as int) =~= v@);
}

#[verifier::spinoff_prover]
#[verifier::rlimit(40)]
fn env_pass_exec(t: &Vec<char>, scheme: EqScheme) -> (r: Option<(Vec<char>, LabelMap)>)
    ensures
        r is None <==> env_pass_panics(t@, 0),
        r matches Some((o, m)) ==> (o@, m@) == env_pass(
            t@,
            0,
            scheme,
            (0, 0, 0),
            Map::empty(),
        ),
{
    let pats = EnvPatterns::new();
    let mut out: Vec<char> = Vec::new();
    let mut labels = LabelMap::new();
    let mut ch: usize = 0;
    let mut sec: usize = 0;
    let mut eq: usize = 0;
    let mut from: usize = 0;
    let ghost whole = env_pass(t@, 0, scheme, (0, 0, 0), Map::empty());
    loop
        invariant
            from <= t.len(),
            pats.wf(),
            ch <= from,
            sec <= from,
            eq <= from,
            whole == env_pass(t@, 0, scheme, (0, 0, 0), Map::empty()),
            out@ + env_pass(t@, from as int, scheme, (ch as nat, sec as nat, eq as nat), labels@).0
                == whole.0,
            env_pass(t@, from as int, scheme, (ch as nat, sec as nat, eq as nat), labels@).1
                == whole.1,
            env_pass_panics(t@, 0) == env_pass_panics(t@, from as int),
        decreases t.len() - from,
    {
        proof {
            lemma_next_env(t@, from as int);
        }
        match next_env_exec(t, from, &pats) {
            None => {
                let rest = copy_range(t, from, t.len());
                push_all(&mut out, &rest);
                return Some((out, labels));
            },
            Some(m) => {
                let ghost c0 = (ch as nat, sec as nat, eq as nat);
                let ghost m0 = labels@;
                let seg = copy_range(t, from, m.start);
                let evs = match scan_events(&seg) {
                    Some(v) => v,
                    None => {
                        return None;
                    },
                };
                proof {
                    lemma_scan_len(seg@, 0, (0, 0, 0, 0));
                    lemma_after_headings_bound(evs@, scheme, c0, from as nat);
                }
                apply_headings(&evs, scheme, &mut ch, &mut sec, &mut eq);
                let ghost c1 = (ch as nat, sec as nat, eq as nat);
                push_all(&mut out, &seg);
                let body = copy_range(t, m.body_start, m.body_end);
                let env_text = process_env(
                    m.name,
                    m.starred,
                    &body,
                    scheme,
                    ch,
                    sec,
                    &mut eq,
                    &mut labels,
                );
                let env_chars = chars_of(env_text.as_str());
                push_all(&mut out, &env_chars);
                proof {
                    let rest = env_pass(
                        t@,
                        m.end as int,
                        scheme,
                        (ch as nat, sec as nat, eq as nat),
                        labels@,
                    );
                    assert(out@ + rest.0 =~= (out@.subrange(
                        0,
                        out@.len() - seg@.len() - env_chars@.len(),
                    )) + (seg@ + env_chars@ + rest.0));
                }
                from = m.end;
            },
        }
    }
}

// ---------------------------------------------------------------------------
// Table and figure labels.
// ---------------------------------------------------------------------------

/// Table (`tab:`) and figure (`fig:`) labels of `t` from index `i`, each
/// numbered in order of first appearance, counting tables and figures
/// separately; other labels are left alone.
pub open spec fn other_labels_from(
    t: Seq<char>,
    i: int,
    tabs: nat,
    figs: nat,
    m: Map<Seq<char>, Seq<char>>,
) -> Map<Seq<char>, Seq<char>>
    decreases t.len() - i,
{
    if i < 0 || i >= t.len() {
        m
    } else {
        match label_at(t, i) {
            Some(c) => if i <= c < t.len() {
                let key = trim(t.subrange(i + label_open().len(), c));
                if starts_with(key, "tab:"@) && !m.contains_key(key) {
                    other_labels_from(t, c + 1, tabs + 1, figs, m.insert(key, decimal(tabs + 1)))
                } else if starts_with(key, "fig:"@) && !m.contains_key(key) {
                    other_labels_from(t, c + 1, tabs, figs + 1, m.insert(key, decimal(figs + 1)))
                } else {
                    other_labels_from(t, c + 1, tabs, figs, m)
                }
            } else {
                m
            },
            None => other_labels_from(t, i + 1, tabs, figs, m),
        }
    }
}

pub open spec fn other_labels(t: Seq<char>) -> Map<Seq<char>, Seq<char>> {
    other_labels_from(t, 0, 0, 0, Map::empty())
}

fn decimal_chars(n: usize) -> (r: Vec<char>)
    ensures
        r@ == decimal(n as nat),
{
    let mut s = String::new();
    crate::text::push_decimal(&mut s, n);
    chars_of(s.as_str())
}

fn other_labels_exec(t: &Vec<char>) -> (r: LabelMap)
    ensures
        r@ == other_labels(t@),
{
    let open = chars_of("\\label{");
    let tab = chars_of("tab:");
    let fig = chars_of("fig:");
    let mut m = LabelMap::new();
    let mut tabs: usize = 0;
    let mut figs: usize = 0;
    let mut i: usize = 0;
    while i < t.len()
        invariant
            i <= t.len(),
            open@ == label_open(),
            tab@ == "tab:"@,
            fig@ == "fig:"@,
            tabs <= i,
            figs <= i,
            other_labels(t@) == other_labels_from(t@, i as int, tabs as nat, figs as nat, m@),
        decreases t.len() - i,
    {
        proof {
            lemma_label_at(t@, i as int);
        }
        match label_at_exec(t, i, &open) {
            Some(c) => {
                let (ks, ke) = trim_range(t, i + open.len(), c);
                let key = copy_range(t, ks, ke);
                if has_at_exec(&key, 0, &tab) && !m.contains(&key) {
                    tabs = tabs + 1;
                    m.insert(key, decimal_chars(tabs));
                } else if has_at_exec(&key, 0, &fig) && !m.contains(&key) {
                    figs = figs + 1;
                    m.insert(key, decimal_chars(figs));
                }
                i = c + 1;
            },
            None => {
                i = i + 1;
            },
        }
    }
    m
}

// ---------------------------------------------------------------------------
// Replacing references.
// ---------------------------------------------------------------------------

/// A reference command `open` (`\eqref{` or `\ref{`) at `i`: its trimmed key
/// and the index of its closing brace (`open\s*KEY\s*\}`).
pub open spec fn ref_at(t: Seq<char>, i: int, open: Seq<char>) -> Option<(Seq<char>, int)> {
    if has_at(t, i, open) {
        match find_from(t, seq!['}'], i + open.len()) {
            Some(c) => Some((trim(t.subrange(i + open.len(), c)), c)),
            None => None,
        }
    } else {
        None
    }
}

/// `t` from `i` with each `\eqref{KEY}` of an equation label replaced by
/// `(NUMBER)`, and each `\ref{KEY}` by the bare number of the equation or,
/// failing that, of the table or figure.  Other references stay.
pub open spec fn refs_from(
    t: Seq<char>,
    i: int,
    eqm: Map<Seq<char>, Seq<char>>,
    om: Map<Seq<char>, Seq<char>>,
) -> Seq<char>
    decreases t.len() - i,
{
    if i < 0 || i >= t.len() {
        seq![]
    } else {
        let er = ref_at(t, i, "\\eqref{"@);
        let rr = ref_at(t, i, "\\ref{"@);
        if er is Some && eqm.contains_key(er.unwrap().0) && i <= er.unwrap().1 < t.len() {
            seq!['('] + eqm[er.unwrap().0] + seq![')'] + refs_from(t, er.unwrap().1 + 1, eqm, om)
        } else if rr is Some && eqm.contains_key(rr.unwrap().0) && i <= rr.unwrap().1 < t.len() {
            eqm[rr.unwrap().0] + refs_from(t, rr.unwrap().1 + 1, eqm, om)
        } else if rr is Some && om.contains_key(rr.unwrap().0) && i <= rr.unwrap().1 < t.len() {
            om[rr.unwrap().0] + refs_from(t, rr.unwrap().1 + 1, eqm, om)
        } else {
            seq![t[i]] + refs_from(t, i + 1, eqm, om)
        }
    }
}

fn ref_at_exec(t: &Vec<char>, i: usize, open: &Vec<char>) -> (r: Option<(Vec<char>, usize)>)
    ensures
        r matches Some((k, c)) ==> ref_at(t@, i as int, open@) == Some((k@, c as int)) && i
            <= c < t@.len(),
        r is None ==> ref_at(t@, i as int, open@) is None,
{
    let tl = t.len();
    if !has_at_exec(t, i, open) {
        return None;
    }
    assert(i + open@.len() <= tl);
    proof {
        lemma_find_from(t@, seq!['}'], i + open@.len());
    }
    match find_char(t, '}', i + open.len()) {
        Some(c) => {
            let (a, b) = trim_range(t, i + open.len(), c);
            Some((copy_range(t, a, b), c))
        },
        None => None,
    }
}

fn refs_exec(t: &Vec<char>, eqm: &LabelMap, om: &LabelMap) -> (r: Vec<char>)
    ensures
        r@ == refs_from(t@, 0, eqm@, om@),
{
    let eqref = chars_of("\\eqref{");
    let rf = chars_of("\\ref{");
    proof {
        reveal_strlit("\\eqref{");
        reveal_strlit("\\ref{");
    }
    let mut out: Vec<char> = Vec::new();
    let mut i: usize = 0;
    while i < t.len()
        invariant
            i <= t.len(),
            eqref@ == "\\eqref{"@,
            rf@ == "\\ref{"@,
            eqref@.len() == 7,
            rf@.len() == 5,
            out@ + refs_from(t@, i as int, eqm@, om@) == refs_from(t@, 0, eqm@, om@),
        decreases t.len() - i,
    {
        let ghost old_out = out@;
        let ghost i0 = i as int;
        let er = ref_at_exec(t, i, &eqref);
        let rr = ref_at_exec(t, i, &rf);
        let mut done = false;
        match &er {
            Some((key, c)) => {
                match eqm.get(key) {
                    Some(num) => {
                        out.push('(');
                        push_all(&mut out, num);
                        out.push(')');
                        assert(out@ =~= old_out + (seq!['('] + num@ + seq![')']));
                        i = *c + 1;
                        done = true;
                    },
                    None => {},
                }
            },
            None => {},
        }
        if !done {
            match &rr {
                Some((key, c)) => {
                    match eqm.get(key) {
                        Some(num) => {
                            push_all(&mut out, num);
                            i = *c + 1;
                            done = true;
                        },
                        None => {
                            match om.get(key) {
                                Some(num) => {
                                    push_all(&mut out, num);
                                    i = *c + 1;
                                    done = true;
                                },
                                None => {},
                            }
                        },
                    }
                },
                None => {},
            }
        }
        if !done {
            out.push(t[i]);
            i = i + 1;
        }
        assert(out@ + refs_from(t@, i as int, eqm@, om@) =~= old_out + refs_from(
            t@,
            i0,
            eqm@,
            om@,
        ));
    }
    out
}

// ---------------------------------------------------------------------------
// `tabularx` becomes `tabular`.
// ---------------------------------------------------------------------------

/// The white-space separated words of `s` from `i`, the current word having
/// begun at `start` (`-1`: between words), as `str::split_whitespace` yields.
pub open spec fn words_from(s: Seq<char>, i: int, start: int) -> Seq<Seq<char>>
    decreases s.len() - i,
{
    if i < 0 || i >= s.len() {
        if 0 <= start <= s.len() {
            seq![s.subrange(start, s.len() as int)]
        } else {
            seq![]
        }
    } else if is_ws(s[i]) {
        if 0 <= start <= i {
            seq![s.subrange(start, i)] + words_from(s, i + 1, -1)
        } else {
            words_from(s, i + 1, -1)
        }
    } else {
        words_from(
            s,
            i + 1,
            if start >= 0 {
                start
            } else {
                i
            },
        )
    }
}

pub open spec fn words(s: Seq<char>) -> Seq<Seq<char>> {
    words_from(s, 0, -1)
}

/// The words joined by single spaces.
pub open spec fn join_words(ws: Seq<Seq<char>>) -> Seq<char>
    decreases ws.len(),
{
    if ws.len() == 0 {
        seq![]
    } else if ws.len() == 1 {
        ws[0]
    } else {
        join_words(ws.drop_last()) + seq![' '] + ws.last()
    }
}

/// A `tabularx` column specification as plain `tabular` columns: `X` and `Y`
/// become `l`, the columns are separated by single spaces, and an empty
/// specification becomes `l l l`.  (The captured specification never holds
/// a `}`, so the `@{...}` and `p{...}` column rewrites
/// never apply to it.)
pub open spec fn tabular_columns(spec: Seq<char>) -> Seq<char> {
    let s2 = spec.map_values(|c: char| if c == 'X' || c == 'Y' { 'l' } else { c });
    let ws = words(s2);
    if ws.len() == 0 {
        "l l l"@
    } else {
        join_words(ws)
    }
}

pub open spec fn tabularx_open() -> Seq<char> {
    "\\begin{tabularx}{"@
}

/// `\begin{tabularx}{WIDTH}{COLUMNS}` at `i`
/// (`\\begin\{tabularx\}\{[^}]*\}\{([^}]*)\}`): the bounds of `COLUMNS` and
/// the end of the match.
pub open spec fn tabularx_at(t: Seq<char>, i: int) -> Option<(int, int, int)> {
    if has_at(t, i, tabularx_open()) {
        match find_from(t, seq!['}'], i + tabularx_open().len()) {
            Some(m1) => if m1 + 1 < t.len() && t[m1 + 1] == '{' {
                match find_from(t, seq!['}'], m1 + 2) {
                    Some(m2) => Some((m1 + 2, m2, m2 + 1)),
                    None => None,
                }
            } else {
                None
            },
            None => None,
        }
    } else {
        None
    }
}

/// `t` from `i` with each `tabularx` opening rewritten as a `tabular` one.
pub open spec fn tabularx_from(t: Seq<char>, i: int) -> Seq<char>
    decreases t.len() - i,
{
    if i < 0 || i >= t.len() {
        seq![]
    } else {
        match tabularx_at(t, i) {
            Some((a, b, e)) => if i < e <= t.len() && a <= b {
                "\\begin{tabular}{"@ + tabular_columns(t.subrange(a, b)) + seq!['}']
                    + tabularx_from(t, e)
            } else {
                seq![]
            },
            None => seq![t[i]] + tabularx_from(t, i + 1),
        }
    }
}

/// `t` from `i` with each occurrence of `pat` replaced by `rep`, left to
/// right without overlap.
pub open spec fn replace_from(t: Seq<char>, i: int, pat: Seq<char>, rep: Seq<char>) -> Seq<char>
    decreases t.len() - i,
{
    if i < 0 || i >= t.len() {
        seq![]
    } else if pat.len() > 0 && has_at(t, i, pat) {
        rep + replace_from(t, i + pat.len(), pat, rep)
    } else {
        seq![t[i]] + replace_from(t, i + 1, pat, rep)
    }
}

proof fn lemma_tabularx_at(t: Seq<char>, i: int)
    requires
        0 <= i,
    ensures
        tabularx_at(t, i) matches Some((a, b, e)) ==> i < a <= b < e <= t.len(),
{
    reveal_strlit("\\begin{tabularx}{");
    if has_at(t, i, tabularx_open()) {
        lemma_find_from(t, seq!['}'], i + tabularx_open().len());
        match find_from(t, seq!['}'], i + tabularx_open().len()) {
            Some(m1) => {
                lemma_find_from(t, seq!['}'], m1 + 2);
            },
            None => {},
        }
    }
}

fn words_exec(s: &Vec<char>) -> (r: Vec<Vec<char>>)
    ensures
        r@.map_values(|x: Vec<char>| x@) == words(s@),
{
    let mut r: Vec<Vec<char>> = Vec::new();
    let mut in_word = false;
    let mut start: usize = 0;
    let mut i: usize = 0;
    while i < s.len()
        invariant
            i <= s.len(),
            in_word ==> start <= i,
            r@.map_values(|x: Vec<char>| x@) + words_from(
                s@,
                i as int,
                if in_word {
                    start as int
                } else {
                    -1
                },
            ) == words(s@),
        decreases s.len() - i,
    {
        let ghost old_r = r@.map_values(|x: Vec<char>| x@);
        if is_white(s[i]) {
            if in_word {
                let w = copy_range(s, start, i);
                r.push(w);
                assert(r@.map_values(|x: Vec<char>| x@) =~= old_r.push(w@));
                assert(old_r.push(w@) + words_from(s@, i + 1, -1) =~= old_r + (seq![w@]
                    + words_from(s@, i + 1, -1)));
            }
            in_word = false;
        } else if !in_word {
            in_word = true;
            start = i;
        }
        i = i + 1;
    }
    if in_word {
        let w = copy_range(s, start, s.len());
        let ghost old_r = r@.map_values(|x: Vec<char>| x@);
        r.push(w);
        assert(r@.map_values(|x: Vec<char>| x@) =~= old_r.push(w@));
    } else {
        assert(r@.map_values(|x: Vec<char>| x@) + seq![] =~= r@.map_values(|x: Vec<char>| x@));
    }
    r
}

fn tabular_columns_exec(t: &Vec<char>, a: usize, b: usize) -> (r: Vec<char>)
    requires
        a <= b <= t.len(),
    ensures
        r@ == tabular_columns(t@.subrange(a as int, b as int)),
{
    let ghost spec = t@.subrange(a as int, b as int);
    let ghost s2 = spec.map_values(|c: char| if c == 'X' || c == 'Y' { 'l' } else { c });
    let mut mapped: Vec<char> = Vec::new();
    let mut k = a;
    while k < b
        invariant
            a <= k <= b <= t.len(),
            spec == t@.subrange(a as int, b as int),
            s2 == spec.map_values(|c: char| if c == 'X' || c == 'Y' { 'l' } else { c }),
            mapped@ == s2.subrange(0, (k - a) as int),
        decreases b - k,
    {
        let c = t[k];
        mapped.push(
            if c == 'X' || c == 'Y' {
                'l'
            } else {
                c
            },
        );
        k = k + 1;
        assert(mapped@ =~= s2.subrange(0, (k - a) as int));
    }
    assert(mapped@ =~= s2);
    let ws = words_exec(&mapped);
    let ghost wv = ws@.map_values(|x: Vec<char>| x@);
    if ws.len() == 0 {
        return chars_of("l l l");
    }
    let mut out: Vec<char> = Vec::new();
    let mut j: usize = 0;
    while j < ws.len()
        invariant
            j <= ws.len(),
            wv == ws@.map_values(|x: Vec<char>| x@),
            out@ == join_words(wv.subrange(0, j as int)),
        decreases ws.len() - j,
    {
        if j > 0 {
            out.push(' ');
        }
        let ghost before = out@;
        push_all(&mut out, &ws[j]);
        assert(wv.subrange(0, j + 1).drop_last() =~= wv.subrange(0, j as int));
        assert(out@ =~= join_words(wv.subrange(0, j + 1)));
        j = j + 1;
    }
    assert(wv.subrange(0, j as int) =~= wv);
    out
}

fn tabularx_exec(t: &Vec<char>) -> (r: Vec<char>)
    ensures
        r@ == tabularx_from(t@, 0),
{
    let open = chars_of("\\begin{tabularx}{");
    let tabular = chars_of("\\begin{tabular}{");
    proof {
        reveal_strlit("\\begin{tabularx}{");
    }
    let mut out: Vec<char> = Vec::new();
    let mut i: usize = 0;
    while i < t.len()
        invariant
            i <= t.len(),
            open@ == tabularx_open(),
            open@.len() == 17,
            tabular@ == "\\begin{tabular}{"@,
            out@ + tabularx_from(t@, i as int) == tabularx_from(t@, 0),
        decreases t.len() - i,
    {
        let ghost old_out = out@;
        let ghost i0 = i as int;
        proof {
            lemma_tabularx_at(t@, i as int);
        }
        let tl = t.len();
        let mut matched = false;
        if has_at_exec(t, i, &open) {
            assert(i + 17 <= tl);
            match find_char(t, '}', i + open.len()) {
                Some(m1) => {
                    if m1 < tl - 1 && t[m1 + 1] == '{' {
                        match find_char(t, '}', m1 + 2) {
                            Some(m2) => {
                                let cols = tabular_columns_exec(t, m1 + 2, m2);
                                push_all(&mut out, &tabular);
                                push_all(&mut out, &cols);
                                out.push('}');
                                assert(out@ =~= old_out + ("\\begin{tabular}{"@
                                    + tabular_columns(t@.subrange(m1 + 2, m2 as int)) + seq!['}']));
                                i = m2 + 1;
                                matched = true;
                            },
                            None => {},
                        }
                    }
                },
                None => {},
            }
        }
        if !matched {
            out.push(t[i]);
            i = i + 1;
        }
        assert(out@ + tabularx_from(t@, i as int) =~= old_out + tabularx_from(t@, i0));
    }
    out
}

fn replace_exec(t: &Vec<char>, pat: &Vec<char>, rep: &Vec<char>) -> (r: Vec<char>)
    ensures
        r@ == replace_from(t@, 0, pat@, rep@),
{
    let mut out: Vec<char> = Vec::new();
    let mut i: usize = 0;
    while i < t.len()
        invariant
            i <= t.len(),
            out@ + replace_from(t@, i as int, pat@, rep@) == replace_from(t@, 0, pat@, rep@),
        decreases t.len() - i,
    {
        let ghost old_out = out@;
        let ghost i0 = i as int;
        let tl = t.len();
        if pat.len() > 0 && has_at_exec(t, i, pat) {
            assert(i + pat@.len() <= tl);
            push_all(&mut out, rep);
            i = i + pat.len();
        } else {
            out.push(t[i]);
            i = i + 1;
        }
        assert(out@ + replace_from(t@, i as int, pat@, rep@) =~= old_out + replace_from(
            t@,
            i0,
            pat@,
            rep@,
        ));
    }
    out
}

// ---------------------------------------------------------------------------
// The whole resolution.
// ---------------------------------------------------------------------------

/// The document with every numbered equation environment numbered, its
/// labels removed, and `\eqref`/`\ref` replaced by equation, table and figure
/// numbers; `tabularx` tables become `tabular`.
pub open spec fn resolved(t: Seq<char>) -> Seq<char> {
    if t.len() == 0 {
        t
    } else {
        let p = env_pass(t, 0, scheme_of(t), (0, 0, 0), Map::empty());
        let r = refs_from(p.0, 0, p.1, other_labels(p.0));
        replace_from(tabularx_from(r, 0), 0, "\\end{tabularx}"@, "\\end{tabular}"@)
    }
}

/// Resolving reaches a `\section` heading whose three-byte look-behind ends
/// inside a multi-byte character, where slicing the text would panic.
pub open spec fn resolve_panics(t: Seq<char>) -> bool {
    t.len() > 0 && env_pass_panics(t, 0)
}

/// Resolves equation, table and figure references, or `None` exactly where
/// resolution cannot proceed.
pub fn try_resolve_equation_references(content: &str) -> (r: Option<String>)
    ensures
        r is None <==> resolve_panics(content@),
        r matches Some(s) ==> s@ == resolved(content@),
{
    let t = chars_of(content);
    if t.len() == 0 {
        return Some(String::new());
    }
    let scheme = scheme_of_exec(&t);
    let (body, eq_labels) = match env_pass_exec(&t, scheme) {
        Some(p) => p,
        None => {
            return None;
        },
    };
    let others = other_labels_exec(&body);
    let referenced = refs_exec(&body, &eq_labels, &others);
    let tabular = tabularx_exec(&referenced);
    let out = replace_exec(
        &tabular,
        &chars_of("\\end{tabularx}"),
        &chars_of("\\end{tabular}"),
    );
    Some(string_of(&out))
}

/// Numbers display equations, removes their labels, and replaces
/// `\eqref{..}`/`\ref{..}` by the numbers they refer to.
pub fn resolve_equation_references(content: &str) -> (r: String)
    requires
        !resolve_panics(content@),
    ensures
        r@ == resolved(content@),
{
    match try_resolve_equation_references(content) {
        Some(s) => s,
        None => String::new(),
    }
}

// ---------------------------------------------------------------------------
// Laws.
// ---------------------------------------------------------------------------

/// A literal that starts with a backslash occurs nowhere in a text without one.
pub proof fn lemma_no_backslash_literal(t: Seq<char>, i: int, p: Seq<char>)
    requires
        !t.contains('\\'),
        p.len() > 0,
        p[0] == '\\',
    ensures
        !has_at(t, i, p),
{
    if has_at(t, i, p) {
        assert(t.subrange(i, i + p.len())[0] == p[0]);
        assert(t[i] == '\\');
    }
}

proof fn lemma_plain_no_env(t: Seq<char>, from: int)
    requires
        !t.contains('\\'),
    ensures
        next_env(t, from) is None,
    decreases t.len() - from,
{
    reveal_strlit("\\begin{");
    if 0 <= from < t.len() {
        lemma_no_backslash_literal(t, from, begin_open());
        assert(env_any(t, from, 0) is None) by {
            reveal_with_fuel(env_any, 6);
            assert(env_alt(t, from, 0) is None);
            assert(env_alt(t, from, 1) is None);
            assert(env_alt(t, from, 2) is None);
            assert(env_alt(t, from, 3) is None);
            assert(env_alt(t, from, 4) is None);
        }
        lemma_plain_no_env(t, from + 1);
    }
}

proof fn lemma_plain_refs(t: Seq<char>, i: int, eqm: Map<Seq<char>, Seq<char>>, om: Map<Seq<char>, Seq<char>>)
    requires
        !t.contains('\\'),
        0 <= i <= t.len(),
    ensures
        refs_from(t, i, eqm, om) == t.subrange(i, t.len() as int),
    decreases t.len() - i,
{
    reveal_strlit("\\eqref{");
    reveal_strlit("\\ref{");
    if i < t.len() {
        lemma_no_backslash_literal(t, i, "\\eqref{"@);
        lemma_no_backslash_literal(t, i, "\\ref{"@);
        lemma_plain_refs(t, i + 1, eqm, om);
        assert(seq![t[i]] + t.subrange(i + 1, t.len() as int) =~= t.subrange(i, t.len() as int));
    } else {
        assert(t.subrange(i, t.len() as int) =~= Seq::<char>::empty());
    }
}

proof fn lemma_plain_tabularx(t: Seq<char>, i: int)
    requires
        !t.contains('\\'),
        0 <= i <= t.len(),
    ensures
        tabularx_from(t, i) == t.subrange(i, t.len() as int),
    decreases t.len() - i,
{
    reveal_strlit("\\begin{tabularx}{");
    if i < t.len() {
        lemma_no_backslash_literal(t, i, tabularx_open());
        lemma_plain_tabularx(t, i + 1);
        assert(seq![t[i]] + t.subrange(i + 1, t.len() as int) =~= t.subrange(i, t.len() as int));
    } else {
        assert(t.subrange(i, t.len() as int) =~= Seq::<char>::empty());
    }
}

proof fn lemma_plain_replace(t: Seq<char>, i: int, pat: Seq<char>, rep: Seq<char>)
    requires
        !t.contains('\\'),
        pat.len() > 0,
        pat[0] == '\\',
        0 <= i <= t.len(),
    ensures
        replace_from(t, i, pat, rep) == t.subrange(i, t.len() as int),
    decreases t.len() - i,
{
    if i < t.len() {
        lemma_no_backslash_literal(t, i, pat);
        lemma_plain_replace(t, i + 1, pat, rep);
        assert(seq![t[i]] + t.subrange(i + 1, t.len() as int) =~= t.subrange(i, t.len() as int));
    } else {
        assert(t.subrange(i, t.len() as int) =~= Seq::<char>::empty());
    }
}

/// A document with no `\\numberwithin`, no chapters, no `\\section` command
/// and no `##` heading has its equations numbered globally, whatever words
/// its running text holds; under that scheme the headings between
/// environments never restart the equation count.
pub proof fn law_undivided_documents_number_globally(
    t: Seq<char>,
    evs: Seq<HeadingEvent>,
    c: (nat, nat, nat),
)
    requires
        !numbered_within(t, "chapter"@),
        !numbered_within(t, "section"@),
        !has_chapters(t),
        forall|i: int| !section_command_at(t, i),
        forall|i: int| !(md_heading_at(t, i, h2_mark()) is Some),
    ensures
        scheme_of(t) == EqScheme::Global,
        after_headings(evs, scheme_of(t), c).2 == c.2,
{
    law_global_numbering_never_restarts(evs, c);
}

/// Text without a backslash holds no environment, label or reference:
/// resolving it succeeds and gives it back unchanged.
pub proof fn law_plain_text_resolves_to_itself(t: Seq<char>)
    requires
        !t.contains('\\'),
    ensures
        !resolve_panics(t),
        resolved(t) == t,
{
    reveal_strlit("\\end{tabularx}");
    if t.len() > 0 {
        lemma_plain_no_env(t, 0);
        assert(t.subrange(0, t.len() as int) =~= t);
        let p = env_pass(t, 0, scheme_of(t), (0, 0, 0), Map::empty());
        assert(p.0 == t);
        lemma_plain_refs(t, 0, p.1, other_labels(p.0));
        lemma_plain_tabularx(t, 0);
        lemma_plain_replace(t, 0, "\\end{tabularx}"@, "\\end{tabular}"@);
    }
}

// ---------------------------------------------------------------------------
// Tables and figures are numbered apart.
// ---------------------------------------------------------------------------

/// The keys of the labels of `t` from index `i`, in order of appearance.
pub open spec fn label_keys_from(t: Seq<char>, i: int) -> Seq<Seq<char>>
    decreases t.len() - i,
{
    if i < 0 || i >= t.len() {
        seq![]
    } else {
        match label_at(t, i) {
            Some(c) => if i <= c < t.len() {
                seq![trim(t.subrange(i + label_open().len(), c))] + label_keys_from(t, c + 1)
            } else {
                seq![]
            },
            None => label_keys_from(t, i + 1),
        }
    }
}

/// How many different keys that begin with `p` occur in `ks`.
pub open spec fn distinct_with_prefix(ks: Seq<Seq<char>>, p: Seq<char>) -> nat
    decreases ks.len(),
{
    if ks.len() == 0 {
        0
    } else if starts_with(ks.last(), p) && !ks.drop_last().contains(ks.last()) {
        distinct_with_prefix(ks.drop_last(), p) + 1
    } else {
        distinct_with_prefix(ks.drop_last(), p)
    }
}

/// Every key of `ks` that begins with `p` is numbered, in `m`, by how many
/// different such keys have appeared up to its first appearance.
pub open spec fn numbered_in_order(m: Map<Seq<char>, Seq<char>>, ks: Seq<Seq<char>>, p: Seq<char>) -> bool {
    forall|j: int|
        0 <= j < ks.len() && starts_with(#[trigger] ks[j], p) && !ks.subrange(0, j).contains(ks[j]) ==> m.contains_key(
            ks[j],
        ) && m[ks[j]] == decimal(distinct_with_prefix(ks.subrange(0, j + 1), p))
}

pub open spec fn counted_kind(x: Seq<char>) -> bool {
    starts_with(x, "tab:"@) || starts_with(x, "fig:"@)
}

proof fn lemma_kinds_apart(x: Seq<char>)
    ensures
        !(starts_with(x, "tab:"@) && starts_with(x, "fig:"@)),
{
    reveal_strlit("tab:");
    reveal_strlit("fig:");
    if starts_with(x, "tab:"@) && starts_with(x, "fig:"@) {
        assert(x.subrange(0, 4)[0] == x[0]);
    }
}

/// Adding a key to the keys seen keeps the numbering of the earlier ones.
proof fn lemma_push_keeps_numbering(
    m: Map<Seq<char>, Seq<char>>,
    m2: Map<Seq<char>, Seq<char>>,
    seen: Seq<Seq<char>>,
    key: Seq<char>,
    p: Seq<char>,
)
    requires
        numbered_in_order(m, seen, p),
        forall|x: Seq<char>| #[trigger] seen.contains(x) && m.contains_key(x) ==> m2.contains_key(x) && m2[x] == m[x],
        starts_with(key, p) && !seen.contains(key) ==> m2.contains_key(key) && m2[key] == decimal(
            distinct_with_prefix(seen.push(key), p),
        ),
    ensures
        numbered_in_order(m2, seen.push(key), p),
{
    let s2 = seen.push(key);
    assert forall|j: int|
        0 <= j < s2.len() && starts_with(#[trigger] s2[j], p) && !s2.subrange(0, j).contains(s2[j]) implies m2.contains_key(
        s2[j],
    ) && m2[s2[j]] == decimal(distinct_with_prefix(s2.subrange(0, j + 1), p)) by {
        if j < seen.len() {
            assert(s2[j] == seen[j]);
            assert(s2.subrange(0, j) =~= seen.subrange(0, j));
            assert(s2.subrange(0, j + 1) =~= seen.subrange(0, j + 1));
            assert(seen.contains(seen[j]));
        } else {
            assert(s2.subrange(0, j) =~= seen);
            assert(s2.subrange(0, j + 1) =~= s2);
        }
    }
}

proof fn lemma_distinct_push(seen: Seq<Seq<char>>, key: Seq<char>, p: Seq<char>)
    ensures
        distinct_with_prefix(seen.push(key), p) == if starts_with(key, p) && !seen.contains(key) {
            distinct_with_prefix(seen, p) + 1
        } else {
            distinct_with_prefix(seen, p)
        },
{
    assert(seen.push(key).drop_last() =~= seen);
}

proof fn lemma_push_contains(seen: Seq<Seq<char>>, key: Seq<char>, x: Seq<char>)
    ensures
        seen.push(key).contains(x) <==> seen.contains(x) || x == key,
{
    let s2 = seen.push(key);
    if seen.contains(x) {
        let k = choose|k: int| 0 <= k < seen.len() && seen[k] == x;
        assert(s2[k] == x);
    }
    if x == key {
        assert(s2[seen.len() as int] == x);
    }
    if s2.contains(x) {
        let k = choose|k: int| 0 <= k < s2.len() && s2[k] == x;
        if k < seen.len() {
            assert(seen[k] == x);
        }
    }
}

proof fn lemma_other_labels_numbering(
    t: Seq<char>,
    i: int,
    tabs: nat,
    figs: nat,
    m: Map<Seq<char>, Seq<char>>,
    seen: Seq<Seq<char>>,
)
    requires
        0 <= i,
        forall|x: Seq<char>| counted_kind(x) ==> (#[trigger] m.contains_key(x) <==> seen.contains(x)),
        tabs == distinct_with_prefix(seen, "tab:"@),
        figs == distinct_with_prefix(seen, "fig:"@),
        numbered_in_order(m, seen, "tab:"@),
        numbered_in_order(m, seen, "fig:"@),
    ensures
        numbered_in_order(other_labels_from(t, i, tabs, figs, m), seen + label_keys_from(t, i), "tab:"@),
        numbered_in_order(other_labels_from(t, i, tabs, figs, m), seen + label_keys_from(t, i), "fig:"@),
    decreases t.len() - i,
{
    if i >= t.len() {
        assert(seen + label_keys_from(t, i) =~= seen);
    } else {
        match label_at(t, i) {
            Some(c) => if i <= c < t.len() {
                let key = trim(t.subrange(i + label_open().len(), c));
                let s2 = seen.push(key);
                assert(seen + label_keys_from(t, i) =~= s2 + label_keys_from(t, c + 1));
                lemma_kinds_apart(key);
                lemma_distinct_push(seen, key, "tab:"@);
                lemma_distinct_push(seen, key, "fig:"@);
                assert forall|x: Seq<char>| true implies (s2.contains(x) <==> seen.contains(x) || x == key) by {
                    lemma_push_contains(seen, key, x);
                }
                if starts_with(key, "tab:"@) && !m.contains_key(key) {
                    assert(counted_kind(key));
                    let m2 = m.insert(key, decimal(tabs + 1));
                    lemma_push_keeps_numbering(m, m2, seen, key, "tab:"@);
                    lemma_push_keeps_numbering(m, m2, seen, key, "fig:"@);
                    lemma_other_labels_numbering(t, c + 1, tabs + 1, figs, m2, s2);
                } else if starts_with(key, "fig:"@) && !m.contains_key(key) {
                    assert(counted_kind(key));
                    let m2 = m.insert(key, decimal(figs + 1));
                    lemma_push_keeps_numbering(m, m2, seen, key, "tab:"@);
                    lemma_push_keeps_numbering(m, m2, seen, key, "fig:"@);
                    lemma_other_labels_numbering(t, c + 1, tabs, figs + 1, m2, s2);
                } else {
                    if counted_kind(key) {
                        assert(m.contains_key(key));
                        assert(seen.contains(key));
                    }
                    lemma_push_keeps_numbering(m, m, seen, key, "tab:"@);
                    lemma_push_keeps_numbering(m, m, seen, key, "fig:"@);
                    lemma_other_labels_numbering(t, c + 1, tabs, figs, m, s2);
                }
            } else {
                assert(seen + label_keys_from(t, i) =~= seen);
            },
            None => {
                lemma_other_labels_numbering(t, i + 1, tabs, figs, m, seen);
            },
        }
    }
}

/// Tables and figures are numbered apart, each in order of first
/// appearance: the label of a table (`tab:`) gets the count of different
/// table labels up to its first appearance, and that of a figure (`fig:`)
/// the count of different figure labels, however many labels of the other
/// kind come before it.
pub proof fn law_tables_and_figures_numbered_apart(t: Seq<char>)
    ensures
        numbered_in_order(other_labels(t), label_keys_from(t, 0), "tab:"@),
        numbered_in_order(other_labels(t), label_keys_from(t, 0), "fig:"@),
{
    let seen: Seq<Seq<char>> = seq![];
    assert(seen + label_keys_from(t, 0) =~= label_keys_from(t, 0));
    lemma_other_labels_numbering(t, 0, 0, 0, Map::empty(), seen);
}

} // verus!
