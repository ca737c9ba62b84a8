//! Display-math environments: finding them and numbering their equations.
use vstd::prelude::*;
use crate::labels::{
    has_notag, has_notag_exec, insert_all, insert_keys, label_keys, lemma_insert_all,
    strip_and_collect, strip_labels, LabelMap,
};
use crate::numbering::{eq_number, format_eq_num, EqScheme};
use crate::text::{
    chars_of, copy_range, has_at, has_at_exec, push_chars, push_range, push_str, trim, trim_end,
    trim_end_range, trim_range,
};

verus! {

// ---------------------------------------------------------------------------
// Finding environments.
// ---------------------------------------------------------------------------

/// The environments whose equations are numbered, in the order the
/// alternatives are tried.
pub open spec fn env_name(n: int) -> Seq<char> {
    if n == 0 {
        "equation"@
    } else if n == 1 {
        "align"@
    } else if n == 2 {
        "gather"@
    } else if n == 3 {
        "eqnarray"@
    } else {
        "multline"@
    }
}

pub open spec fn begin_open() -> Seq<char> {
    "\\begin{"@
}

pub open spec fn end_open() -> Seq<char> {
    "\\end{"@
}

/// `*}` or `}` at `k`: whether starred, and the index after the brace.
pub open spec fn star_close(t: Seq<char>, k: int) -> Option<(bool, int)> {
    if 0 <= k && k + 1 < t.len() && t[k] == '*' && t[k + 1] == '}' {
        Some((true, k + 2))
    } else if 0 <= k < t.len() && t[k] == '}' {
        Some((false, k + 1))
    } else {
        None
    }
}

/// `\begin{NAME}` or `\begin{NAME*}` at `i` for the `n`-th name.
pub open spec fn begin_alt(t: Seq<char>, i: int, n: int) -> Option<(bool, int)> {
    if has_at(t, i, begin_open()) && has_at(t, i + begin_open().len(), env_name(n)) {
        star_close(t, i + begin_open().len() + env_name(n).len())
    } else {
        None
    }
}

/// `\end{NAME}` or `\end{NAME*}` at `q` for the `n`-th name: the index after it.
pub open spec fn end_alt(t: Seq<char>, q: int, n: int) -> Option<int> {
    if has_at(t, q, end_open()) && has_at(t, q + end_open().len(), env_name(n)) {
        match star_close(t, q + end_open().len() + env_name(n).len()) {
            Some((_, e)) => Some(e),
            None => None,
        }
    } else {
        None
    }
}

/// An end marker of any of the names from the `n`-th on, at `q`.
pub open spec fn end_any(t: Seq<char>, q: int, n: int) -> Option<int>
    decreases 5 - n,
{
    if n < 0 || n >= 5 {
        None
    } else {
        match end_alt(t, q, n) {
            Some(e) => Some(e),
            None => end_any(t, q, n + 1),
        }
    }
}

/// The first end marker at or after `q`: its start and the index after it.
pub open spec fn first_end(t: Seq<char>, q: int) -> Option<(int, int)>
    decreases t.len() - q,
{
    if q < 0 || q >= t.len() {
        None
    } else {
        match end_any(t, q, 0) {
            Some(e) => Some((q, e)),
            None => first_end(t, q + 1),
        }
    }
}

/// An environment match at `i` begun with the `n`-th name: (name index,
/// starred, body start, body end, match end).  The body is the shortest
/// possible (`(?s)...(.*?)\\end{...}`), and the end marker may carry any of
/// the names.
pub open spec fn env_alt(t: Seq<char>, i: int, n: int) -> Option<(int, bool, int, int, int)> {
    match begin_alt(t, i, n) {
        Some((st, h)) => match first_end(t, h) {
            Some((q, e)) => Some((n, st, h, q, e)),
            None => None,
        },
        None => None,
    }
}

pub open spec fn env_any(t: Seq<char>, i: int, n: int) -> Option<(int, bool, int, int, int)>
    decreases 5 - n,
{
    if n < 0 || n >= 5 {
        None
    } else {
        match env_alt(t, i, n) {
            Some(m) => Some(m),
            None => env_any(t, i, n + 1),
        }
    }
}

/// The leftmost environment match at or after `from`: its start and parts.
pub open spec fn next_env(t: Seq<char>, from: int) -> Option<(int, (int, bool, int, int, int))>
    decreases t.len() - from,
{
    if from < 0 || from >= t.len() {
        None
    } else {
        match env_any(t, from, 0) {
            Some(m) => Some((from, m)),
            None => next_env(t, from + 1),
        }
    }
}

proof fn lemma_end_any(t: Seq<char>, q: int, n: int)
    ensures
        end_any(t, q, n) matches Some(e) ==> q + 6 <= e <= t.len(),
    decreases 5 - n,
{
    reveal_strlit("\\end{");
    reveal_strlit("equation");
    reveal_strlit("align");
    reveal_strlit("gather");
    reveal_strlit("eqnarray");
    reveal_strlit("multline");
    if 0 <= n < 5 {
        lemma_end_any(t, q, n + 1);
    }
}

proof fn lemma_first_end(t: Seq<char>, q: int)
    requires
        0 <= q,
    ensures
        first_end(t, q) matches Some((a, e)) ==> q <= a && a + 6 <= e <= t.len(),
    decreases t.len() - q,
{
    if q < t.len() {
        lemma_end_any(t, q, 0);
        lemma_first_end(t, q + 1);
    }
}

proof fn lemma_env_any(t: Seq<char>, i: int, n: int)
    requires
        0 <= i,
    ensures
        env_any(t, i, n) matches Some((k, st, h, q, e)) ==> 0 <= k < 5 && i + 13 <= h <= q && q
            + 6 <= e <= t.len(),
    decreases 5 - n,
{
    reveal_strlit("\\begin{");
    reveal_strlit("equation");
    reveal_strlit("align");
    reveal_strlit("gather");
    reveal_strlit("eqnarray");
    reveal_strlit("multline");
    if 0 <= n < 5 {
        match begin_alt(t, i, n) {
            Some((st, h)) => {
                lemma_first_end(t, h);
            },
            None => {},
        }
        lemma_env_any(t, i, n + 1);
    }
}

/// Where the leftmost match lies.
pub proof fn lemma_next_env(t: Seq<char>, from: int)
    requires
        0 <= from,
    ensures
        next_env(t, from) matches Some((i, (k, st, h, q, e))) ==> from <= i && 0 <= k < 5 && i
            + 13 <= h <= q && q + 6 <= e <= t.len(),
    decreases t.len() - from,
{
    if from < t.len() {
        lemma_env_any(t, from, 0);
        lemma_next_env(t, from + 1);
    }
}

/// The numbered environment names and the two markers, as character vectors.
pub struct EnvPatterns {
    pub names: Vec<Vec<char>>,
    pub begin: Vec<char>,
    pub end: Vec<char>,
}

impl EnvPatterns {
    pub open spec fn wf(&self) -> bool {
        &&& self.names@.len() == 5
        &&& forall|n: int| 0 <= n < 5 ==> (#[trigger] self.names@[n])@ == env_name(n)
        &&& self.begin@ == begin_open()
        &&& self.end@ == end_open()
    }

    pub fn new() -> (r: EnvPatterns)
        ensures
            r.wf(),
    {
        let mut names: Vec<Vec<char>> = Vec::new();
        names.push(chars_of("equation"));
        names.push(chars_of("align"));
        names.push(chars_of("gather"));
        names.push(chars_of("eqnarray"));
        names.push(chars_of("multline"));
        EnvPatterns { names, begin: chars_of("\\begin{"), end: chars_of("\\end{") }
    }
}

fn star_close_exec(t: &Vec<char>, k: usize) -> (r: Option<(bool, usize)>)
    ensures
        r matches Some((st, e)) ==> star_close(t@, k as int) == Some((st, e as int)),
        r is None ==> star_close(t@, k as int) is None,
{
    if k < t.len() && t.len() - k > 1 && t[k] == '*' && t[k + 1] == '}' {
        Some((true, k + 2))
    } else if k < t.len() && t[k] == '}' {
        Some((false, k + 1))
    } else {
        None
    }
}

fn begin_alt_exec(t: &Vec<char>, i: usize, n: usize, pats: &EnvPatterns) -> (r: Option<(bool, usize)>)
    requires
        pats.wf(),
        n < 5,
    ensures
        r matches Some((st, h)) ==> begin_alt(t@, i as int, n as int) == Some((st, h as int)),
        r is None ==> begin_alt(t@, i as int, n as int) is None,
{
    let tl = t.len();
    if !has_at_exec(t, i, &pats.begin) {
        return None;
    }
    let k = i + pats.begin.len();
    if !has_at_exec(t, k, &pats.names[n]) {
        return None;
    }
    assert(k + pats.names[n as int]@.len() <= tl);
    star_close_exec(t, k + pats.names[n].len())
}

fn end_any_exec(t: &Vec<char>, q: usize, pats: &EnvPatterns) -> (r: Option<usize>)
    requires
        pats.wf(),
    ensures
        r matches Some(e) ==> end_any(t@, q as int, 0) == Some(e as int),
        r is None ==> end_any(t@, q as int, 0) is None,
{
    let tl = t.len();
    if !has_at_exec(t, q, &pats.end) {
        proof {
            assert forall|n: int| 0 <= n < 5 implies end_alt(t@, q as int, n) is None by {}
            lemma_end_any_none(t@, q as int, 0);
        }
        return None;
    }
    let k = q + pats.end.len();
    let mut n: usize = 0;
    while n < 5
        invariant
            n <= 5,
            pats.wf(),
            k == q + end_open().len(),
            has_at(t@, q as int, end_open()),
            tl == t@.len(),
            end_any(t@, q as int, 0) == end_any(t@, q as int, n as int),
        decreases 5 - n,
    {
        if has_at_exec(t, k, &pats.names[n]) {
            assert(k + pats.names[n as int]@.len() <= tl);
            match star_close_exec(t, k + pats.names[n].len()) {
                Some((_, e)) => {
                    return Some(e);
                },
                None => {},
            }
        }
        n = n + 1;
    }
    None
}

proof fn lemma_end_any_none(t: Seq<char>, q: int, n: int)
    requires
        forall|m: int| 0 <= m < 5 ==> end_alt(t, q, m) is None,
    ensures
        end_any(t, q, n) is None,
    decreases 5 - n,
{
    if 0 <= n < 5 {
        lemma_end_any_none(t, q, n + 1);
    }
}

fn first_end_exec(t: &Vec<char>, h: usize, pats: &EnvPatterns) -> (r: Option<(usize, usize)>)
    requires
        pats.wf(),
    ensures
        r matches Some((q, e)) ==> first_end(t@, h as int) == Some((q as int, e as int)),
        r is None ==> first_end(t@, h as int) is None,
{
    let mut q = h;
    while q < t.len()
        invariant
            h <= q,
            pats.wf(),
            first_end(t@, h as int) == first_end(t@, q as int),
        decreases t.len() - q,
    {
        match end_any_exec(t, q, pats) {
            Some(e) => {
                return Some((q, e));
            },
            None => {},
        }
        q = q + 1;
    }
    None
}

/// The parts of an environment match.
pub struct EnvMatch {
    pub start: usize,
    pub name: usize,
    pub starred: bool,
    pub body_start: usize,
    pub body_end: usize,
    pub end: usize,
}

impl EnvMatch {
    pub open spec fn parts(&self) -> (int, (int, bool, int, int, int)) {
        (
            self.start as int,
            (
                self.name as int,
                self.starred,
                self.body_start as int,
                self.body_end as int,
                self.end as int,
            ),
        )
    }
}

fn env_any_exec(t: &Vec<char>, i: usize, pats: &EnvPatterns) -> (r: Option<(usize, bool, usize, usize, usize)>)
    requires
        pats.wf(),
    ensures
        r matches Some((n, st, h, q, e)) ==> env_any(t@, i as int, 0) == Some(
            (n as int, st, h as int, q as int, e as int),
        ),
        r is None ==> env_any(t@, i as int, 0) is None,
{
    let mut n: usize = 0;
    while n < 5
        invariant
            n <= 5,
            pats.wf(),
            env_any(t@, i as int, 0) == env_any(t@, i as int, n as int),
        decreases 5 - n,
    {
        match begin_alt_exec(t, i, n, pats) {
            Some((st, h)) => {
                match first_end_exec(t, h, pats) {
                    Some((q, e)) => {
                        return Some((n, st, h, q, e));
                    },
                    None => {},
                }
            },
            None => {},
        }
        n = n + 1;
    }
    None
}

/// The leftmost environment match at or after `from`.
pub fn next_env_exec(t: &Vec<char>, from: usize, pats: &EnvPatterns) -> (r: Option<EnvMatch>)
    requires
        pats.wf(),
    ensures
        r matches Some(m) ==> next_env(t@, from as int) == Some(m.parts()),
        r is None ==> next_env(t@, from as int) is None,
{
    let mut i = from;
    while i < t.len()
        invariant
            from <= i,
            pats.wf(),
            next_env(t@, from as int) == next_env(t@, i as int),
        decreases t.len() - i,
    {
        match env_any_exec(t, i, pats) {
            Some((n, st, h, q, e)) => {
                return Some(
                    EnvMatch { start: i, name: n, starred: st, body_start: h, body_end: q, end: e },
                );
            },
            None => {},
        }
        i = i + 1;
    }
    None
}

// ---------------------------------------------------------------------------
// Rows of multi-line environments.
// ---------------------------------------------------------------------------

/// `b` split at each `\\` (row break), from index `i`, the current row
/// having begun at `start`; as `str::split` splits.
pub open spec fn split_rows_from(b: Seq<char>, i: int, start: int) -> Seq<Seq<char>>
    decreases b.len() - i,
{
    if i < 0 || i + 1 >= b.len() {
        seq![b.subrange(start, b.len() as int)]
    } else if b[i] == '\\' && b[i + 1] == '\\' {
        seq![b.subrange(start, i)] + split_rows_from(b, i + 2, i + 2)
    } else {
        split_rows_from(b, i + 1, start)
    }
}

pub open spec fn split_rows(b: Seq<char>) -> Seq<Seq<char>> {
    split_rows_from(b, 0, 0)
}

/// The rows joined by `\\`.
pub open spec fn join_rows(ls: Seq<Seq<char>>) -> Seq<char>
    decreases ls.len(),
{
    if ls.len() == 0 {
        seq![]
    } else if ls.len() == 1 {
        ls[0]
    } else {
        join_rows(ls.drop_last()) + seq!['\\', '\\'] + ls.last()
    }
}

proof fn lemma_split_rows_len(b: Seq<char>, i: int, start: int)
    requires
        0 <= i,
    ensures
        split_rows_from(b, i, start).len() <= if i <= b.len() {
            b.len() - i + 1
        } else {
            1
        },
    decreases b.len() - i,
{
    if i + 1 < b.len() {
        if b[i] == '\\' && b[i + 1] == '\\' {
            lemma_split_rows_len(b, i + 2, i + 2);
        } else {
            lemma_split_rows_len(b, i + 1, start);
        }
    }
}

fn split_rows_exec(b: &Vec<char>) -> (r: Vec<Vec<char>>)
    ensures
        r@.map_values(|x: Vec<char>| x@) == split_rows(b@),
        r@.len() <= b@.len() + 1,
{
    proof {
        lemma_split_rows_len(b@, 0, 0);
    }
    let mut r: Vec<Vec<char>> = Vec::new();
    let mut start: usize = 0;
    let mut i: usize = 0;
    while i < b.len() && i + 1 < b.len()
        invariant
            start <= i <= b.len(),
            r@.map_values(|x: Vec<char>| x@) + split_rows_from(b@, i as int, start as int)
                == split_rows(b@),
        decreases b.len() - i,
    {
        if b[i] == '\\' && b[i + 1] == '\\' {
            let row = copy_range(b, start, i);
            let ghost old_r = r@.map_values(|x: Vec<char>| x@);
            r.push(row);
            assert(r@.map_values(|x: Vec<char>| x@) =~= old_r.push(row@));
            assert(old_r.push(row@) + split_rows_from(b@, i + 2, i + 2) =~= old_r + split_rows_from(
                b@,
                i as int,
                start as int,
            ));
            i = i + 2;
            start = i;
        } else {
            i = i + 1;
        }
    }
    let last = copy_range(b, start, b.len());
    let ghost old_r = r@.map_values(|x: Vec<char>| x@);
    r.push(last);
    assert(r@.map_values(|x: Vec<char>| x@) =~= old_r.push(last@));
    assert(old_r.push(last@) =~= old_r + split_rows_from(b@, i as int, start as int));
    r
}

// ---------------------------------------------------------------------------
// Numbering the equations of one environment.
// ---------------------------------------------------------------------------

pub open spec fn star_mark(st: bool) -> Seq<char> {
    if st {
        seq!['*']
    } else {
        seq![]
    }
}

/// `\begin{NAME*}inner\end{NAME*}`, the end marker carrying the begin name.
pub open spec fn env_text(n: int, st: bool, inner: Seq<char>) -> Seq<char> {
    begin_open() + env_name(n) + star_mark(st) + seq!['}'] + inner + end_open() + env_name(n)
        + star_mark(st) + seq!['}']
}

/// The number shown after an equation.
pub open spec fn tag(num: Seq<char>) -> Seq<char> {
    " \\qquad ("@ + num + seq![')']
}

/// `equation` and `multline` hold one equation; the others one per row.
pub open spec fn single_equation_env(n: int) -> bool {
    n == 0 || n == 4
}

/// An equation is numbered unless it is starred or carries `\notag` /
/// `\nonumber`; a labelled equation is always numbered.
pub open spec fn is_numbered(starred: bool, b: Seq<char>) -> bool {
    (!starred && !has_notag(b)) || label_keys(b, 0).len() > 0
}

/// The rows from the `k`-th on, numbered: (rows, equation counter, labels).
pub open spec fn rows_out(
    ls: Seq<Seq<char>>,
    k: int,
    st: bool,
    scheme: EqScheme,
    ch: nat,
    sec: nat,
    eq: nat,
    m: Map<Seq<char>, Seq<char>>,
) -> (Seq<Seq<char>>, nat, Map<Seq<char>, Seq<char>>)
    decreases ls.len() - k,
{
    if k < 0 || k >= ls.len() {
        (seq![], eq, m)
    } else {
        let l = ls[k];
        if trim(l).len() == 0 {
            let r = rows_out(ls, k + 1, st, scheme, ch, sec, eq, m);
            (seq![l] + r.0, r.1, r.2)
        } else if is_numbered(st, l) {
            let num = eq_number(scheme, ch, sec, eq + 1);
            let r = rows_out(
                ls,
                k + 1,
                st,
                scheme,
                ch,
                sec,
                eq + 1,
                insert_all(m, label_keys(l, 0), num),
            );
            (seq![trim_end(strip_labels(l, 0)) + tag(num)] + r.0, r.1, r.2)
        } else {
            let r = rows_out(ls, k + 1, st, scheme, ch, sec, eq, m);
            (seq![strip_labels(l, 0)] + r.0, r.1, r.2)
        }
    }
}

/// An environment with its equations numbered and labels removed: (text,
/// equation counter, labels with the numbers of their equations).
pub open spec fn processed_env(
    n: int,
    st: bool,
    body: Seq<char>,
    scheme: EqScheme,
    ch: nat,
    sec: nat,
    eq: nat,
    m: Map<Seq<char>, Seq<char>>,
) -> (Seq<char>, nat, Map<Seq<char>, Seq<char>>) {
    if single_equation_env(n) {
        if is_numbered(st, body) {
            let num = eq_number(scheme, ch, sec, eq + 1);
            (
                env_text(n, st, trim(strip_labels(body, 0)) + tag(num)),
                eq + 1,
                insert_all(m, label_keys(body, 0), num),
            )
        } else {
            (env_text(n, st, strip_labels(body, 0)), eq, m)
        }
    } else {
        let r = rows_out(split_rows(body), 0, st, scheme, ch, sec, eq, m);
        (env_text(n, st, join_rows(r.0)), r.1, r.2)
    }
}

proof fn lemma_rows_out_bound(
    ls: Seq<Seq<char>>,
    k: int,
    st: bool,
    scheme: EqScheme,
    ch: nat,
    sec: nat,
    eq: nat,
    m: Map<Seq<char>, Seq<char>>,
)
    requires
        0 <= k <= ls.len(),
    ensures
        rows_out(ls, k, st, scheme, ch, sec, eq, m).1 <= eq + (ls.len() - k),
        rows_out(ls, k, st, scheme, ch, sec, eq, m).0.len() == ls.len() - k,
    decreases ls.len() - k,
{
    if k < ls.len() {
        let l = ls[k];
        if trim(l).len() == 0 {
            lemma_rows_out_bound(ls, k + 1, st, scheme, ch, sec, eq, m);
        } else if is_numbered(st, l) {
            let num = eq_number(scheme, ch, sec, eq + 1);
            lemma_rows_out_bound(
                ls,
                k + 1,
                st,
                scheme,
                ch,
                sec,
                eq + 1,
                insert_all(m, label_keys(l, 0), num),
            );
        } else {
            lemma_rows_out_bound(ls, k + 1, st, scheme, ch, sec, eq, m);
        }
    }
}

/// Appends `\begin{NAME*}` or `\end{NAME*}`.
fn push_marker(out: &mut String, open: &Vec<char>, name: &Vec<char>, starred: bool)
    ensures
        final(out)@ == old(out)@ + open@ + name@ + star_mark(starred) + seq!['}'],
{
    push_chars(out, open);
    push_chars(out, name);
    if starred {
        out.push('*');
    }
    out.push('}');
    assert(out@ =~= old(out)@ + open@ + name@ + star_mark(starred) + seq!['}']);
}

/// Appends ` \qquad (num)`.
fn push_tag(out: &mut String, num: &String)
    ensures
        final(out)@ == old(out)@ + tag(num@),
{
    push_str(out, " \\qquad (");
    push_str(out, num.as_str());
    out.push(')');
    assert(out@ =~= old(out)@ + tag(num@));
}

/// Numbers the equations of one environment (the `name`-th numbered
/// environment, `starred`, holding `body`), registering its labels.
pub fn process_env(
    name: usize,
    starred: bool,
    body: &Vec<char>,
    scheme: EqScheme,
    chapter_counter: usize,
    section_counter: usize,
    eq_counter: &mut usize,
    eq_labels: &mut LabelMap,
) -> (r: String)
    requires
        name < 5,
        *old(eq_counter) + body.len() + 1 <= usize::MAX,
    ensures
        (r@, *final(eq_counter) as nat, final(eq_labels)@) == processed_env(
            name as int,
            starred,
            body@,
            scheme,
            chapter_counter as nat,
            section_counter as nat,
            *old(eq_counter) as nat,
            old(eq_labels)@,
        ),
        *final(eq_counter) <= *old(eq_counter) + body.len() + 1,
{
    let pats = EnvPatterns::new();
    let mut inner = String::new();
    if name == 0 || name == 4 {
        let (clean, keys) = strip_and_collect(body);
        let numbered = (!starred && !has_notag_exec(body)) || keys.len() > 0;
        if numbered {
            *eq_counter = *eq_counter + 1;
            let num = format_eq_num(scheme, chapter_counter, section_counter, *eq_counter);
            let num_chars = chars_of(num.as_str());
            insert_keys(eq_labels, &keys, &num_chars);
            let (a, b) = trim_range(&clean, 0, clean.len());
            assert(clean@.subrange(0, clean@.len() as int) =~= clean@);
            push_range(&mut inner, &clean, a, b);
            push_tag(&mut inner, &num);
        } else {
            push_chars(&mut inner, &clean);
        }
    } else {
        let rows = split_rows_exec(body);
        let ghost ls = split_rows(body@);
        let ghost eq0 = *eq_counter as nat;
        let ghost m0 = eq_labels@;
        proof {
            lemma_rows_out_bound(
                ls,
                0,
                starred,
                scheme,
                chapter_counter as nat,
                section_counter as nat,
                eq0,
                m0,
            );
        }
        let mut k: usize = 0;
        let mut joined: Vec<char> = Vec::new();
        while k < rows.len()
            invariant
                k <= rows.len(),
                rows@.len() <= body@.len() + 1,
                ls == rows@.map_values(|x: Vec<char>| x@),
                *eq_counter <= eq0 + k,
                eq0 + body@.len() + 1 <= usize::MAX,
                ({
                    let whole = rows_out(
                        ls,
                        0,
                        starred,
                        scheme,
                        chapter_counter as nat,
                        section_counter as nat,
                        eq0,
                        m0,
                    );
                    let rest = rows_out(
                        ls,
                        k as int,
                        starred,
                        scheme,
                        chapter_counter as nat,
                        section_counter as nat,
                        *eq_counter as nat,
                        eq_labels@,
                    );
                    &&& rest.1 == whole.1
                    &&& rest.2 == whole.2
                    &&& whole.0.len() == ls.len()
                    &&& rest.0 == whole.0.subrange(k as int, ls.len() as int)
                    &&& joined@ == join_rows(whole.0.subrange(0, k as int))
                }),
            decreases rows.len() - k,
        {
            let ghost whole = rows_out(
                ls,
                0,
                starred,
                scheme,
                chapter_counter as nat,
                section_counter as nat,
                eq0,
                m0,
            );
            let ghost eqk = *eq_counter as nat;
            let ghost mk = eq_labels@;
            let row = &rows[k];
            assert(row@ == ls[k as int]);
            let (ta, tb) = trim_range(row, 0, row.len());
            assert(row@.subrange(0, row@.len() as int) =~= row@);
            let mut piece: Vec<char> = Vec::new();
            if ta == tb {
                piece = copy_range(row, 0, row.len());
            } else {
                let (clean, keys) = strip_and_collect(row);
                let numbered = (!starred && !has_notag_exec(row)) || keys.len() > 0;
                if numbered {
                    *eq_counter = *eq_counter + 1;
                    let num = format_eq_num(scheme, chapter_counter, section_counter, *eq_counter);
                    let num_chars = chars_of(num.as_str());
                    insert_keys(eq_labels, &keys, &num_chars);
                    let e = trim_end_range(&clean, 0, clean.len());
                    let mut s = String::new();
                    push_range(&mut s, &clean, 0, e);
                    push_tag(&mut s, &num);
                    piece = chars_of(s.as_str());
                    assert(clean@.subrange(0, clean@.len() as int) =~= clean@);
                } else {
                    piece = clean;
                }
            }
            proof {
                let rest = rows_out(
                    ls,
                    k as int,
                    starred,
                    scheme,
                    chapter_counter as nat,
                    section_counter as nat,
                    eqk,
                    mk,
                );
                let next = rows_out(
                    ls,
                    k + 1,
                    starred,
                    scheme,
                    chapter_counter as nat,
                    section_counter as nat,
                    *eq_counter as nat,
                    eq_labels@,
                );
                assert(rest.0 == seq![piece@] + next.0);
                assert(whole.0.subrange(k as int, ls.len() as int)[0] == whole.0[k as int]);
                assert(whole.0[k as int] == piece@);
                assert(next.0 =~= rest.0.subrange(1, rest.0.len() as int));
                assert(next.0 =~= whole.0.subrange(k + 1, ls.len() as int));
                assert(whole.0.subrange(0, k + 1).drop_last() =~= whole.0.subrange(0, k as int));
            }
            if k > 0 {
                joined.push('\\');
                joined.push('\\');
            }
            let ghost before = joined@;
            let mut q: usize = 0;
            while q < piece.len()
                invariant
                    q <= piece.len(),
                    joined@ == before + piece@.subrange(0, q as int),
                decreases piece.len() - q,
            {
                joined.push(piece[q]);
                q = q + 1;
                assert(joined@ =~= before + piece@.subrange(0, q as int));
            }
            proof {
                assert(piece@.subrange(0, piece@.len() as int) =~= piece@);
                if k > 0 {
                    assert(joined@ =~= join_rows(whole.0.subrange(0, k + 1)));
                } else {
                    assert(whole.0.subrange(0, 1).len() == 1);
                    assert(joined@ =~= join_rows(whole.0.subrange(0, k + 1)));
                }
            }
            k = k + 1;
        }
        proof {
            let whole = rows_out(
                ls,
                0,
                starred,
                scheme,
                chapter_counter as nat,
                section_counter as nat,
                eq0,
                m0,
            );
            assert(whole.0.subrange(0, k as int) =~= whole.0);
            assert(rows_out(
                ls,
                k as int,
                starred,
                scheme,
                chapter_counter as nat,
                section_counter as nat,
                *eq_counter as nat,
                eq_labels@,
            ).1 == *eq_counter as nat);
        }
        push_chars(&mut inner, &joined);
    }
    let mut out = String::new();
    push_marker(&mut out, &pats.begin, &pats.names[name], starred);
    push_str(&mut out, inner.as_str());
    push_marker(&mut out, &pats.end, &pats.names[name], starred);
    assert(out@ =~= env_text(name as int, starred, inner@));
    out
}

// ---------------------------------------------------------------------------
// Laws.
// ---------------------------------------------------------------------------

/// A single-equation environment (`equation`, `multline`) that is numbered
/// takes the next number, and each of its labels then refers to that
/// number; a labelled equation is always numbered, starred or not.  One that
/// is not numbered (starred or `\notag`, without a label) takes no number
/// and changes no label.
pub proof fn law_single_equation_numbering(
    n: int,
    st: bool,
    body: Seq<char>,
    scheme: EqScheme,
    ch: nat,
    sec: nat,
    eq: nat,
    m: Map<Seq<char>, Seq<char>>,
)
    requires
        single_equation_env(n),
    ensures
        label_keys(body, 0).len() > 0 ==> is_numbered(st, body),
        is_numbered(st, body) ==> processed_env(n, st, body, scheme, ch, sec, eq, m).1 == eq + 1,
        is_numbered(st, body) ==> forall|j: int|
            0 <= j < label_keys(body, 0).len() ==> #[trigger] processed_env(
                n,
                st,
                body,
                scheme,
                ch,
                sec,
                eq,
                m,
            ).2.contains_key(label_keys(body, 0)[j]) && processed_env(n, st, body, scheme, ch, sec, eq, m).2[label_keys(
                body,
                0,
            )[j]] == eq_number(scheme, ch, sec, eq + 1),
        !is_numbered(st, body) ==> processed_env(n, st, body, scheme, ch, sec, eq, m).1 == eq
            && processed_env(n, st, body, scheme, ch, sec, eq, m).2 == m,
{
    let keys = label_keys(body, 0);
    let num = eq_number(scheme, ch, sec, eq + 1);
    lemma_insert_all(m, keys, num);
    if is_numbered(st, body) {
        let r = processed_env(n, st, body, scheme, ch, sec, eq, m);
        assert(r.2 == insert_all(m, keys, num));
        assert forall|j: int| 0 <= j < keys.len() implies #[trigger] r.2.contains_key(keys[j]) && r.2[keys[j]]
            == num by {
            assert(insert_all(m, keys, num).contains_key(keys[j]));
        }
    }
}

} // verus!
