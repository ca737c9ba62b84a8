//! What a trailing `! Emergency stop.` line adds to the errors read from a
//! compiler log: one error at line 1, and only where nothing else was read.
use vstd::prelude::*;
use crate::diagnostics::{
    bang_scan, compiler_errors, conflict_symbol, consolidated, context_line, continue_message,
    first_detail, first_tex_context, insert_by_line, line_step, read_from, record,
    reported_symbol, reported_symbols, sort_by_line, Diagnostic,
};
use crate::logparse::{file_line_colon_at, file_line_parts, first_file_line_colon, tex_line_parts};
use crate::suggest::suggestion;
use crate::text::{contains, has_at, is_ws, lines, lines_from, starts_with, strip_cr, trim, trim_end, trim_start};

verus! {

/// The line that TeX writes when it gives up.
pub open spec fn emergency_line() -> Seq<char> {
    "! Emergency stop."@
}

/// The error that an emergency stop alone gives.
pub open spec fn emergency_error(source: Seq<char>) -> Diagnostic {
    Diagnostic {
        line: 1,
        message: "Emergency stop"@,
        context: context_line(lines(source), 1),
        suggestion: suggestion("Emergency stop"@, seq![]),
    }
}

/// The log is empty or its last line is ended.
pub open spec fn ends_a_line(o: Seq<char>) -> bool {
    o.len() == 0 || o.last() == '\n'
}

/// No line of the log, trimmed, starts with `!`.
pub open spec fn no_bang_lines(ls: Seq<Seq<char>>) -> bool {
    forall|k: int| 0 <= k < ls.len() ==> !starts_with(trim(#[trigger] ls[k]), "!"@)
}

// ---------------------------------------------------------------------------
// The lines of a log with one more line.
// ---------------------------------------------------------------------------

proof fn lemma_lines_shift(o: Seq<char>, r: Seq<char>, j: int, st: int)
    requires
        0 <= st <= j <= r.len(),
    ensures
        lines_from(o + r, o.len() + j, o.len() + st) == lines_from(r, j, st),
    decreases r.len() - j,
{
    let s = o + r;
    if j == r.len() {
        assert(s.subrange(o.len() + st, s.len() as int) =~= r.subrange(st, r.len() as int));
    } else {
        assert(s[o.len() + j] == r[j]);
        if r[j] == '\n' {
            lemma_lines_shift(o, r, j + 1, j + 1);
            assert(s.subrange(o.len() + st, o.len() + j) =~= r.subrange(st, j));
        } else {
            lemma_lines_shift(o, r, j + 1, st);
        }
    }
}

proof fn lemma_lines_append(o: Seq<char>, r: Seq<char>, i: int, start: int)
    requires
        ends_a_line(o),
        0 <= start <= i <= o.len(),
        i < o.len() || start == o.len(),
    ensures
        lines_from(o + r, i, start) == lines_from(o, i, start) + lines_from(r, 0, 0),
    decreases o.len() - i,
{
    let s = o + r;
    if i == o.len() {
        lemma_lines_shift(o, r, 0, 0);
        assert(lines_from(o, i, start) =~= Seq::<Seq<char>>::empty());
        assert(lines_from(o, i, start) + lines_from(r, 0, 0) =~= lines_from(r, 0, 0));
    } else {
        assert(s[i] == o[i]);
        if o[i] == '\n' {
            lemma_lines_append(o, r, i + 1, i + 1);
            assert(s.subrange(start, i) =~= o.subrange(start, i));
            let head = seq![strip_cr(o.subrange(start, i))];
            assert(head + (lines_from(o, i + 1, i + 1) + lines_from(r, 0, 0)) =~= (head + lines_from(
                o,
                i + 1,
                i + 1,
            )) + lines_from(r, 0, 0));
        } else {
            lemma_lines_append(o, r, i + 1, start);
        }
    }
}

proof fn lemma_one_line(e: Seq<char>, i: int)
    requires
        0 <= i <= e.len(),
        forall|k: int| 0 <= k < e.len() ==> e[k] != '\n',
        e.len() > 0 && e.last() != '\r',
    ensures
        lines_from(e.push('\n'), i, 0) == seq![e],
    decreases e.len() - i,
{
    let r = e.push('\n');
    if i == e.len() {
        assert(r.subrange(0, i) =~= e);
        assert(lines_from(r, i + 1, i + 1) =~= Seq::<Seq<char>>::empty());
        assert(seq![strip_cr(e)] + lines_from(r, i + 1, i + 1) =~= seq![e]);
    } else {
        assert(r[i] == e[i]);
        lemma_one_line(e, i + 1);
    }
}

/// A log that ends a line, followed by the emergency line: its lines are
/// those of the log and the emergency line.
proof fn lemma_lines_with_stop(o: Seq<char>)
    requires
        ends_a_line(o),
    ensures
        lines(o + "! Emergency stop.\n"@) == lines(o).push(emergency_line()),
{
    reveal_strlit("! Emergency stop.\n");
    reveal_strlit("! Emergency stop.");
    let e = emergency_line();
    assert("! Emergency stop.\n"@ =~= e.push('\n'));
    lemma_one_line(e, 0);
    lemma_lines_append(o, e.push('\n'), 0, 0);
    assert(lines(o) + seq![e] =~= lines(o).push(e));
}

// ---------------------------------------------------------------------------
// Looking ahead past the last line of the log.
// ---------------------------------------------------------------------------

proof fn lemma_emergency_line_facts()
    ensures
        trim(emergency_line()) == emergency_line(),
        trim_end(emergency_line()) == emergency_line(),
        starts_with(emergency_line(), "! "@),
        starts_with(emergency_line(), "!"@),
        starts_with(emergency_line(), "! Emergency stop"@),
        tex_line_parts(emergency_line()) is None,
        file_line_parts(emergency_line()) is None,
{
    reveal_strlit("! Emergency stop.");
    reveal_strlit("! ");
    reveal_strlit("!");
    reveal_strlit("! Emergency stop");
    let e = emergency_line();
    assert(!is_ws(e[0]));
    assert(!is_ws(e.last()));
    assert(trim_start(e) == e);
    assert(trim_end(e) == e);
    assert(e.subrange(0, 2) =~= "! "@);
    assert(e.subrange(0, 1) =~= "!"@);
    assert(e.subrange(0, 16) =~= "! Emergency stop"@);
    assert(e.subrange(0, 2)[0] == '!');
    lemma_no_colon(e, 0);
}

proof fn lemma_no_colon(l: Seq<char>, p: int)
    requires
        0 <= p,
        forall|k: int| 0 <= k < l.len() ==> l[k] != ':',
    ensures
        first_file_line_colon(l, p) is None,
    decreases l.len() - p,
{
    if p < l.len() {
        assert(!file_line_colon_at(l, p));
        lemma_no_colon(l, p + 1);
    }
}

proof fn lemma_continue_same(ls: Seq<Seq<char>>, k: int, stop: int, msg: Seq<char>)
    ensures
        continue_message(ls.push(emergency_line()), k, stop, msg) == continue_message(ls, k, stop, msg),
    decreases stop - k,
{
    let lp = ls.push(emergency_line());
    lemma_emergency_line_facts();
    if 0 <= k < stop && k < ls.len() {
        assert(lp[k] == ls[k]);
        let c = trim(ls[k]);
        if !(crate::diagnostics::continuation_stop(c) || !crate::diagnostics::looks_wrapped(msg, c)) {
            lemma_continue_same(ls, k + 1, stop, crate::diagnostics::joined_continuation(msg, c));
        }
    } else if 0 <= k < stop && k == ls.len() {
        assert(lp[k] == emergency_line());
    }
}

proof fn lemma_detail_same(ls: Seq<Seq<char>>, k: int, stop: int)
    ensures
        first_detail(ls.push(emergency_line()), k, stop) == first_detail(ls, k, stop),
    decreases stop - k,
{
    let lp = ls.push(emergency_line());
    lemma_emergency_line_facts();
    if 0 <= k < stop && k < ls.len() {
        assert(lp[k] == ls[k]);
        lemma_detail_same(ls, k + 1, stop);
    } else if 0 <= k < stop && k == ls.len() {
        assert(lp[k] == emergency_line());
        assert(!crate::diagnostics::is_detail_line(trim(lp[k])));
        assert(first_detail(lp, k + 1, stop) is None);
    }
}

proof fn lemma_tex_context_same(ls: Seq<Seq<char>>, k: int, stop: int)
    ensures
        first_tex_context(ls.push(emergency_line()), k, stop) == first_tex_context(ls, k, stop),
    decreases stop - k,
{
    let lp = ls.push(emergency_line());
    lemma_emergency_line_facts();
    if 0 <= k < stop && k < ls.len() {
        assert(lp[k] == ls[k]);
        lemma_tex_context_same(ls, k + 1, stop);
    } else if 0 <= k < stop && k == ls.len() {
        assert(lp[k] == emergency_line());
        assert(first_tex_context(lp, k + 1, stop) is None);
    }
}

proof fn lemma_trim_end_prefix(s: Seq<char>)
    ensures
        trim_end(s).len() <= s.len(),
        forall|k: int| 0 <= k < trim_end(s).len() ==> trim_end(s)[k] == s[k],
    decreases s.len(),
{
    if s.len() > 0 && is_ws(s.last()) {
        let t = s.drop_last();
        lemma_trim_end_prefix(t);
        assert(trim_end(s) == trim_end(t));
        assert forall|k: int| 0 <= k < trim_end(s).len() implies trim_end(s)[k] == s[k] by {
            assert(trim_end(t)[k] == t[k]);
            assert(t[k] == s[k]);
        }
    }
}

/// A line whose end-trimmed text starts with `! ` also starts with `!` once
/// trimmed.
proof fn lemma_bang_trimmed(l: Seq<char>)
    requires
        starts_with(trim_end(l), "! "@),
    ensures
        starts_with(trim(l), "!"@),
{
    reveal_strlit("! ");
    reveal_strlit("!");
    lemma_trim_end_prefix(l);
    assert(trim_end(l).subrange(0, 2)[0] == trim_end(l)[0]);
    assert(l[0] == '!');
    assert(trim_start(l) == l);
    assert(trim(l).subrange(0, 1) =~= "!"@);
}

/// Reading a line of the log that is no `!` line does the same with the
/// emergency line after the log as without it.
proof fn lemma_step_same(ls: Seq<Seq<char>>, i: int, src: Seq<Seq<char>>, remap: bool, errors: Seq<Diagnostic>)
    requires
        0 <= i < ls.len(),
        !starts_with(trim(ls[i]), "!"@),
    ensures
        line_step(ls.push(emergency_line()), i, src, remap, errors) == line_step(ls, i, src, remap, errors),
        line_step(ls, i, src, remap, errors).1 == i + 1,
{
    let lp = ls.push(emergency_line());
    assert(lp[i] == ls[i]);
    let line = trim_end(ls[i]);
    if starts_with(line, "! "@) {
        lemma_bang_trimmed(ls[i]);
    }
    match file_line_parts(line) {
        Some((p, ds, de, ms)) => {
            lemma_continue_same(ls, i + 1, i + 9, trim(line.subrange(ms, line.len() as int)));
            lemma_detail_same(ls, i + 1, i + 9);
            lemma_tex_context_same(ls, i + 1, i + 13);
        },
        None => {},
    }
}

/// Reading the log with the emergency line after it reads the log, then the
/// emergency line.
proof fn lemma_read_with_stop(
    ls: Seq<Seq<char>>,
    i: int,
    src: Seq<Seq<char>>,
    remap: bool,
    errors: Seq<Diagnostic>,
)
    requires
        0 <= i <= ls.len(),
        no_bang_lines(ls),
    ensures
        read_from(ls.push(emergency_line()), i, src, remap, errors) == line_step(
            ls.push(emergency_line()),
            ls.len() as int,
            src,
            remap,
            read_from(ls, i, src, remap, errors),
        ).0,
    decreases ls.len() - i,
{
    let lp = ls.push(emergency_line());
    if i < ls.len() {
        assert(!starts_with(trim(ls[i]), "!"@));
        lemma_step_same(ls, i, src, remap, errors);
        let s = line_step(ls, i, src, remap, errors);
        lemma_read_with_stop(ls, i + 1, src, remap, s.0);
    } else {
        let s = line_step(lp, i, src, remap, errors);
        assert(read_from(lp, i + 1, src, remap, s.0) == s.0);
    }
}

/// The emergency line, read last, adds its error only to an empty list.
proof fn lemma_stop_step(ls: Seq<Seq<char>>, src: Seq<Seq<char>>, remap: bool, errors: Seq<Diagnostic>)
    ensures
        line_step(ls.push(emergency_line()), ls.len() as int, src, remap, errors).0 == (if errors.len()
            == 0 {
            seq![
                Diagnostic {
                    line: 1,
                    message: "Emergency stop"@,
                    context: context_line(src, 1),
                    suggestion: suggestion("Emergency stop"@, seq![]),
                },
            ]
        } else {
            errors
        }),
{
    let lp = ls.push(emergency_line());
    let n = ls.len() as int;
    lemma_emergency_line_facts();
    assert(lp[n] == emergency_line());
    let b = bang_scan(lp, n, n + 1);
    assert(b.0 == 0);
    let e = emergency_line();
    assert(record(src, remap, e, trim(e.subrange(2, e.len() as int)), b.0, b.1, errors) == (if errors.len()
        == 0 {
        errors.push(
            Diagnostic {
                line: 1,
                message: "Emergency stop"@,
                context: context_line(src, 1),
                suggestion: suggestion("Emergency stop"@, seq![]),
            },
        )
    } else {
        errors
    }));
    assert(Seq::<Diagnostic>::empty().push(
        Diagnostic {
            line: 1,
            message: "Emergency stop"@,
            context: context_line(src, 1),
            suggestion: suggestion("Emergency stop"@, seq![]),
        },
    ) =~= seq![
        Diagnostic {
            line: 1,
            message: "Emergency stop"@,
            context: context_line(src, 1),
            suggestion: suggestion("Emergency stop"@, seq![]),
        },
    ]);
}

// ---------------------------------------------------------------------------
// Sorting and consolidating.
// ---------------------------------------------------------------------------

proof fn lemma_insert_len(s: Seq<Diagnostic>, d: Diagnostic)
    ensures
        insert_by_line(s, d).len() == s.len() + 1,
    decreases s.len(),
{
    if s.len() > 0 && s.last().line > d.line {
        lemma_insert_len(s.drop_last(), d);
    }
}

proof fn lemma_sort_len(s: Seq<Diagnostic>)
    ensures
        sort_by_line(s).len() == s.len(),
    decreases s.len(),
{
    if s.len() > 0 {
        lemma_sort_len(s.drop_last());
        lemma_insert_len(sort_by_line(s.drop_last()), s.last());
    }
}

proof fn lemma_nothing_reported(es: Seq<Diagnostic>, k: int)
    requires
        forall|m: int| 0 <= m < 4 ==> !reported_symbol(es, m),
    ensures
        reported_symbols(es, k).len() == 0,
    decreases 4 - k,
{
    if 0 <= k < 4 {
        lemma_nothing_reported(es, k + 1);
        assert(reported_symbols(es, k) =~= Seq::<Seq<char>>::empty() + reported_symbols(es, k + 1));
    }
}

/// A list of errors that names none of the conflicting symbols is left as it
/// is.
proof fn lemma_plain_errors_kept(es: Seq<Diagnostic>)
    requires
        forall|j: int| 0 <= j < es.len() ==> !(#[trigger] es[j].message).contains('\\'),
    ensures
        consolidated(es) == es,
{
    reveal_strlit("\\eth");
    reveal_strlit("\\smallsetminus");
    reveal_strlit("\\digamma");
    reveal_strlit("\\backepsilon");
    assert forall|m: int| 0 <= m < 4 implies !reported_symbol(es, m) by {
        let p = conflict_symbol(m);
        assert(p[0] == '\\');
        assert forall|j: int| 0 <= j < es.len() implies !contains(#[trigger] es[j].message, p) by {
            if contains(es[j].message, p) {
                let at = choose|at: int| has_at(es[j].message, at, p);
                assert(es[j].message.subrange(at, at + p.len())[0] == es[j].message[at]);
                assert(es[j].message.contains('\\'));
            }
        }
    }
    lemma_nothing_reported(es, 0);
}

// ---------------------------------------------------------------------------
// The law.
// ---------------------------------------------------------------------------

/// A trailing `! Emergency stop.` line adds one error, at line 1 with the
/// first source line as its context, only where the rest of the log gave no
/// error; otherwise the errors are those of the rest of the log.  (The rest
/// of the log ends a line, and holds no `!` line, whose look-ahead would
/// swallow the stop.)
pub proof fn law_emergency_stop_only_when_nothing_else(output: Seq<char>, source: Seq<char>, remap: bool)
    requires
        ends_a_line(output),
        no_bang_lines(lines(output)),
    ensures
        compiler_errors(output + "! Emergency stop.\n"@, source, remap) == (if compiler_errors(
            output,
            source,
            remap,
        ).len() == 0 {
            seq![emergency_error(source)]
        } else {
            compiler_errors(output, source, remap)
        }),
{
    let ls = lines(output);
    let src = lines(source);
    lemma_lines_with_stop(output);
    lemma_read_with_stop(ls, 0, src, remap, seq![]);
    let read = read_from(ls, 0, src, remap, seq![]);
    lemma_stop_step(ls, src, remap, read);
    lemma_sort_len(read);
    if read.len() == 0 {
        let e = emergency_error(source);
        assert(sort_by_line(read) =~= Seq::<Diagnostic>::empty());
        assert(insert_by_line(Seq::<Diagnostic>::empty(), e) =~= seq![e]);
        assert(seq![e].drop_last() =~= Seq::<Diagnostic>::empty());
        assert(sort_by_line(seq![e]) == seq![e]);
        reveal_strlit("Emergency stop");
        assert(!e.message.contains('\\'));
        lemma_plain_errors_kept(seq![e]);
        lemma_plain_errors_kept(Seq::<Diagnostic>::empty());
    } else {
        let es = sort_by_line(read);
        let found = reported_symbols(es, 0);
        if found.len() >= 2 {
            let list = crate::diagnostics::join_comma(found);
            let msg = crate::diagnostics::CONFLICT_BEFORE@ + list + crate::diagnostics::CONFLICT_AFTER@;
            lemma_sort_len(
                crate::diagnostics::without_symbol_conflicts(es).push(
                    Diagnostic {
                        line: 1,
                        message: msg,
                        context: crate::diagnostics::PACKAGE_CONFLICT_CONTEXT@,
                        suggestion: suggestion(msg, list),
                    },
                ),
            );
        }
    }
}

} // verus!
