//! Numbering schemes, heading detection and heading counters.
use vstd::prelude::*;
use crate::text::{
    chars_of, contains, contains_exec, decimal, find_from, has_at, has_at_exec, is_white,
    is_ws, lemma_find_from, push_decimal, word_ends_at, word_ends_at_exec,
};

verus! {

/// How equation numbers are composed.
#[derive(Debug, Clone, Copy, PartialEq, Eq, Structural)]
pub enum EqScheme {
    /// `chapter.eq`
    Chapter,
    /// `chapter.section.eq`
    SectionWithChapter,
    /// `section.eq`
    Section,
    /// `eq`
    Global,
}

/// A heading found in a stretch of text: a LaTeX `\chapter`/`\section` or a
/// Markdown `#`/`##` line.
#[derive(Debug, Clone, Copy, PartialEq, Eq, Structural)]
pub struct HeadingEvent {
    /// Where the heading starts: a byte offset into the text scanned (the
    /// scan inside the library counts characters; `scan_heading_events`
    /// hands out bytes).
    pub pos: usize,
    /// 1 for a chapter or `#`, 2 for a section or `##`.
    pub level: usize,
    /// `\chapter*` / `\section*`.
    pub is_starred: bool,
}

// ---------------------------------------------------------------------------
// Equation numbers.
// ---------------------------------------------------------------------------

/// A chapter or section counter that has not started yet counts as 1.
pub open spec fn at_least_one(n: nat) -> nat {
    if n == 0 {
        1
    } else {
        n
    }
}

/// The printed number of equation `eq` in the given chapter and section.
pub open spec fn eq_number(scheme: EqScheme, chapter: nat, section: nat, eq: nat) -> Seq<char> {
    match scheme {
        EqScheme::Chapter => decimal(at_least_one(chapter)) + seq!['.'] + decimal(eq),
        EqScheme::SectionWithChapter => decimal(at_least_one(chapter)) + seq!['.'] + decimal(
            at_least_one(section),
        ) + seq!['.'] + decimal(eq),
        EqScheme::Section => decimal(at_least_one(section)) + seq!['.'] + decimal(eq),
        EqScheme::Global => decimal(eq),
    }
}

pub fn format_eq_num(scheme: EqScheme, chapter: usize, section: usize, eq: usize) -> (r: String)
    ensures
        r@ == eq_number(scheme, chapter as nat, section as nat, eq as nat),
{
    let mut r = String::new();
    let c = if chapter == 0 {
        1
    } else {
        chapter
    };
    let s = if section == 0 {
        1
    } else {
        section
    };
    match scheme {
        EqScheme::Chapter => {
            push_decimal(&mut r, c);
            r.push('.');
            push_decimal(&mut r, eq);
        },
        EqScheme::SectionWithChapter => {
            push_decimal(&mut r, c);
            r.push('.');
            push_decimal(&mut r, s);
            r.push('.');
            push_decimal(&mut r, eq);
        },
        EqScheme::Section => {
            push_decimal(&mut r, s);
            r.push('.');
            push_decimal(&mut r, eq);
        },
        EqScheme::Global => {
            push_decimal(&mut r, eq);
        },
    }
    assert(r@ =~= eq_number(scheme, chapter as nat, section as nat, eq as nat));
    r
}

// ---------------------------------------------------------------------------
// Heading counters.
// ---------------------------------------------------------------------------

/// The (chapter, section, equation) counters after a heading.  A numbered
/// chapter starts a new section count, and a new equation count unless
/// equations are numbered globally; a numbered section starts a new equation
/// count only where equations are numbered within sections.
pub open spec fn after_heading(level: nat, starred: bool, scheme: EqScheme, c: (nat, nat, nat)) -> (
    nat,
    nat,
    nat,
) {
    if level == 1 && !starred {
        (
            c.0 + 1,
            0,
            if scheme == EqScheme::Global {
                c.2
            } else {
                0
            },
        )
    } else if level == 2 && !starred {
        (
            c.0,
            c.1 + 1,
            if scheme == EqScheme::Section || scheme == EqScheme::SectionWithChapter {
                0
            } else {
                c.2
            },
        )
    } else {
        c
    }
}

pub fn update_heading_counters(
    event: &HeadingEvent,
    scheme: EqScheme,
    chapter_counter: &mut usize,
    section_counter: &mut usize,
    eq_counter: &mut usize,
)
    requires
        event.level == 1 && !event.is_starred ==> *old(chapter_counter) < usize::MAX,
        event.level == 2 && !event.is_starred ==> *old(section_counter) < usize::MAX,
    ensures
        (*final(chapter_counter) as nat, *final(section_counter) as nat, *final(eq_counter) as nat) == after_heading(
            event.level as nat,
            event.is_starred,
            scheme,
            (*old(chapter_counter) as nat, *old(section_counter) as nat, *old(eq_counter) as nat),
        ),
{
    if event.level == 1 {
        if !event.is_starred {
            *chapter_counter += 1;
            *section_counter = 0;
            if scheme != EqScheme::Global {
                *eq_counter = 0;
            }
        }
    } else if event.level == 2 {
        if !event.is_starred {
            *section_counter += 1;
            if scheme == EqScheme::Section || scheme == EqScheme::SectionWithChapter {
                *eq_counter = 0;
            }
        }
    }
}

/// The counters after a sequence of headings, in order.
pub open spec fn after_headings(evs: Seq<HeadingEvent>, scheme: EqScheme, c: (nat, nat, nat)) -> (
    nat,
    nat,
    nat,
)
    decreases evs.len(),
{
    if evs.len() == 0 {
        c
    } else {
        after_headings(
            evs.drop_first(),
            scheme,
            after_heading(evs[0].level as nat, evs[0].is_starred, scheme, c),
        )
    }
}

/// Each counter grows by at most one per heading.
pub proof fn lemma_after_headings_bound(
    evs: Seq<HeadingEvent>,
    scheme: EqScheme,
    c: (nat, nat, nat),
    b: nat,
)
    requires
        c.0 <= b,
        c.1 <= b,
        c.2 <= b,
    ensures
        after_headings(evs, scheme, c).0 <= b + evs.len(),
        after_headings(evs, scheme, c).1 <= b + evs.len(),
        after_headings(evs, scheme, c).2 <= b + evs.len(),
    decreases evs.len(),
{
    if evs.len() > 0 {
        lemma_after_headings_bound(
            evs.drop_first(),
            scheme,
            after_heading(evs[0].level as nat, evs[0].is_starred, scheme, c),
            b + 1,
        );
    }
}

/// Applies the headings in order to the three counters.
pub fn apply_headings(
    evs: &Vec<HeadingEvent>,
    scheme: EqScheme,
    chapter_counter: &mut usize,
    section_counter: &mut usize,
    eq_counter: &mut usize,
)
    requires
        *old(chapter_counter) + evs.len() <= usize::MAX,
        *old(section_counter) + evs.len() <= usize::MAX,
        *old(eq_counter) + evs.len() <= usize::MAX,
    ensures
        (*final(chapter_counter) as nat, *final(section_counter) as nat, *final(eq_counter) as nat) == after_headings(
            evs@,
            scheme,
            (*old(chapter_counter) as nat, *old(section_counter) as nat, *old(eq_counter) as nat),
        ),
{
    let ghost c0 = (*chapter_counter as nat, *section_counter as nat, *eq_counter as nat);
    assert(evs@.subrange(0, evs.len() as int) =~= evs@);
    let mut k: usize = 0;
    while k < evs.len()
        invariant
            k <= evs.len(),
            *chapter_counter + (evs.len() - k) <= usize::MAX,
            *section_counter + (evs.len() - k) <= usize::MAX,
            *eq_counter + (evs.len() - k) <= usize::MAX,
            after_headings(evs@, scheme, c0) == after_headings(
                evs@.subrange(k as int, evs.len() as int),
                scheme,
                (*chapter_counter as nat, *section_counter as nat, *eq_counter as nat),
            ),
        decreases evs.len() - k,
    {
        let ghost before = (*chapter_counter as nat, *section_counter as nat, *eq_counter as nat);
        assert(evs@.subrange(k as int, evs.len() as int).drop_first() =~= evs@.subrange(
            k + 1,
            evs.len() as int,
        ));
        assert(evs@.subrange(k as int, evs.len() as int)[0] == evs@[k as int]);
        update_heading_counters(&evs[k], scheme, chapter_counter, section_counter, eq_counter);
        k = k + 1;
    }
    assert(evs@.subrange(k as int, evs.len() as int) =~= Seq::<HeadingEvent>::empty());
    assert(evs@.subrange(0, evs.len() as int) =~= evs@);
}

// ---------------------------------------------------------------------------
// Recognising headings.
// ---------------------------------------------------------------------------

/// The first index `>= k` that does not hold white space.
pub open spec fn skip_ws(t: Seq<char>, k: int) -> int
    decreases t.len() - k,
{
    if 0 <= k < t.len() && is_ws(t[k]) {
        skip_ws(t, k + 1)
    } else {
        k
    }
}

pub proof fn lemma_skip_ws(t: Seq<char>, k: int)
    requires
        0 <= k,
    ensures
        k <= skip_ws(t, k),
        k <= t.len() ==> skip_ws(t, k) <= t.len(),
        k > t.len() ==> skip_ws(t, k) == k,
        forall|j: int| k <= j < skip_ws(t, k) ==> is_ws(#[trigger] t[j]),
        skip_ws(t, k) < t.len() ==> !is_ws(t[skip_ws(t, k)]),
    decreases t.len() - k,
{
    if 0 <= k < t.len() && is_ws(t[k]) {
        lemma_skip_ws(t, k + 1);
    }
}

pub fn skip_ws_exec(t: &Vec<char>, k: usize) -> (r: usize)
    ensures
        r as int == skip_ws(t@, k as int),
{
    let mut i = k;
    while i < t.len() && is_white(t[i])
        invariant
            k <= i,
            skip_ws(t@, k as int) == skip_ws(t@, i as int),
        decreases t.len() - i,
    {
        i = i + 1;
    }
    i
}

/// The first index `>= k` holding `c`.
pub fn find_char(t: &Vec<char>, c: char, k: usize) -> (r: Option<usize>)
    ensures
        r matches Some(m) ==> find_from(t@, seq![c], k as int) == Some(m as int),
        r is None ==> find_from(t@, seq![c], k as int) is None,
{
    let mut i = k;
    while i < t.len()
        invariant
            k <= i,
            find_from(t@, seq![c], k as int) == find_from(t@, seq![c], i as int),
        decreases t.len() - i,
    {
        assert(has_at(t@, i as int, seq![c]) <==> t@[i as int] == c) by {
            if t@[i as int] == c {
                assert(t@.subrange(i as int, i + 1) =~= seq![c]);
            } else {
                assert(t@.subrange(i as int, i + 1)[0] == t@[i as int]);
            }
        }
        if t[i] == c {
            return Some(i);
        }
        i = i + 1;
    }
    None
}

/// After the white space from `k`, an optional `[...]` and then `{`:
/// the index just past that `{`.
pub open spec fn bracket_then_brace(t: Seq<char>, k: int) -> Option<int> {
    if 0 <= k < t.len() && t[k] == '{' {
        Some(k + 1)
    } else if 0 <= k < t.len() && t[k] == '[' {
        match find_from(t, seq![']'], k + 1) {
            Some(m) => {
                let k3 = skip_ws(t, m + 1);
                if k3 < t.len() && t[k3] == '{' {
                    Some(k3 + 1)
                } else {
                    None
                }
            },
            None => None,
        }
    } else {
        None
    }
}

/// A LaTeX heading command `name` at `p`, as `name(\*?)\s*(?:\[[^\]]*\])?\s*\{`
/// matches there: the end of the match and whether it is starred.
pub open spec fn cmd_heading_at(t: Seq<char>, p: int, name: Seq<char>) -> Option<(int, bool)> {
    if has_at(t, p, name) {
        let k = p + name.len();
        let starred = k < t.len() && t[k] == '*';
        let k1 = if starred {
            k + 1
        } else {
            k
        };
        match bracket_then_brace(t, skip_ws(t, k1)) {
            Some(e) => Some((e, starred)),
            None => None,
        }
    } else {
        None
    }
}

/// A line start (of the text searched) at `p`.
pub open spec fn line_start(t: Seq<char>, p: int) -> bool {
    p == 0 || (0 < p <= t.len() && t[p - 1] == '\n')
}

/// A Markdown heading marker `hashes` at a line start, followed by white
/// space (`(?m)^#\s+`): the end of the match.
pub open spec fn md_heading_at(t: Seq<char>, p: int, hashes: Seq<char>) -> Option<int> {
    if line_start(t, p) && has_at(t, p, hashes) && p + hashes.len() < t.len() && is_ws(
        t[p + hashes.len()],
    ) {
        Some(skip_ws(t, p + hashes.len()))
    } else {
        None
    }
}

pub open spec fn chapter_cmd() -> Seq<char> {
    "\\chapter"@
}

pub open spec fn section_cmd() -> Seq<char> {
    "\\section"@
}

pub open spec fn h1_mark() -> Seq<char> {
    seq!['#']
}

pub open spec fn h2_mark() -> Seq<char> {
    seq!['#', '#']
}

/// UTF-8 length of a character.
pub open spec fn utf8_width(c: char) -> nat {
    if (c as u32) < 0x80 {
        1
    } else if (c as u32) < 0x800 {
        2
    } else if (c as u32) < 0x10000 {
        3
    } else {
        4
    }
}

/// UTF-8 length of the `k` characters before `p`.
pub open spec fn bytes_back(t: Seq<char>, p: int, k: int) -> nat
    decreases k,
{
    if k <= 0 || p - k < 0 {
        0
    } else {
        utf8_width(t[p - k]) + bytes_back(t, p, k - 1)
    }
}

/// Slicing the three bytes before `p` fails: there are at least three bytes
/// before `p`, and no character boundary three bytes back.
pub open spec fn byte_window_panics(t: Seq<char>, p: int) -> bool {
    let at_least_three = p >= 3 || (p >= 1 && bytes_back(t, p, 1) >= 3) || (p >= 2 && bytes_back(
        t,
        p,
        2,
    ) >= 3);
    let aligned = (p >= 1 && bytes_back(t, p, 1) == 3) || (p >= 2 && bytes_back(t, p, 2) == 3) || (
    p >= 3 && bytes_back(t, p, 3) == 3);
    at_least_three && !aligned
}

/// `sub` just before `p`: the `\section` found there is part of a word.
pub open spec fn after_sub(t: Seq<char>, p: int) -> bool {
    p >= 3 && t.subrange(p - 3, p) == seq!['s', 'u', 'b']
}

/// The four searches at `p` (chapter, section, `#`, `##`), each only where it
/// has resumed (`p` is not inside its previous match).
pub open spec fn matches_at(t: Seq<char>, p: int, r: (int, int, int, int)) -> (
    Option<(int, bool)>,
    Option<(int, bool)>,
    Option<int>,
    Option<int>,
) {
    (
        if p >= r.0 {
            cmd_heading_at(t, p, chapter_cmd())
        } else {
            None
        },
        if p >= r.1 {
            cmd_heading_at(t, p, section_cmd())
        } else {
            None
        },
        if p >= r.2 {
            md_heading_at(t, p, h1_mark())
        } else {
            None
        },
        if p >= r.3 {
            md_heading_at(t, p, h2_mark())
        } else {
            None
        },
    )
}

/// The headings that start at `p`, in the order chapter, section, `#`, `##`
/// (a `\section` right after `sub` is no heading).
pub open spec fn step_events(t: Seq<char>, p: int, r: (int, int, int, int)) -> Seq<HeadingEvent> {
    let m = matches_at(t, p, r);
    (match m.0 {
        Some((_, st)) => seq![HeadingEvent { pos: p as usize, level: 1, is_starred: st }],
        None => seq![],
    }) + (match m.1 {
        Some((_, st)) => if after_sub(t, p) {
            seq![]
        } else {
            seq![HeadingEvent { pos: p as usize, level: 2, is_starred: st }]
        },
        None => seq![],
    }) + (match m.2 {
        Some(_) => seq![HeadingEvent { pos: p as usize, level: 1, is_starred: false }],
        None => seq![],
    }) + (match m.3 {
        Some(_) => seq![HeadingEvent { pos: p as usize, level: 2, is_starred: false }],
        None => seq![],
    })
}

/// Where each search resumes after `p`.
pub open spec fn step_resume(t: Seq<char>, p: int, r: (int, int, int, int)) -> (int, int, int, int) {
    let m = matches_at(t, p, r);
    (
        match m.0 {
            Some((e, _)) => e,
            None => r.0,
        },
        match m.1 {
            Some((e, _)) => e,
            None => r.1,
        },
        match m.2 {
            Some(e) => e,
            None => r.2,
        },
        match m.3 {
            Some(e) => e,
            None => r.3,
        },
    )
}

/// The headings of `t` from index `p`, in order of position, given where
/// each of the four searches resumes; a search resumes after its previous
/// match.
pub open spec fn scan_from(t: Seq<char>, p: int, r: (int, int, int, int)) -> Seq<HeadingEvent>
    decreases t.len() - p,
{
    if p < 0 || p >= t.len() {
        seq![]
    } else {
        step_events(t, p, r) + scan_from(t, p + 1, step_resume(t, p, r))
    }
}

/// The headings of `t`, in order of position.
pub open spec fn headings(t: Seq<char>) -> Seq<HeadingEvent> {
    scan_from(t, 0, (0, 0, 0, 0))
}

/// Scanning `t` from `p` reaches a `\section` whose three-byte look-behind
/// cannot be sliced.
pub open spec fn scan_panics_from(t: Seq<char>, p: int, rs: int) -> bool
    decreases t.len() - p,
{
    if p < 0 || p >= t.len() {
        false
    } else {
        match (if p >= rs {
            cmd_heading_at(t, p, section_cmd())
        } else {
            None
        }) {
            Some((e, _)) => byte_window_panics(t, p) || scan_panics_from(t, p + 1, e),
            None => scan_panics_from(t, p + 1, rs),
        }
    }
}

pub open spec fn scan_panics(t: Seq<char>) -> bool {
    scan_panics_from(t, 0, 0)
}

/// At most one heading starts at any index.
pub proof fn lemma_step_events_len(t: Seq<char>, p: int, r: (int, int, int, int))
    requires
        0 <= p < t.len(),
    ensures
        step_events(t, p, r).len() <= 1,
{
    reveal_strlit("\\chapter");
    reveal_strlit("\\section");
    let m = matches_at(t, p, r);
    if m.0 is Some {
        assert(t.subrange(p, p + 8)[1] == t[p + 1]);
        assert(t.subrange(p, p + 8)[0] == t[p]);
    }
    if m.1 is Some {
        assert(t.subrange(p, p + 8)[1] == t[p + 1]);
        assert(t.subrange(p, p + 8)[0] == t[p]);
    }
    if m.2 is Some {
        assert(t.subrange(p, p + 1)[0] == t[p]);
    }
    if m.3 is Some {
        assert(t.subrange(p, p + 2)[0] == t[p]);
        assert(t.subrange(p, p + 2)[1] == t[p + 1]);
    }
}

pub proof fn lemma_scan_len(t: Seq<char>, p: int, r: (int, int, int, int))
    requires
        0 <= p <= t.len(),
    ensures
        scan_from(t, p, r).len() <= t.len() - p,
    decreases t.len() - p,
{
    if p < t.len() {
        lemma_step_events_len(t, p, r);
        lemma_scan_len(t, p + 1, step_resume(t, p, r));
    }
}

fn bracket_then_brace_exec(t: &Vec<char>, k: usize) -> (r: Option<usize>)
    ensures
        r matches Some(e) ==> bracket_then_brace(t@, k as int) == Some(e as int),
        r is None ==> bracket_then_brace(t@, k as int) is None,
{
    if k < t.len() && t[k] == '{' {
        Some(k + 1)
    } else if k < t.len() && t[k] == '[' {
        match find_char(t, ']', k + 1) {
            Some(m) => {
                proof {
                    lemma_find_from(t@, seq![']'], k + 1);
                }
                let k3 = skip_ws_exec(t, m + 1);
                if k3 < t.len() && t[k3] == '{' {
                    Some(k3 + 1)
                } else {
                    None
                }
            },
            None => None,
        }
    } else {
        None
    }
}

fn cmd_heading_exec(t: &Vec<char>, p: usize, name: &Vec<char>) -> (r: Option<(usize, bool)>)
    ensures
        r matches Some((e, st)) ==> cmd_heading_at(t@, p as int, name@) == Some((e as int, st)),
        r is None ==> cmd_heading_at(t@, p as int, name@) is None,
{
    if !has_at_exec(t, p, name) {
        return None;
    }
    let tl = t.len();
    assert(p + name@.len() <= tl);
    let k = p + name.len();
    let starred = k < t.len() && t[k] == '*';
    let k1 = if starred {
        k + 1
    } else {
        k
    };
    let k2 = skip_ws_exec(t, k1);
    match bracket_then_brace_exec(t, k2) {
        Some(e) => Some((e, starred)),
        None => None,
    }
}

pub(crate) fn md_heading_exec(t: &Vec<char>, p: usize, hashes: &Vec<char>) -> (r: Option<usize>)
    ensures
        r matches Some(e) ==> md_heading_at(t@, p as int, hashes@) == Some(e as int),
        r is None ==> md_heading_at(t@, p as int, hashes@) is None,
{
    let at_line_start = p == 0 || (p <= t.len() && t[p - 1] == '\n');
    if at_line_start && has_at_exec(t, p, hashes) && hashes.len() < t.len() - p && is_white(
        t[p + hashes.len()],
    ) {
        Some(skip_ws_exec(t, p + hashes.len()))
    } else {
        None
    }
}

fn utf8_width_exec(c: char) -> (r: usize)
    ensures
        r as nat == utf8_width(c),
{
    let v = c as u32;
    if v < 0x80 {
        1
    } else if v < 0x800 {
        2
    } else if v < 0x10000 {
        3
    } else {
        4
    }
}

fn byte_window_panics_exec(t: &Vec<char>, p: usize) -> (r: bool)
    requires
        p <= t.len(),
    ensures
        r == byte_window_panics(t@, p as int),
{
    let b1 = if p >= 1 {
        utf8_width_exec(t[p - 1])
    } else {
        0
    };
    let b2 = if p >= 2 {
        b1 + utf8_width_exec(t[p - 2])
    } else {
        0
    };
    let b3 = if p >= 3 {
        b2 + utf8_width_exec(t[p - 3])
    } else {
        0
    };
    proof {
        reveal_with_fuel(bytes_back, 4);
    }
    let at_least_three = p >= 3 || (p >= 1 && b1 >= 3) || (p >= 2 && b2 >= 3);
    let aligned = (p >= 1 && b1 == 3) || (p >= 2 && b2 == 3) || (p >= 3 && b3 == 3);
    at_least_three && !aligned
}

fn after_sub_exec(t: &Vec<char>, p: usize) -> (r: bool)
    requires
        p <= t.len(),
    ensures
        r == after_sub(t@, p as int),
{
    if p >= 3 && t[p - 3] == 's' && t[p - 2] == 'u' && t[p - 1] == 'b' {
        assert(t@.subrange(p - 3, p as int) =~= seq!['s', 'u', 'b']);
        true
    } else {
        proof {
            if p >= 3 {
                assert(t@.subrange(p - 3, p as int)[0] == t@[p - 3]);
                assert(t@.subrange(p - 3, p as int)[1] == t@[p - 2]);
                assert(t@.subrange(p - 3, p as int)[2] == t@[p - 1]);
            }
        }
        false
    }
}

/// The headings starting at `p` and where the searches resume, or `None`
/// where the section found at `p` cannot have its look-behind sliced.
fn scan_step(
    t: &Vec<char>,
    p: usize,
    r: (usize, usize, usize, usize),
    chapter: &Vec<char>,
    section: &Vec<char>,
    h1: &Vec<char>,
    h2: &Vec<char>,
) -> (res: Option<(Vec<HeadingEvent>, (usize, usize, usize, usize))>)
    requires
        p < t.len(),
        chapter@ == chapter_cmd(),
        section@ == section_cmd(),
        h1@ == h1_mark(),
        h2@ == h2_mark(),
    ensures
        ({
            let rr = (r.0 as int, r.1 as int, r.2 as int, r.3 as int);
            let m = matches_at(t@, p as int, rr);
            match res {
                None => m.1 is Some && byte_window_panics(t@, p as int),
                Some((evs, r2)) => {
                    &&& !(m.1 is Some && byte_window_panics(t@, p as int))
                    &&& evs@ == step_events(t@, p as int, rr)
                    &&& (r2.0 as int, r2.1 as int, r2.2 as int, r2.3 as int) == step_resume(
                        t@,
                        p as int,
                        rr,
                    )
                },
            }
        }),
{
    let c = if p >= r.0 {
        cmd_heading_exec(t, p, chapter)
    } else {
        None
    };
    let s = if p >= r.1 {
        cmd_heading_exec(t, p, section)
    } else {
        None
    };
    let h = if p >= r.2 {
        md_heading_exec(t, p, h1)
    } else {
        None
    };
    let hh = if p >= r.3 {
        md_heading_exec(t, p, h2)
    } else {
        None
    };
    let mut e1: Vec<HeadingEvent> = Vec::new();
    let mut e2: Vec<HeadingEvent> = Vec::new();
    let mut e3: Vec<HeadingEvent> = Vec::new();
    let mut e4: Vec<HeadingEvent> = Vec::new();
    let mut r2 = r;
    match c {
        Some((e, st)) => {
            e1.push(HeadingEvent { pos: p, level: 1, is_starred: st });
            r2.0 = e;
        },
        None => {},
    }
    match s {
        Some((e, st)) => {
            if byte_window_panics_exec(t, p) {
                return None;
            }
            if !after_sub_exec(t, p) {
                e2.push(HeadingEvent { pos: p, level: 2, is_starred: st });
            }
            r2.1 = e;
        },
        None => {},
    }
    match h {
        Some(e) => {
            e3.push(HeadingEvent { pos: p, level: 1, is_starred: false });
            r2.2 = e;
        },
        None => {},
    }
    match hh {
        Some(e) => {
            e4.push(HeadingEvent { pos: p, level: 2, is_starred: false });
            r2.3 = e;
        },
        None => {},
    }
    let ghost g = e1@ + e2@ + e3@ + e4@;
    e1.append(&mut e2);
    e1.append(&mut e3);
    e1.append(&mut e4);
    assert(e1@ =~= g);
    Some((e1, r2))
}

/// The headings of `t` in order of position, or `None` where scanning them
/// reaches a `\section` whose three-byte look-behind cannot be sliced.
pub fn scan_events(t: &Vec<char>) -> (r: Option<Vec<HeadingEvent>>)
    ensures
        r is None <==> scan_panics(t@),
        r matches Some(v) ==> v@ == headings(t@),
{
    let chapter = chars_of("\\chapter");
    let section = chars_of("\\section");
    let mut h1: Vec<char> = Vec::new();
    h1.push('#');
    let mut h2: Vec<char> = Vec::new();
    h2.push('#');
    h2.push('#');
    assert(h1@ =~= h1_mark());
    assert(h2@ =~= h2_mark());
    let mut events: Vec<HeadingEvent> = Vec::new();
    let mut r: (usize, usize, usize, usize) = (0, 0, 0, 0);
    let mut p: usize = 0;
    while p < t.len()
        invariant
            p <= t.len(),
            chapter@ == chapter_cmd(),
            section@ == section_cmd(),
            h1@ == h1_mark(),
            h2@ == h2_mark(),
            events@ + scan_from(t@, p as int, (r.0 as int, r.1 as int, r.2 as int, r.3 as int))
                == headings(t@),
            scan_panics(t@) == scan_panics_from(t@, p as int, r.1 as int),
        decreases t.len() - p,
    {
        let ghost old_events = events@;
        match scan_step(t, p, r, &chapter, &section, &h1, &h2) {
            None => {
                return None;
            },
            Some((mut evs, r2)) => {
                let ghost step = evs@;
                events.append(&mut evs);
                assert(events@ + scan_from(
                    t@,
                    p + 1,
                    (r2.0 as int, r2.1 as int, r2.2 as int, r2.3 as int),
                ) =~= old_events + (step + scan_from(
                    t@,
                    p + 1,
                    (r2.0 as int, r2.1 as int, r2.2 as int, r2.3 as int),
                )));
                r = r2;
            },
        }
        p = p + 1;
    }
    Some(events)
}

/// Where the character at index `k` of `t` starts, in bytes.
pub open spec fn byte_offset(t: Seq<char>, k: int) -> nat {
    crate::diagnostics::utf8_len(t.subrange(0, k))
}

/// The headings of `t` with their positions given in bytes.
pub open spec fn headings_in_bytes(t: Seq<char>) -> Seq<HeadingEvent> {
    headings(t).map_values(
        |e: HeadingEvent|
            HeadingEvent { pos: byte_offset(t, e.pos as int) as usize, level: e.level, is_starred: e.is_starred },
    )
}

/// The byte offset of every character of `t`, and of its end.
fn byte_offsets(t: &Vec<char>) -> (r: Vec<usize>)
    requires
        crate::diagnostics::utf8_len(t@) <= usize::MAX,
    ensures
        r@.len() == t@.len() + 1,
        forall|k: int| 0 <= k <= t@.len() ==> #[trigger] r@[k] as nat == byte_offset(t@, k),
{
    let mut r: Vec<usize> = Vec::new();
    r.push(0);
    let mut b: usize = 0;
    let mut k: usize = 0;
    assert(t@.subrange(0, 0) =~= Seq::<char>::empty());
    while k < t.len()
        invariant
            k <= t@.len(),
            crate::diagnostics::utf8_len(t@) <= usize::MAX,
            r@.len() == k + 1,
            b as nat == byte_offset(t@, k as int),
            forall|j: int| 0 <= j <= k ==> #[trigger] r@[j] as nat == byte_offset(t@, j),
        decreases t.len() - k,
    {
        proof {
            assert(t@.subrange(0, k + 1).drop_last() =~= t@.subrange(0, k as int));
            crate::diagnostics::lemma_utf8_len_mono(t@, k + 1);
        }
        b = b + utf8_width_exec(t[k]);
        r.push(b);
        k = k + 1;
    }
    r
}

/// The headings of `text`, in order of position, each placed by its byte
/// offset.  (A text's length in bytes always fits a `usize`.)
pub fn scan_heading_events(text: &str) -> (r: Vec<HeadingEvent>)
    requires
        !scan_panics(text@),
        crate::diagnostics::utf8_len(text@) <= usize::MAX,
    ensures
        r@ == headings_in_bytes(text@),
{
    let t = chars_of(text);
    let evs = match scan_events(&t) {
        Some(v) => v,
        None => Vec::new(),
    };
    let offsets = byte_offsets(&t);
    let mut r: Vec<HeadingEvent> = Vec::new();
    let mut k: usize = 0;
    while k < evs.len()
        invariant
            k <= evs@.len(),
            t@ == text@,
            evs@ == headings(t@),
            offsets@.len() == t@.len() + 1,
            forall|j: int| 0 <= j <= t@.len() ==> #[trigger] offsets@[j] as nat == byte_offset(t@, j),
            r@ == headings_in_bytes(t@).subrange(0, k as int),
        decreases evs.len() - k,
    {
        let e = evs[k];
        proof {
            lemma_headings_pos_in_range(t@, 0, (0, 0, 0, 0), k as int);
        }
        r.push(HeadingEvent { pos: offsets[e.pos], level: e.level, is_starred: e.is_starred });
        k = k + 1;
        assert(r@ =~= headings_in_bytes(t@).subrange(0, k as int));
    }
    assert(r@ =~= headings_in_bytes(t@));
    r
}

/// Every heading found lies inside the text.
proof fn lemma_headings_pos_in_range(t: Seq<char>, p: int, r: (int, int, int, int), k: int)
    requires
        0 <= p,
        t.len() <= usize::MAX,
        0 <= k < scan_from(t, p, r).len(),
    ensures
        p <= scan_from(t, p, r)[k].pos < t.len(),
    decreases t.len() - p,
{
    if p < t.len() {
        let st = step_events(t, p, r);
        lemma_step_events_len(t, p, r);
        if k >= st.len() {
            lemma_headings_pos_in_range(t, p + 1, step_resume(t, p, r), k - st.len());
        } else {
            let m = matches_at(t, p, r);
            let a: Seq<HeadingEvent> = match m.0 {
                Some((_, x)) => seq![HeadingEvent { pos: p as usize, level: 1, is_starred: x }],
                None => seq![],
            };
            let b: Seq<HeadingEvent> = match m.1 {
                Some((_, x)) => if after_sub(t, p) {
                    seq![]
                } else {
                    seq![HeadingEvent { pos: p as usize, level: 2, is_starred: x }]
                },
                None => seq![],
            };
            let c: Seq<HeadingEvent> = match m.2 {
                Some(_) => seq![HeadingEvent { pos: p as usize, level: 1, is_starred: false }],
                None => seq![],
            };
            let d: Seq<HeadingEvent> = match m.3 {
                Some(_) => seq![HeadingEvent { pos: p as usize, level: 2, is_starred: false }],
                None => seq![],
            };
            assert(st == a + b + c + d);
            assert(forall|j: int| 0 <= j < a.len() ==> a[j].pos == p as usize);
            assert(forall|j: int| 0 <= j < b.len() ==> b[j].pos == p as usize);
            assert(forall|j: int| 0 <= j < c.len() ==> c[j].pos == p as usize);
            assert(forall|j: int| 0 <= j < d.len() ==> d[j].pos == p as usize);
            assert(st[k].pos == p as usize);
        }
    }
}

// ---------------------------------------------------------------------------
// Does the document have chapters?
// ---------------------------------------------------------------------------

/// A `#` heading line starts at `i` (`(?m)^#\s+`).
pub open spec fn h1_at(t: Seq<char>, i: int) -> bool {
    md_heading_at(t, i, h1_mark()) is Some
}

/// A `## Chapter` line starts at `i` (`(?m)^##\s*Chapter\b`).
pub open spec fn chapter_h2_at(t: Seq<char>, i: int) -> bool {
    &&& line_start(t, i)
    &&& has_at(t, i, h2_mark())
    &&& has_at(t, skip_ws(t, i + 2), "Chapter"@)
    &&& word_ends_at(t, skip_ws(t, i + 2) + 7)
}

/// A `top-level-division: chapter` line starts at `i`
/// (`(?m)^top-level-division:\s*chapter`).
pub open spec fn chapter_division_at(t: Seq<char>, i: int) -> bool {
    &&& line_start(t, i)
    &&& has_at(t, i, "top-level-division:"@)
    &&& has_at(t, skip_ws(t, i + 19), "chapter"@)
}

/// LaTeX markers of a document with chapters.
pub open spec fn has_tex_chapter_marker(t: Seq<char>) -> bool {
    ||| contains(t, "\\chapter"@)
    ||| contains(t, "\\documentclass{report}"@)
    ||| contains(t, "\\documentclass{book}"@)
    ||| contains(t, "\\documentclass{scrreprt}"@)
    ||| contains(t, "\\documentclass{scrbook}"@)
}

/// A document has chapters when it uses `\chapter` or a chapter-based class,
/// has a `## Chapter` line or a `top-level-division: chapter` line, or has at
/// least two `#` heading lines.  (`#` heading matches never overlap, so
/// counting positions counts matches.)
pub open spec fn has_chapters(t: Seq<char>) -> bool {
    &&& t.len() > 0
    &&& {
        ||| has_tex_chapter_marker(t)
        ||| (exists|i: int| chapter_h2_at(t, i))
        ||| (exists|i: int| chapter_division_at(t, i))
        ||| (exists|i: int, j: int| i < j && h1_at(t, i) && h1_at(t, j))
    }
}

fn line_start_exec(t: &Vec<char>, i: usize) -> (r: bool)
    ensures
        r == line_start(t@, i as int),
{
    i == 0 || (i <= t.len() && t[i - 1] == '\n')
}

fn h1_at_exec(t: &Vec<char>, i: usize, h1: &Vec<char>) -> (r: bool)
    requires
        h1@ == h1_mark(),
    ensures
        r == h1_at(t@, i as int),
{
    md_heading_exec(t, i, h1).is_some()
}

fn chapter_h2_at_exec(t: &Vec<char>, i: usize, h2: &Vec<char>, chapter: &Vec<char>) -> (r: bool)
    requires
        h2@ == h2_mark(),
        chapter@ == "Chapter"@,
    ensures
        r == chapter_h2_at(t@, i as int),
{
    let tl = t.len();
    if !(line_start_exec(t, i) && has_at_exec(t, i, h2)) {
        return false;
    }
    assert(i + 2 <= tl);
    let k = skip_ws_exec(t, i + 2);
    proof {
        lemma_skip_ws(t@, i + 2);
        reveal_strlit("Chapter");
    }
    if !has_at_exec(t, k, chapter) {
        return false;
    }
    assert(k + 7 <= tl);
    word_ends_at_exec(t, k + 7)
}

fn chapter_division_at_exec(t: &Vec<char>, i: usize, div: &Vec<char>, chapter: &Vec<char>) -> (r: bool)
    requires
        div@ == "top-level-division:"@,
        chapter@ == "chapter"@,
    ensures
        r == chapter_division_at(t@, i as int),
{
    proof {
        reveal_strlit("top-level-division:");
    }
    let tl = t.len();
    if !(line_start_exec(t, i) && has_at_exec(t, i, div)) {
        return false;
    }
    assert(i + 19 <= tl);
    let k = skip_ws_exec(t, i + 19);
    has_at_exec(t, k, chapter)
}

pub fn detect_document_has_chapters(content: &str) -> (r: bool)
    ensures
        r == has_chapters(content@),
{
    let t = chars_of(content);
    if t.len() == 0 {
        return false;
    }
    let tex = contains_exec(&t, &chars_of("\\chapter")) || contains_exec(
        &t,
        &chars_of("\\documentclass{report}"),
    ) || contains_exec(&t, &chars_of("\\documentclass{book}")) || contains_exec(
        &t,
        &chars_of("\\documentclass{scrreprt}"),
    ) || contains_exec(&t, &chars_of("\\documentclass{scrbook}"));
    let mut h1: Vec<char> = Vec::new();
    h1.push('#');
    let mut h2: Vec<char> = Vec::new();
    h2.push('#');
    h2.push('#');
    assert(h1@ =~= h1_mark());
    assert(h2@ =~= h2_mark());
    let chapter_word = chars_of("Chapter");
    let div = chars_of("top-level-division:");
    let chapter_lower = chars_of("chapter");
    let mut h1_seen: usize = 0;
    let mut first_h1: usize = 0;
    let mut h2_chapter = false;
    let mut division = false;
    let mut i: usize = 0;
    while i < t.len()
        invariant
            i <= t.len(),
            t@ == content@,
            h1@ == h1_mark(),
            h2@ == h2_mark(),
            chapter_word@ == "Chapter"@,
            div@ == "top-level-division:"@,
            chapter_lower@ == "chapter"@,
            h1_seen <= 2,
            h1_seen == 0 ==> forall|j: int| 0 <= j < i ==> !h1_at(t@, j),
            h1_seen >= 1 ==> first_h1 < i && h1_at(t@, first_h1 as int),
            h1_seen >= 1 ==> forall|j: int| 0 <= j < first_h1 ==> !h1_at(t@, j),
            h1_seen == 1 ==> forall|j: int| first_h1 < j < i ==> !h1_at(t@, j),
            h1_seen == 2 ==> exists|a: int, b: int| a < b && h1_at(t@, a) && h1_at(t@, b),
            h2_chapter == exists|j: int| 0 <= j < i && chapter_h2_at(t@, j),
            division == exists|j: int| 0 <= j < i && chapter_division_at(t@, j),
        decreases t.len() - i,
    {
        if h1_seen < 2 && h1_at_exec(&t, i, &h1) {
            if h1_seen == 0 {
                first_h1 = i;
            }
            h1_seen = h1_seen + 1;
        }
        if chapter_h2_at_exec(&t, i, &h2, &chapter_word) {
            h2_chapter = true;
        }
        if chapter_division_at_exec(&t, i, &div, &chapter_lower) {
            division = true;
        }
        i = i + 1;
    }
    proof {
        assert forall|j: int| chapter_h2_at(t@, j) implies 0 <= j < t@.len() by {
            reveal_strlit("Chapter");
            lemma_skip_ws(t@, j + 2);
        }
        assert forall|j: int| chapter_division_at(t@, j) implies 0 <= j < t@.len() by {
            reveal_strlit("top-level-division:");
        }
        assert forall|j: int| h1_at(t@, j) implies 0 <= j < t@.len() by {
        }
        if h1_seen < 2 {
            assert forall|a: int, b: int| a < b && h1_at(t@, a) implies !h1_at(t@, b) by {
                if h1_seen == 1 {
                    if a != first_h1 {
                        assert(a > first_h1);
                    }
                }
            }
        }
    }
    tex || h2_chapter || division || h1_seen >= 2
}

// ---------------------------------------------------------------------------
// Laws.
// ---------------------------------------------------------------------------

/// A chapter heading starts a new chapter with its sections counted afresh,
/// and its equations too unless they are numbered globally; a section
/// heading starts a new section, and restarts the equations under the
/// section schemes only; starred headings and headings of other levels count
/// nothing.
pub proof fn law_headings_restart_counters(level: nat, starred: bool, scheme: EqScheme, c: (nat, nat, nat))
    ensures
        level == 1 && !starred ==> after_heading(level, starred, scheme, c).0 == c.0 + 1
            && after_heading(level, starred, scheme, c).1 == 0,
        level == 1 && !starred && scheme != EqScheme::Global ==> after_heading(
            level,
            starred,
            scheme,
            c,
        ).2 == 0,
        level == 2 && !starred ==> after_heading(level, starred, scheme, c).0 == c.0
            && after_heading(level, starred, scheme, c).1 == c.1 + 1,
        level == 2 && !starred && (scheme == EqScheme::Section || scheme == EqScheme::SectionWithChapter)
            ==> after_heading(level, starred, scheme, c).2 == 0,
        level == 2 && !starred && (scheme == EqScheme::Chapter || scheme == EqScheme::Global)
            ==> after_heading(level, starred, scheme, c).2 == c.2,
        starred || (level != 1 && level != 2) ==> after_heading(level, starred, scheme, c) == c,
{
}

/// Under global numbering no heading, whatever its level, restarts the
/// equation count: it runs on through the whole document.
pub proof fn law_global_numbering_never_restarts(evs: Seq<HeadingEvent>, c: (nat, nat, nat))
    ensures
        after_headings(evs, EqScheme::Global, c).2 == c.2,
    decreases evs.len(),
{
    if evs.len() > 0 {
        law_global_numbering_never_restarts(
            evs.drop_first(),
            after_heading(evs[0].level as nat, evs[0].is_starred, EqScheme::Global, c),
        );
    }
}

} // verus!
