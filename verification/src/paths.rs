//! File names and search paths around the conversions: the program search
//! path, the name chosen in a save dialog, the auxiliary files of a LaTeX
//! run, and the pieces of a LaTeX source that includes other files.
use vstd::prelude::*;
use crate::spelling::{
    begins, equals, holds_text, lemma_run_until, opt_text, push_string, push_text, run_until,
    run_until_exec, same_chars, strings,
};
use crate::text::{
    chars_of, copy_range, ends_with, has_at, has_at_exec, lowercase, push_range, push_str,
    string_of, string_of_range, to_lowercase,
};

verus! {

/// The directories searched first for the LaTeX and Pandoc programs.
pub open spec fn preferred_dirs() -> Seq<Seq<char>> {
    seq!["/Library/TeX/texbin"@, "/opt/homebrew/bin"@, "/usr/local/bin"@]
}

/// `s` from `start` split at each `c` (a text without `c` is one piece).
pub open spec fn split_from(s: Seq<char>, start: int, c: char) -> Seq<Seq<char>>
    decreases s.len() - start,
{
    if start < 0 || start > s.len() {
        seq![]
    } else {
        let k = run_until(s, start, c);
        proof {
            lemma_run_until(s, start, c);
        }
        if k >= s.len() {
            seq![s.subrange(start, s.len() as int)]
        } else {
            seq![s.subrange(start, k)] + split_from(s, k + 1, c)
        }
    }
}

/// The directories of the current search path that are not empty and not
/// among the preferred ones, in order.
pub open spec fn other_dirs(ds: Seq<Seq<char>>) -> Seq<Seq<char>>
    decreases ds.len(),
{
    if ds.len() == 0 {
        seq![]
    } else {
        let prev = other_dirs(ds.drop_last());
        if ds.last().len() > 0 && !preferred_dirs().contains(ds.last()) {
            prev.push(ds.last())
        } else {
            prev
        }
    }
}

pub open spec fn joined_with(ws: Seq<Seq<char>>, c: char) -> Seq<char>
    decreases ws.len(),
{
    if ws.len() == 0 {
        seq![]
    } else if ws.len() == 1 {
        ws[0]
    } else {
        joined_with(ws.drop_last(), c) + seq![c] + ws.last()
    }
}

/// The search path for the conversions: the preferred directories first,
/// then the rest of `current`.
pub open spec fn search_path_of(current: Seq<char>) -> Seq<char> {
    joined_with(preferred_dirs() + other_dirs(split_from(current, 0, ':')), ':')
}

fn split_colons(s: &Vec<char>) -> (r: Vec<Vec<char>>)
    ensures
        crate::text::views(r@) == split_from(s@, 0, ':'),
{
    let mut out: Vec<Vec<char>> = Vec::new();
    let mut start: usize = 0;
    loop
        invariant
            start <= s.len(),
            crate::text::views(out@) + split_from(s@, start as int, ':') == split_from(s@, 0, ':'),
        decreases s.len() - start,
    {
        proof {
            lemma_run_until(s@, start as int, ':');
        }
        let k = run_until_exec(s, start, ':');
        let piece = copy_range(s, start, k);
        let ghost before = crate::text::views(out@);
        out.push(piece);
        assert(crate::text::views(out@) =~= before.push(piece@));
        if k >= s.len() {
            assert(crate::text::views(out@) =~= before + split_from(s@, start as int, ':'));
            return out;
        }
        assert(crate::text::views(out@) + split_from(s@, k + 1, ':') =~= before + split_from(
            s@,
            start as int,
            ':',
        ));
        start = k + 1;
    }
}

/// The program search path: `/Library/TeX/texbin`, `/opt/homebrew/bin` and
/// `/usr/local/bin` first, then the other directories of `current`.
pub fn search_path(current: &str) -> (r: String)
    ensures
        r@ == search_path_of(current@),
{
    let parts = split_colons(&chars_of(current));
    let mut dirs: Vec<String> = Vec::new();
    push_text(&mut dirs, "/Library/TeX/texbin");
    push_text(&mut dirs, "/opt/homebrew/bin");
    push_text(&mut dirs, "/usr/local/bin");
    assert(strings(dirs@) =~= preferred_dirs());
    let mut k: usize = 0;
    assert(crate::text::views(parts@).subrange(0, 0) =~= Seq::<Seq<char>>::empty());
    while k < parts.len()
        invariant
            k <= parts.len(),
            crate::text::views(parts@) == split_from(current@, 0, ':'),
            strings(dirs@) == preferred_dirs() + other_dirs(crate::text::views(parts@).subrange(0, k as int)),
        decreases parts.len() - k,
    {
        let p = &parts[k];
        let preferred = equals(p, "/Library/TeX/texbin") || equals(p, "/opt/homebrew/bin") || equals(
            p,
            "/usr/local/bin",
        );
        assert(preferred == preferred_dirs().contains(p@)) by {
            if preferred_dirs().contains(p@) {
                let j = choose|j: int| 0 <= j < 3 && preferred_dirs()[j] == p@;
            }
            if p@ == "/Library/TeX/texbin"@ {
                assert(preferred_dirs()[0] == p@);
            }
            if p@ == "/opt/homebrew/bin"@ {
                assert(preferred_dirs()[1] == p@);
            }
            if p@ == "/usr/local/bin"@ {
                assert(preferred_dirs()[2] == p@);
            }
        }
        let ghost before = strings(dirs@);
        if p.len() > 0 && !preferred {
            push_string(&mut dirs, string_of(p));
        }
        assert(crate::text::views(parts@).subrange(0, k + 1).drop_last() =~= crate::text::views(parts@).subrange(
            0,
            k as int,
        ));
        assert(strings(dirs@) =~= preferred_dirs() + other_dirs(crate::text::views(parts@).subrange(0, k + 1)));
        k = k + 1;
    }
    assert(crate::text::views(parts@).subrange(0, k as int) =~= crate::text::views(parts@));
    let mut out = String::new();
    let mut q: usize = 0;
    while q < dirs.len()
        invariant
            q <= dirs.len(),
            out@ == joined_with(strings(dirs@).subrange(0, q as int), ':'),
        decreases dirs.len() - q,
    {
        if q > 0 {
            out.push(':');
        }
        push_str(&mut out, dirs[q].as_str());
        assert(strings(dirs@).subrange(0, q + 1).drop_last() =~= strings(dirs@).subrange(0, q as int));
        q = q + 1;
    }
    assert(strings(dirs@).subrange(0, q as int) =~= strings(dirs@));
    out
}

// ---------------------------------------------------------------------------
// Names.
// ---------------------------------------------------------------------------

/// The auxiliary files that a LaTeX run leaves beside `stem`.
pub open spec fn aux_file_names_of(stem: Seq<char>) -> Seq<Seq<char>> {
    seq![stem + ".aux"@, stem + ".toc"@, stem + ".out"@, stem + ".log"@]
}

pub fn aux_file_names(stem: &str) -> (r: Vec<String>)
    ensures
        strings(r@) == aux_file_names_of(stem@),
{
    let mut out: Vec<String> = Vec::new();
    let mut a = String::from_str(stem);
    push_str(&mut a, ".aux");
    push_string(&mut out, a);
    let mut b = String::from_str(stem);
    push_str(&mut b, ".toc");
    push_string(&mut out, b);
    let mut c = String::from_str(stem);
    push_str(&mut c, ".out");
    push_string(&mut out, c);
    let mut d = String::from_str(stem);
    push_str(&mut d, ".log");
    push_string(&mut out, d);
    assert(strings(out@) =~= aux_file_names_of(stem@));
    out
}

/// The doubled extensions that a save dialog can produce for a file type,
/// and how many characters the repeated extension takes.
pub open spec fn doubled_extension(lower: Seq<char>, file_type: Seq<char>) -> Option<int> {
    if file_type == "tex"@ && (ends_with(lower, ".tex.tex"@) || ends_with(lower, ".md.tex"@) || ends_with(
        lower,
        ".txt.tex"@,
    )) {
        Some(4)
    } else if file_type == "md"@ && (ends_with(lower, ".md.md"@) || ends_with(lower, ".tex.md"@) || ends_with(
        lower,
        ".txt.md"@,
    )) {
        Some(3)
    } else if file_type == "txt"@ && (ends_with(lower, ".txt.txt"@) || ends_with(lower, ".md.txt"@)
        || ends_with(lower, ".tex.txt"@)) {
        Some(4)
    } else {
        None
    }
}

/// The characters that the repeated extension takes are plain ASCII, so
/// that cutting them off cuts whole characters.
pub open spec fn save_name_cut_ok(name: Seq<char>, file_type: Seq<char>) -> bool {
    match doubled_extension(lowercase(name), file_type) {
        Some(k) => k <= name.len() && forall|j: int|
            name.len() - k <= j < name.len() ==> (#[trigger] name[j] as u32) < 128,
        None => true,
    }
}

/// The file name with a doubled extension removed, or `None` where the
/// name needs no change.
pub open spec fn fixed_save_name_of(name: Seq<char>, file_type: Seq<char>) -> Option<Seq<char>> {
    match doubled_extension(lowercase(name), file_type) {
        Some(k) => Some(name.subrange(0, name.len() - k)),
        None => None,
    }
}

fn ends_exec(t: &Vec<char>, p: &str) -> (r: bool)
    ensures
        r == ends_with(t@, p@),
{
    let pc = chars_of(p);
    if pc.len() > t.len() {
        return false;
    }
    has_at_exec(t, t.len() - pc.len(), &pc)
}

/// Removes an extension that a save dialog doubled (`notes.tex.tex` for a
/// LaTeX file); `None` where the name is fine as it is.
pub fn fixed_save_name(file_name: &str, file_type: &str) -> (r: Option<String>)
    requires
        save_name_cut_ok(file_name@, file_type@),
    ensures
        opt_text(r) == fixed_save_name_of(file_name@, file_type@),
{
    let name = chars_of(file_name);
    let lower = chars_of(to_lowercase(file_name).as_str());
    let ty = chars_of(file_type);
    let k: usize = if equals(&ty, "tex") && (ends_exec(&lower, ".tex.tex") || ends_exec(&lower, ".md.tex")
        || ends_exec(&lower, ".txt.tex")) {
        4
    } else if equals(&ty, "md") && (ends_exec(&lower, ".md.md") || ends_exec(&lower, ".tex.md") || ends_exec(
        &lower,
        ".txt.md",
    )) {
        3
    } else if equals(&ty, "txt") && (ends_exec(&lower, ".txt.txt") || ends_exec(&lower, ".md.txt")
        || ends_exec(&lower, ".tex.txt")) {
        4
    } else {
        0
    };
    if k == 0 {
        None
    } else {
        Some(string_of_range(&name, 0, name.len() - k))
    }
}

// ---------------------------------------------------------------------------
// Included files.
// ---------------------------------------------------------------------------

/// `\input{NAME}` or `\include{NAME}` at `i`: the bounds of NAME.
pub open spec fn include_at(s: Seq<char>, i: int) -> Option<(int, int)> {
    let open = if has_at(s, i, "\\input{"@) {
        "\\input{"@
    } else {
        "\\include{"@
    };
    if has_at(s, i, open) {
        let a = i + open.len();
        let e = run_until(s, a, '}');
        if e > a && e < s.len() {
            Some((a, e))
        } else {
            None
        }
    } else {
        None
    }
}

/// The file an include names: `.tex` is added where the name has no extension.
pub open spec fn included_file_name(name: Seq<char>) -> Seq<char> {
    if !ends_with(name, ".tex"@) && !name.contains('.') {
        name + ".tex"@
    } else {
        name
    }
}

/// A piece of a LaTeX source: text, or an include (the file it names and
/// the directive as written, kept where the file cannot be read).
pub enum SourcePiece {
    Text(String),
    Include { file: String, directive: String },
}

pub enum PieceView {
    Text(Seq<char>),
    Include(Seq<char>, Seq<char>),
}

pub open spec fn piece_view(p: SourcePiece) -> PieceView {
    match p {
        SourcePiece::Text(t) => PieceView::Text(t@),
        SourcePiece::Include { file, directive } => PieceView::Include(file@, directive@),
    }
}

pub open spec fn pieces_view(v: Seq<SourcePiece>) -> Seq<PieceView> {
    v.map_values(|p: SourcePiece| piece_view(p))
}

/// The pieces of `s` from `i` on, the pending text starting at `start`.
pub open spec fn pieces_from(s: Seq<char>, i: int, start: int) -> Seq<PieceView>
    decreases s.len() - i,
{
    if i < 0 || i >= s.len() {
        seq![PieceView::Text(s.subrange(start, s.len() as int))]
    } else {
        match include_at(s, i) {
            Some((a, e)) => if i < e + 1 <= s.len() {
                seq![
                    PieceView::Text(s.subrange(start, i)),
                    PieceView::Include(included_file_name(s.subrange(a, e)), s.subrange(i, e + 1)),
                ] + pieces_from(s, e + 1, e + 1)
            } else {
                pieces_from(s, i + 1, start)
            },
            None => pieces_from(s, i + 1, start),
        }
    }
}

fn has_char(t: &Vec<char>, c: char) -> (r: bool)
    ensures
        r == t@.contains(c),
{
    let mut k: usize = 0;
    while k < t.len()
        invariant
            k <= t.len(),
            forall|j: int| 0 <= j < k ==> t@[j] != c,
        decreases t.len() - k,
    {
        if t[k] == c {
            assert(t@[k as int] == c);
            return true;
        }
        k = k + 1;
    }
    false
}

fn included_file_name_exec(name: &Vec<char>) -> (r: String)
    ensures
        r@ == included_file_name(name@),
{
    let mut out = string_of(name);
    if !ends_exec(name, ".tex") && !has_char(name, '.') {
        push_str(&mut out, ".tex");
    }
    out
}

/// Splits a LaTeX source at its `\input` and `\include` directives, so
/// that the caller can put the included files in their place.
pub fn source_pieces(content: &str) -> (r: Vec<SourcePiece>)
    ensures
        pieces_view(r@) == pieces_from(content@, 0, 0),
{
    let s = chars_of(content);
    let input = chars_of("\\input{");
    let incl = chars_of("\\include{");
    let mut out: Vec<SourcePiece> = Vec::new();
    let mut i: usize = 0;
    let mut start: usize = 0;
    while i < s.len()
        invariant
            start <= i <= s.len(),
            input@ == "\\input{"@,
            incl@ == "\\include{"@,
            pieces_view(out@) + pieces_from(s@, i as int, start as int) == pieces_from(s@, 0, 0),
            s@ == content@,
        decreases s.len() - i,
    {
        let open = if has_at_exec(&s, i, &input) {
            &input
        } else {
            &incl
        };
        let mut hit = false;
        if has_at_exec(&s, i, open) {
            assert(i + open@.len() <= s.len());
            let a = i + open.len();
            proof {
                lemma_run_until(s@, a as int, '}');
            }
            let e = run_until_exec(&s, a, '}');
            if e > a && e < s.len() {
                let ghost before = pieces_view(out@);
                let t = SourcePiece::Text(string_of_range(&s, start, i));
                let inc = SourcePiece::Include {
                    file: included_file_name_exec(&copy_range(&s, a, e)),
                    directive: string_of_range(&s, i, e + 1),
                };
                let ghost tv = piece_view(t);
                let ghost iv = piece_view(inc);
                out.push(t);
                out.push(inc);
                assert(pieces_view(out@) =~= before + seq![tv, iv]);
                assert(pieces_view(out@) + pieces_from(s@, e + 1, e + 1) =~= before + (seq![tv, iv]
                    + pieces_from(s@, e + 1, e + 1)));
                i = e + 1;
                start = e + 1;
                hit = true;
            }
        }
        if !hit {
            i = i + 1;
        }
    }
    let ghost before = pieces_view(out@);
    let last = SourcePiece::Text(string_of_range(&s, start, s.len()));
    let ghost lv = piece_view(last);
    out.push(last);
    assert(pieces_view(out@) =~= before + seq![lv]);
    out
}

// ---------------------------------------------------------------------------
// Clipboard.
// ---------------------------------------------------------------------------

pub const CLIPBOARD_HEAD: &'static str = "use framework \"Foundation\"\nuse framework \"AppKit\"\nuse scripting additions\n\nset pb to current application's NSPasteboard's generalPasteboard()\npb's clearContents()\npb's setString:\"";

pub const CLIPBOARD_MIDDLE: &'static str = "\" forType:(current application's NSPasteboardTypeString)\npb's setString:\"";

pub const CLIPBOARD_TAIL: &'static str = "\" forType:(current application's NSPasteboardTypeHTML)\n";

/// A text escaped for an AppleScript string: backslashes doubled, then
/// double quotes escaped.
pub open spec fn applescript_escaped(s: Seq<char>) -> Seq<char>
    decreases s.len(),
{
    if s.len() == 0 {
        seq![]
    } else {
        applescript_escaped(s.drop_last()) + (if s.last() == '\\' {
            seq!['\\', '\\']
        } else if s.last() == '"' {
            seq!['\\', '"']
        } else {
            seq![s.last()]
        })
    }
}

/// The script that puts the plain text and the HTML on the clipboard.
pub open spec fn clipboard_script_of(plain: Seq<char>, html: Seq<char>) -> Seq<char> {
    CLIPBOARD_HEAD@ + applescript_escaped(plain) + CLIPBOARD_MIDDLE@ + applescript_escaped(html) + CLIPBOARD_TAIL@
}

fn push_escaped(out: &mut String, s: &str)
    ensures
        final(out)@ == old(out)@ + applescript_escaped(s@),
{
    let c = chars_of(s);
    let mut k: usize = 0;
    assert(c@.subrange(0, 0) =~= Seq::<char>::empty());
    while k < c.len()
        invariant
            k <= c.len(),
            c@ == s@,
            out@ == old(out)@ + applescript_escaped(c@.subrange(0, k as int)),
        decreases c.len() - k,
    {
        let ghost before = out@;
        if c[k] == '\\' {
            out.push('\\');
            out.push('\\');
        } else if c[k] == '"' {
            out.push('\\');
            out.push('"');
        } else {
            out.push(c[k]);
        }
        assert(c@.subrange(0, k + 1).drop_last() =~= c@.subrange(0, k as int));
        assert(out@ =~= old(out)@ + applescript_escaped(c@.subrange(0, k + 1)));
        k = k + 1;
    }
    assert(c@.subrange(0, k as int) =~= c@);
}

pub fn clipboard_script(plain: &str, html: &str) -> (r: String)
    ensures
        r@ == clipboard_script_of(plain@, html@),
{
    let mut out = String::from_str(CLIPBOARD_HEAD);
    push_escaped(&mut out, plain);
    push_str(&mut out, CLIPBOARD_MIDDLE);
    push_escaped(&mut out, html);
    push_str(&mut out, CLIPBOARD_TAIL);
    out
}

/// Whether cutting the doubled extension off `file_name` would cut a
/// character in two (the extension is then not plain ASCII).
pub fn save_name_cut_fails(file_name: &str, file_type: &str) -> (r: bool)
    ensures
        r == !save_name_cut_ok(file_name@, file_type@),
{
    let name = chars_of(file_name);
    let lower = chars_of(to_lowercase(file_name).as_str());
    let ty = chars_of(file_type);
    let k: usize = if equals(&ty, "tex") && (ends_exec(&lower, ".tex.tex") || ends_exec(&lower, ".md.tex")
        || ends_exec(&lower, ".txt.tex")) {
        4
    } else if equals(&ty, "md") && (ends_exec(&lower, ".md.md") || ends_exec(&lower, ".tex.md") || ends_exec(
        &lower,
        ".txt.md",
    )) {
        3
    } else if equals(&ty, "txt") && (ends_exec(&lower, ".txt.txt") || ends_exec(&lower, ".md.txt")
        || ends_exec(&lower, ".tex.txt")) {
        4
    } else {
        0
    };
    if k == 0 {
        return false;
    }
    if k > name.len() {
        return true;
    }
    assert(doubled_extension(lowercase(file_name@), file_type@) == Some(k as int));
    let mut j = name.len() - k;
    while j < name.len()
        invariant
            0 < k <= name.len(),
            name@ == file_name@,
            doubled_extension(lowercase(file_name@), file_type@) == Some(k as int),
            name.len() - k <= j <= name.len(),
            forall|q: int| name.len() - k <= q < j ==> (#[trigger] name@[q] as u32) < 128,
        decreases name.len() - j,
    {
        if (name[j] as u32) >= 128 {
            assert((name@[j as int] as u32) >= 128);
            return true;
        }
        j = j + 1;
    }
    false
}

/// The save name with a doubled extension removed: `None` where cutting it
/// would cut a character in two (the caller cannot go on), otherwise what
/// `fixed_save_name` gives (`Some(None)` where the name needs no change).
pub fn checked_save_name(file_name: &str, file_type: &str) -> (r: Option<Option<String>>)
    ensures
        r is None <==> !save_name_cut_ok(file_name@, file_type@),
        r matches Some(fixed) ==> opt_text(fixed) == fixed_save_name_of(file_name@, file_type@),
{
    if save_name_cut_fails(file_name, file_type) {
        None
    } else {
        Some(fixed_save_name(file_name, file_type))
    }
}

/// Whether a path names a LaTeX source (ends with `.tex`, in any case).
pub open spec fn is_latex_path_of(path: Seq<char>) -> bool {
    ends_with(lowercase(path), ".tex"@)
}

pub fn is_latex_path(path: &str) -> (r: bool)
    ensures
        r == is_latex_path_of(path@),
{
    ends_exec(&chars_of(to_lowercase(path).as_str()), ".tex")
}

// ---------------------------------------------------------------------------
// Laws.
// ---------------------------------------------------------------------------

/// The directories kept from the current search path are none of the
/// preferred ones and none is empty, so each preferred directory appears
/// once, in front.
pub proof fn law_search_path_keeps_no_preferred_or_empty_dir(ds: Seq<Seq<char>>)
    ensures
        forall|k: int|
            0 <= k < other_dirs(ds).len() ==> (#[trigger] other_dirs(ds)[k]).len() > 0
                && !preferred_dirs().contains(other_dirs(ds)[k]),
    decreases ds.len(),
{
    if ds.len() > 0 {
        law_search_path_keeps_no_preferred_or_empty_dir(ds.drop_last());
        let prev = other_dirs(ds.drop_last());
        let r = other_dirs(ds);
        assert forall|k: int| 0 <= k < r.len() implies (#[trigger] r[k]).len() > 0 && !preferred_dirs().contains(
            r[k],
        ) by {
            if k < prev.len() {
                assert(r[k] == prev[k]);
            }
        }
    }
}

/// Marks `path` as flattened before its text is put in place: `true`, with
/// the path added to `visited`, the first time; `false`, with `visited`
/// unchanged, for a file already being flattened, whose inclusion then
/// gives nothing (so that files including each other end).
pub fn enter_file(visited: &mut Vec<String>, path: &str) -> (r: bool)
    ensures
        r == !strings(old(visited)@).contains(path@),
        r ==> strings(final(visited)@) == strings(old(visited)@).push(path@),
        !r ==> final(visited)@ == old(visited)@,
{
    if holds_text(visited, &chars_of(path)) {
        false
    } else {
        push_text(visited, path);
        true
    }
}

} // verus!
