//! `\label{...}` recognition and the label table.
use vstd::prelude::*;
use crate::text::{
    copy_range, find_from, has_at, has_at_exec, lemma_find_from, trim, trim_range, word_ends_at,
    word_ends_at_exec,
};
use crate::numbering::find_char;

verus! {

pub open spec fn label_open() -> Seq<char> {
    "\\label{"@
}

/// A `\label{...}` with a non-empty key starts at `i` (`\\label\{([^}]+)\}`):
/// the index of its closing brace.
pub open spec fn label_at(b: Seq<char>, i: int) -> Option<int> {
    if has_at(b, i, label_open()) {
        match find_from(b, seq!['}'], i + label_open().len()) {
            Some(c) => if c > i + label_open().len() {
                Some(c)
            } else {
                None
            },
            None => None,
        }
    } else {
        None
    }
}

/// `b` from index `i` with every `\label{...}` removed, matches taken left
/// to right without overlap (as `replace_all` does).
pub open spec fn strip_labels(b: Seq<char>, i: int) -> Seq<char>
    decreases b.len() - i,
{
    if i < 0 || i >= b.len() {
        seq![]
    } else {
        match label_at(b, i) {
            Some(c) => if i <= c < b.len() {
                strip_labels(b, c + 1)
            } else {
                seq![]
            },
            None => seq![b[i]] + strip_labels(b, i + 1),
        }
    }
}

/// The trimmed keys of the `\label{...}` in `b` from index `i`, in order.
pub open spec fn label_keys(b: Seq<char>, i: int) -> Seq<Seq<char>>
    decreases b.len() - i,
{
    if i < 0 || i >= b.len() {
        seq![]
    } else {
        match label_at(b, i) {
            Some(c) => if i <= c < b.len() {
                seq![trim(b.subrange(i + label_open().len(), c))] + label_keys(b, c + 1)
            } else {
                seq![]
            },
            None => label_keys(b, i + 1),
        }
    }
}

pub proof fn lemma_label_at(b: Seq<char>, i: int)
    ensures
        label_at(b, i) matches Some(c) ==> 0 <= i && i + label_open().len() < c < b.len() && b[c]
            == '}',
{
    if has_at(b, i, label_open()) {
        lemma_find_from(b, seq!['}'], i + label_open().len());
        match find_from(b, seq!['}'], i + label_open().len()) {
            Some(c) => {
                assert(b.subrange(c, c + 1)[0] == b[c]);
            },
            None => {},
        }
    }
}

pub fn label_at_exec(b: &Vec<char>, i: usize, open: &Vec<char>) -> (r: Option<usize>)
    requires
        open@ == label_open(),
    ensures
        r matches Some(c) ==> label_at(b@, i as int) == Some(c as int),
        r is None ==> label_at(b@, i as int) is None,
{
    let bl = b.len();
    if !has_at_exec(b, i, open) {
        return None;
    }
    assert(i + open@.len() <= bl);
    match find_char(b, '}', i + open.len()) {
        Some(c) => if c > i + open.len() {
            Some(c)
        } else {
            None
        },
        None => None,
    }
}

/// `b` without its labels, and the trimmed label keys, in order.
pub fn strip_and_collect(b: &Vec<char>) -> (r: (Vec<char>, Vec<Vec<char>>))
    ensures
        r.0@ == strip_labels(b@, 0),
        r.1@.map_values(|x: Vec<char>| x@) == label_keys(b@, 0),
{
    let open = crate::text::chars_of("\\label{");
    let mut out: Vec<char> = Vec::new();
    let mut keys: Vec<Vec<char>> = Vec::new();
    let mut i: usize = 0;
    while i < b.len()
        invariant
            i <= b.len(),
            open@ == label_open(),
            out@ + strip_labels(b@, i as int) == strip_labels(b@, 0),
            keys@.map_values(|x: Vec<char>| x@) + label_keys(b@, i as int) == label_keys(b@, 0),
        decreases b.len() - i,
    {
        proof {
            lemma_label_at(b@, i as int);
        }
        match label_at_exec(b, i, &open) {
            Some(c) => {
                let (ks, ke) = trim_range(b, i + open.len(), c);
                let key = copy_range(b, ks, ke);
                let ghost old_keys = keys@.map_values(|x: Vec<char>| x@);
                keys.push(key);
                assert(keys@.map_values(|x: Vec<char>| x@) =~= old_keys.push(key@));
                assert(old_keys.push(key@) + label_keys(b@, c + 1) =~= old_keys + label_keys(
                    b@,
                    i as int,
                ));
                i = c + 1;
            },
            None => {
                let ghost old_out = out@;
                out.push(b[i]);
                assert(out@ + strip_labels(b@, i + 1) =~= old_out + strip_labels(b@, i as int));
                i = i + 1;
            },
        }
    }
    (out, keys)
}

// ---------------------------------------------------------------------------
// `\notag`, `\nonumber`.
// ---------------------------------------------------------------------------

/// `\notag` or `\nonumber` as a whole command at `i` (`\\(?:notag|nonumber)\b`).
pub open spec fn notag_at(b: Seq<char>, i: int) -> bool {
    ||| (has_at(b, i, "\\notag"@) && word_ends_at(b, i + 6))
    ||| (has_at(b, i, "\\nonumber"@) && word_ends_at(b, i + 9))
}

pub open spec fn has_notag(b: Seq<char>) -> bool {
    exists|i: int| notag_at(b, i)
}

pub fn has_notag_exec(b: &Vec<char>) -> (r: bool)
    ensures
        r == has_notag(b@),
{
    let notag = crate::text::chars_of("\\notag");
    let nonumber = crate::text::chars_of("\\nonumber");
    proof {
        reveal_strlit("\\notag");
        reveal_strlit("\\nonumber");
    }
    let bl = b.len();
    let mut i: usize = 0;
    while i < bl
        invariant
            i <= bl,
            bl == b@.len(),
            notag@ == "\\notag"@,
            nonumber@ == "\\nonumber"@,
            notag@.len() == 6,
            nonumber@.len() == 9,
            forall|j: int| 0 <= j < i ==> !notag_at(b@, j),
        decreases bl - i,
    {
        if has_at_exec(b, i, &notag) && word_ends_at_exec(b, i + 6) {
            assert(notag_at(b@, i as int));
            return true;
        }
        if has_at_exec(b, i, &nonumber) && word_ends_at_exec(b, i + 9) {
            assert(notag_at(b@, i as int));
            return true;
        }
        i = i + 1;
    }
    assert forall|j: int| !notag_at(b@, j) by {
        if j >= bl as int {
            assert(!has_at(b@, j, "\\notag"@));
            assert(!has_at(b@, j, "\\nonumber"@));
        }
    }
    false
}

// ---------------------------------------------------------------------------
// The label table.
// ---------------------------------------------------------------------------

/// A table from label keys to printed numbers; a later entry for a key
/// replaces an earlier one.
pub struct LabelMap {
    pub entries: Vec<(Vec<char>, Vec<char>)>,
}

pub open spec fn assoc_map(s: Seq<(Vec<char>, Vec<char>)>) -> Map<Seq<char>, Seq<char>>
    decreases s.len(),
{
    if s.len() == 0 {
        Map::empty()
    } else {
        assoc_map(s.drop_last()).insert(s.last().0@, s.last().1@)
    }
}

impl View for LabelMap {
    type V = Map<Seq<char>, Seq<char>>;

    open spec fn view(&self) -> Map<Seq<char>, Seq<char>> {
        assoc_map(self.entries@)
    }
}

/// Inserting every key in order, each with the same number.
pub open spec fn insert_all(m: Map<Seq<char>, Seq<char>>, keys: Seq<Seq<char>>, num: Seq<char>) -> Map<
    Seq<char>,
    Seq<char>,
>
    decreases keys.len(),
{
    if keys.len() == 0 {
        m
    } else {
        insert_all(m, keys.drop_last(), num).insert(keys.last(), num)
    }
}

proof fn lemma_assoc_lookup(s: Seq<(Vec<char>, Vec<char>)>, key: Seq<char>, k: int)
    requires
        0 <= k < s.len(),
        s[k].0@ == key,
        forall|j: int| k < j < s.len() ==> s[j].0@ != key,
    ensures
        assoc_map(s).contains_key(key),
        assoc_map(s)[key] == s[k].1@,
    decreases s.len(),
{
    if k < s.len() - 1 {
        lemma_assoc_lookup(s.drop_last(), key, k);
    }
}

proof fn lemma_assoc_absent(s: Seq<(Vec<char>, Vec<char>)>, key: Seq<char>)
    requires
        forall|j: int| 0 <= j < s.len() ==> s[j].0@ != key,
    ensures
        !assoc_map(s).contains_key(key),
    decreases s.len(),
{
    if s.len() > 0 {
        lemma_assoc_absent(s.drop_last(), key);
    }
}

fn same_chars(a: &Vec<char>, b: &Vec<char>) -> (r: bool)
    ensures
        r == (a@ == b@),
{
    if a.len() != b.len() {
        return false;
    }
    let r = has_at_exec(a, 0, b);
    proof {
        if r {
            assert(a@.subrange(0, b@.len() as int) =~= a@);
        } else {
            assert(a@.subrange(0, b@.len() as int) =~= a@);
        }
    }
    r
}

impl LabelMap {
    pub fn new() -> (r: LabelMap)
        ensures
            r@ == Map::<Seq<char>, Seq<char>>::empty(),
    {
        LabelMap { entries: Vec::new() }
    }

    pub fn insert(&mut self, key: Vec<char>, num: Vec<char>)
        ensures
            final(self)@ == old(self)@.insert(key@, num@),
    {
        let ghost old_entries = self.entries@;
        self.entries.push((key, num));
        assert(self.entries@.drop_last() =~= old_entries);
    }

    pub fn get(&self, key: &Vec<char>) -> (r: Option<&Vec<char>>)
        ensures
            r matches Some(v) ==> self@.contains_key(key@) && self@[key@] == v@,
            r is None ==> !self@.contains_key(key@),
    {
        let mut k = self.entries.len();
        while k > 0
            invariant
                k <= self.entries@.len(),
                forall|j: int| k <= j < self.entries@.len() ==> self.entries@[j].0@ != key@,
            decreases k,
        {
            k = k - 1;
            if same_chars(&self.entries[k].0, key) {
                proof {
                    lemma_assoc_lookup(self.entries@, key@, k as int);
                }
                return Some(&self.entries[k].1);
            }
        }
        proof {
            lemma_assoc_absent(self.entries@, key@);
        }
        None
    }

    pub fn contains(&self, key: &Vec<char>) -> (r: bool)
        ensures
            r == self@.contains_key(key@),
    {
        self.get(key).is_some()
    }
}

/// Inserts each key, in order, with the number `num`.
pub fn insert_keys(m: &mut LabelMap, keys: &Vec<Vec<char>>, num: &Vec<char>)
    ensures
        final(m)@ == insert_all(old(m)@, keys@.map_values(|x: Vec<char>| x@), num@),
{
    let ghost ks = keys@.map_values(|x: Vec<char>| x@);
    let mut k: usize = 0;
    while k < keys.len()
        invariant
            k <= keys.len(),
            ks == keys@.map_values(|x: Vec<char>| x@),
            m@ == insert_all(old(m)@, ks.subrange(0, k as int), num@),
        decreases keys.len() - k,
    {
        m.insert(copy_range(&keys[k], 0, keys[k].len()), copy_range(num, 0, num.len()));
        proof {
            assert(keys[k as int]@.subrange(0, keys[k as int]@.len() as int) =~= keys[k as int]@);
            assert(num@.subrange(0, num@.len() as int) =~= num@);
            assert(ks.subrange(0, k + 1).drop_last() =~= ks.subrange(0, k as int));
        }
        k = k + 1;
    }
    assert(ks.subrange(0, k as int) =~= ks);
}

/// After `insert_all`, every inserted key gives the number, and every other
/// key gives what it gave before.
pub proof fn lemma_insert_all(m: Map<Seq<char>, Seq<char>>, keys: Seq<Seq<char>>, num: Seq<char>)
    ensures
        forall|j: int| 0 <= j < keys.len() ==> #[trigger] insert_all(m, keys, num).contains_key(keys[j])
            && insert_all(m, keys, num)[keys[j]] == num,
        forall|k: Seq<char>| !keys.contains(k) ==> (#[trigger] insert_all(m, keys, num).contains_key(k)
            == m.contains_key(k)) && (m.contains_key(k) ==> insert_all(m, keys, num)[k] == m[k]),
    decreases keys.len(),
{
    if keys.len() > 0 {
        let t = keys.drop_last();
        lemma_insert_all(m, t, num);
        assert forall|j: int| 0 <= j < keys.len() implies #[trigger] insert_all(m, keys, num).contains_key(keys[j])
            && insert_all(m, keys, num)[keys[j]] == num by {
            if j < t.len() {
                assert(keys[j] == t[j]);
                assert(insert_all(m, t, num).contains_key(t[j]));
            }
        }
        assert forall|k: Seq<char>| !keys.contains(k) implies (#[trigger] insert_all(m, keys, num).contains_key(k)
            == m.contains_key(k)) && (m.contains_key(k) ==> insert_all(m, keys, num)[k] == m[k]) by {
            assert(k != keys[keys.len() - 1]);
            assert(!t.contains(k)) by {
                if t.contains(k) {
                    let j = choose|j: int| 0 <= j < t.len() && t[j] == k;
                    assert(keys[j] == k);
                }
            }
            assert(insert_all(m, t, num).contains_key(k) == m.contains_key(k));
        }
    }
}

} // verus!
