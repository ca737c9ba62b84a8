//! Spell checking around an outside checker (cspell): the word lists, the
//! configuration handed to the checker, the reading of its reports and of
//! its suggestions.
use vstd::prelude::*;
use crate::diagnostics::{context_line, context_of};
use crate::logparse::{
    digit_run_end, digit_run_end_exec, lemma_digit_run_end, number_or_zero, number_or_zero_exec,
};
use crate::text::{
    ascii_lower, chars_of, copy_range, has_at, has_at_exec, is_ascii_text, lines, lowercase,
    split_lines, starts_with, string_of, string_of_range, to_lowercase, trim, trim_range, views,
};

verus! {

/// American spellings that are refused, one `american: british` pair (or a
/// bare word) per line.
pub const FORBIDDEN_WORDS: &'static str = "color: colour\n\
colors: colours\n\
coloring: colouring\n\
colored: coloured\n\
colorful: colourful\n\
center: centre\n\
centers: centres\n\
centering: centring\n\
centered: centred\n\
realize: realise\n\
realizes: realises\n\
realizing: realising\n\
realized: realised\n\
realization: realisation\n\
realizations: realisations\n\
organize: organise\n\
organizes: organises\n\
organizing: organising\n\
organized: organised\n\
organization: organisation\n\
organizations: organisations\n\
analyze: analyse\n\
analyzes: analyses\n\
analyzing: analysing\n\
analyzed: analysed\n\
behavior: behaviour\n\
behaviors: behaviours\n\
behavioral: behavioural\n\
flavor: flavour\n\
flavors: flavours\n\
flavoring: flavouring\n\
flavored: flavoured\n\
labor: labour\n\
labors: labours\n\
laboring: labouring\n\
labored: laboured\n\
neighbor: neighbour\n\
neighbors: neighbours\n\
neighborhood: neighbourhood\n\
favor: favour\n\
favors: favours\n\
favoring: favouring\n\
favored: favoured\n\
favorite: favourite\n\
favorites: favourites\n\
paralyze: paralyse\n\
paralyzes: paralyses\n\
paralyzing: paralysing\n\
paralyzed: paralysed\n\
defense: defence\n\
offense: offence\n\
license: licence\n\
traveler: traveller\n\
travelers: travellers\n\
traveling: travelling\n\
traveled: travelled\n\
theater: theatre\n\
theaters: theatres\n\
localize: localise\n\
localizes: localises\n\
localizing: localising\n\
localized: localised\n\
localization: privatisation\n\
localizations: localisations\n\
specialize: specialise\n\
specializes: specialises\n\
specializing: specialising\n\
specialized: specialised\n\
specialization: specialisation\n\
specializations: specialisations\n\
generalize: generalise\n\
generalizes: generalises\n\
generalizing: generalising\n\
generalized: generalised\n\
generalization: generalisation\n\
generalizations: generalisations\n\
quantize: quantise\n\
quantizes: quantises\n\
quantizing: quantising\n\
quantized: quantised\n\
quantization: privatisation\n\
quantizations: quantisations\n\
systematize: systematise\n\
systematizes: systematises\n\
systematizing: systematising\n\
systematized: systematised\n\
systematization: systematisation\n\
systematizations: systematisations\n\
maximize: maximise\n\
maximizes: maximises\n\
maximizing: maximising\n\
maximized: maximised\n\
maximization: maximisation\n\
maximizations: maximisations\n\
minimize: minimise\n\
minimizes: minimises\n\
minimizing: minimising\n\
minimized: minimised\n\
minimization: minimisation\n\
minimizations: minimisations\n\
synthesize: synthesise\n\
synthesizes: synthesises\n\
synthesizing: synthesising\n\
synthesized: synthesised\n\
synthesization: synthesisation\n\
synthesizations: synthesisations\n\
stabilize: stabilise\n\
stabilizes: stabilises\n\
stabilizing: stabilising\n\
stabilized: stabilised\n\
stabilization: stabilisation\n\
stabilizations: stabilisations\n\
diagonalize: diagonalise\n\
diagonalizes: diagonalises\n\
diagonalizing: diagonalising\n\
diagonalized: diagonalised\n\
diagonalization: diagonalisation\n\
diagonalizations: diagonalisations\n\
polarize: polarise\n\
polarizes: polarises\n\
polarizing: polarising\n\
polarized: polarised\n\
polarization: polarisation\n\
polarizations: polarisations\n\
initialize: initialise\n\
initializes: initialises\n\
initializing: initialising\n\
initialized: initialised\n\
initialization: personalisation\n\
initializations: initialisations\n\
optimize: optimise\n\
optimizes: optimises\n\
optimizing: optimising\n\
optimized: optimised\n\
optimization: privatisation\n\
optimizations: optimisations\n\
normalize: normalise\n\
normalizes: normalises\n\
normalizing: normalising\n\
normalized: normalised\n\
normalization: normalisation\n\
normalizations: normalisations\n\
utilize: utilise\n\
utilizes: utilises\n\
utilizing: utilising\n\
utilized: utilised\n\
utilization: privatisation\n\
utilizations: utilisations\n\
characterize: characterise\n\
characterizes: characterises\n\
characterizing: characterising\n\
characterized: characterised\n\
characterization: characterisation\n\
characterizations: characterisations\n\
conceptualize: conceptualise\n\
conceptualizes: conceptualises\n\
conceptualizing: conceptualising\n\
conceptualized: conceptualised\n\
conceptualization: privatisation\n\
conceptualizations: conceptualisations\n\
harmonize: harmonise\n\
harmonizes: harmonises\n\
harmonizing: harmonising\n\
harmonized: harmonised\n\
harmonization: harmonisation\n\
harmonizations: harmonizations\n\
standardize: standardise\n\
standardizes: standardises\n\
standardizing: standardising\n\
standardized: standardised\n\
standardization: standardisation\n\
standardizations: standardizations\n\
visualize: visualise\n\
visualizes: visualises\n\
visualizing: visualising\n\
visualized: visualised\n\
visualization: privatisation\n\
visualizations: visualisations\n\
labeling: labelling\n\
labelings: labellings\n\
labeled: labelled\n\
labeler: labeller\n\
summarize: summarise\n\
summarizes: summarises\n\
summarizing: summarising\n\
summarized: summarised\n\
summarization: summarisation\n\
summarizations: summarisations\n\
categorize: categorise\n\
categorizes: categorises\n\
categorizing: categorising\n\
categorized: categorised\n\
categorization: categorisation\n\
categorizations: categorisations\n\
emphasize: emphasise\n\
emphasizes: emphasises\n\
emphasizing: emphasising\n\
emphasized: emphasised\n\
emphasization: emphasisation\n\
emphasizations: emphasisations\n\
prioritize: prioritise\n\
prioritizes: prioritises\n\
prioritizing: prioritising\n\
prioritized: prioritised\n\
prioritization: prioritisation\n\
prioritizations: prioritisation";

/// American spellings flagged when British `-ise` spelling is enforced, in
/// the `flagWords` form that the checker reads.
pub const BRITISH_FLAG_WORDS: &'static str = "color: colour\n\
colors: colours\n\
coloring: colouring\n\
colored: coloured\n\
colorful: colourful\n\
center: centre\n\
centers: centres\n\
centering: centring\n\
centered: centred\n\
realize: realise\n\
realizes: realises\n\
realizing: realising\n\
realized: realised\n\
realization: realisation\n\
realizations: realisations\n\
organize: organise\n\
organizes: organises\n\
organizing: organising\n\
organized: organised\n\
organization: organisation\n\
organizations: organisations\n\
analyze: analyse\n\
analyzes: analyses\n\
analyzing: analysing\n\
analyzed: analysed\n\
behavior: behaviour\n\
behaviors: behaviours\n\
behavioral: behavioural\n\
flavor: flavour\n\
flavors: flavours\n\
flavoring: flavouring\n\
flavored: flavoured\n\
labor: labour\n\
labors: labours\n\
laboring: labouring\n\
labored: laboured\n\
neighbor: neighbour\n\
neighbors: neighbours\n\
neighborhood: neighbourhood\n\
favor: favour\n\
favors: favours\n\
favoring: favouring\n\
favored: favoured\n\
favorite: favourite\n\
favorites: favourites\n\
paralyze: paralyse\n\
paralyzes: paralyses\n\
paralyzing: paralysing\n\
paralyzed: paralysed\n\
defense: defence\n\
offense: offence\n\
license: licence\n\
traveler: traveller\n\
travelers: travellers\n\
traveling: travelling\n\
traveled: travelled\n\
theater: theatre\n\
theaters: theatres\n\
minimize: minimise\n\
minimizes: minimises\n\
minimizing: minimising\n\
minimized: minimised\n\
minimization: minimisation\n\
minimizations: minimisations\n\
synthesize: synthesise\n\
synthesizes: synthesises\n\
synthesizing: synthesising\n\
synthesized: synthesised\n\
synthesization: synthesisation\n\
synthesizations: synthesisations\n\
stabilize: stabilise\n\
stabilizes: stabilises\n\
stabilizing: stabilising\n\
stabilized: stabilised\n\
stabilization: stabilisation\n\
stabilizations: stabilisations\n\
diagonalize: diagonalise\n\
diagonalizes: diagonalises\n\
diagonalizing: diagonalising\n\
diagonalized: diagonalised\n\
diagonalization: diagonalization\n\
diagonalizations: diagonalizations\n\
polarize: polarise\n\
polarizes: polarises\n\
polarizing: polarising\n\
polarized: polarised\n\
polarization: polarisation\n\
polarizations: polarisations\n\
initialize: initialise\n\
initializes: initialises\n\
initializing: initialising\n\
initialized: initialised\n\
initialization: initialisation\n\
initializations: initialisations\n\
optimize: optimise\n\
optimizes: optimises\n\
optimizing: optimising\n\
optimized: optimised\n\
optimization: optimisation\n\
optimizations: optimisations\n\
normalize: normalise\n\
normalizes: normalises\n\
normalizing: normalising\n\
normalized: normalised\n\
normalization: normalisation\n\
normalizations: normalisations\n\
utilize: utilise\n\
utilizes: utilises\n\
utilizing: utilising\n\
utilized: utilised\n\
utilization: utilisation\n\
utilizations: utilisations\n\
characterize: characterise\n\
characterizes: characterises\n\
characterizing: characterising\n\
characterized: characterised\n\
characterization: characterisation\n\
characterizations: characterisations\n\
conceptualize: conceptualise\n\
conceptualizes: conceptualises\n\
conceptualizing: conceptualising\n\
conceptualized: conceptualised\n\
conceptualization: conceptualisation\n\
conceptualizations: conceptualisations\n\
harmonize: harmonise\n\
harmonizes: harmonises\n\
harmonizing: harmonising\n\
harmonized: harmonised\n\
harmonization: harmonisation\n\
harmonizations: harmonizations\n\
standardize: standardise\n\
standardizes: standardises\n\
standardizing: standardising\n\
standardized: standardised\n\
standardization: standardisation\n\
standardizations: standardizations\n\
visualize: visualise\n\
visualizes: visualises\n\
visualizing: visualising\n\
visualized: visualised\n\
visualization: visualisation\n\
visualizations: visualisations\n\
labeling: labelling\n\
labelings: labellings\n\
labeled: labelled\n\
labeler: labeller\n\
summarize: summarise\n\
summarizes: summarises\n\
summarizing: summarising\n\
summarized: summarised\n\
summarization: summarisation\n\
summarizations: summarisations\n\
categorize: categorise\n\
categorizes: categorises\n\
categorizing: categorising\n\
categorized: categorised\n\
categorization: categorisation\n\
categorizations: categorisations\n\
emphasize: emphasise\n\
emphasizes: emphasises\n\
emphasizing: emphasising\n\
emphasized: emphasised\n\
emphasization: emphasisation\n\
emphasizations: emphasisations\n\
prioritize: prioritise\n\
prioritizes: prioritises\n\
prioritizing: prioritising\n\
prioritized: prioritised\n\
prioritization: prioritisation\n\
prioritizations: prioritisation";

/// Patterns whose matches the checker skips: LaTeX commands, citations,
/// labels and mathematics, one regular expression per line.
pub const SPELL_IGNORE_PATTERNS: &'static str = "\\\\cite[a-zA-Z]*\\{[^}]*\\}\n\
\\\\(eq|page)?ref\\{[^}]*\\}\n\
\\\\label\\{[^}]*\\}\n\
\\\\bibitem\\{[^}]*\\}\n\
\\\\(begin|end)\\{[^}]*\\}\n\
\\\\includegraphics(\\[[^\\]]*\\])?\\{[^}]*\\}\n\
\\\\(usepackage|documentclass)\\{[^}]*\\}\n\
\\\\bibliograph(y|ystyle)\\{[^}]*\\}\n\
\\$\\$[\\s\\S]*?\\$\\$\n\
\\$[\\s\\S]*?\\$\n\
\\\\\\[[\\s\\S]*?\\\\\\]\n\
\\\\\\([\\s\\S]*?\\\\\\)\n\
\\\\begin\\{(equation|align|gather|multline|matrix|pmatrix|bmatrix|vmatrix|Vmatrix|tikzpicture|picture)\\*?\\}([\\s\\S]*?)\\\\end\\{(?:equation|align|gather|multline|matrix|pmatrix|bmatrix|vmatrix|Vmatrix|tikzpicture|picture)\\*?\\}\n\
\\\\[a-zA-Z]+";

/// The language assumed where none is given.
pub const DEFAULT_LANGUAGE: &'static str = "en-GB";

/// A list entry flags `w` when it is `w` itself or begins with `w:`.
pub open spec fn flags_word(entry: Seq<char>, w: Seq<char>) -> bool {
    starts_with(entry, w.push(':')) || entry == w
}

/// Some entry of the forbidden list flags the (lowercased) word.
pub open spec fn forbidden_word(w: Seq<char>) -> bool {
    exists|k: int|
        0 <= k < lines(FORBIDDEN_WORDS@).len() && #[trigger] flags_word(
            lines(FORBIDDEN_WORDS@)[k],
            w,
        )
}

pub(crate) fn same_chars(a: &Vec<char>, b: &Vec<char>) -> (r: bool)
    ensures
        r == (a@ == b@),
{
    if a.len() != b.len() {
        return false;
    }
    let mut k: usize = 0;
    while k < a.len()
        invariant
            a.len() == b.len(),
            k <= a.len(),
            forall|j: int| 0 <= j < k ==> a@[j] == b@[j],
        decreases a.len() - k,
    {
        if a[k] != b[k] {
            return false;
        }
        k = k + 1;
    }
    assert(a@ =~= b@);
    true
}

/// Whether `word`, lowercased, is an American spelling that the forbidden
/// list refuses; on an ASCII word the case of its letters does not matter.
pub fn is_forbidden(word: &str) -> (r: bool)
    ensures
        r == forbidden_word(lowercase(word@)),
        is_ascii_text(word@) ==> r == forbidden_word(ascii_lower(word@)),
{
    let lower = chars_of(to_lowercase(word).as_str());
    let mut prefix = chars_of(to_lowercase(word).as_str());
    prefix.push(':');
    let entries = split_lines(&chars_of(FORBIDDEN_WORDS));
    let mut k: usize = 0;
    while k < entries.len()
        invariant
            k <= entries.len(),
            views(entries@) == lines(FORBIDDEN_WORDS@),
            lower@ == lowercase(word@),
            is_ascii_text(word@) ==> lowercase(word@) == ascii_lower(word@),
            prefix@ == lower@.push(':'),
            forall|j: int| 0 <= j < k ==> !flags_word(#[trigger] views(entries@)[j], lower@),
        decreases entries.len() - k,
    {
        if has_at_exec(&entries[k], 0, &prefix) || same_chars(&entries[k], &lower) {
            assert(flags_word(views(entries@)[k as int], lower@));
            return true;
        }
        k = k + 1;
    }
    false
}

/// The texts of a list of strings.
pub open spec fn strings(v: Seq<String>) -> Seq<Seq<char>> {
    v.map_values(|s: String| s@)
}

pub(crate) fn push_text(v: &mut Vec<String>, s: &str)
    ensures
        strings(final(v)@) == strings(old(v)@).push(s@),
{
    let ghost before = v@;
    v.push(String::from_str(s));
    assert(strings(v@) =~= strings(before).push(s@));
}

pub(crate) fn push_string(v: &mut Vec<String>, s: String)
    ensures
        strings(final(v)@) == strings(old(v)@).push(s@),
{
    let ghost before = v@;
    let ghost t = s@;
    v.push(s);
    assert(strings(v@) =~= strings(before).push(t));
}

/// Each line of `t` as a string.
fn lines_as_strings(t: &str) -> (r: Vec<String>)
    ensures
        strings(r@) == lines(t@),
{
    let ls = split_lines(&chars_of(t));
    let mut out: Vec<String> = Vec::new();
    let mut k: usize = 0;
    while k < ls.len()
        invariant
            k <= ls.len(),
            views(ls@) == lines(t@),
            strings(out@) == views(ls@).subrange(0, k as int),
        decreases ls.len() - k,
    {
        push_string(&mut out, string_of(&ls[k]));
        assert(views(ls@).subrange(0, k + 1) =~= views(ls@).subrange(0, k as int).push(
            views(ls@)[k as int],
        ));
        k = k + 1;
    }
    assert(views(ls@).subrange(0, k as int) =~= views(ls@));
    out
}

// ---------------------------------------------------------------------------
// Dictionaries.
// ---------------------------------------------------------------------------

/// The dictionary package of the checker for a lowercased language tag.
pub open spec fn dictionary_package(lower: Seq<char>) -> Option<Seq<char>> {
    if starts_with(lower, "fr"@) {
        Some("dict-fr-fr"@)
    } else if starts_with(lower, "de"@) {
        Some("dict-de-de"@)
    } else if starts_with(lower, "es"@) {
        Some("dict-es-es"@)
    } else if starts_with(lower, "it"@) {
        Some("dict-it-it"@)
    } else if starts_with(lower, "pt"@) {
        Some("dict-pt-br"@)
    } else if starts_with(lower, "nl"@) {
        Some("dict-nl-nl"@)
    } else if lower == "en-gb"@ || lower == "en_gb"@ {
        Some("dict-en-gb"@)
    } else {
        None
    }
}

/// The dictionary that replaces the English ones for a lowercased language
/// tag (none for English).
pub open spec fn dictionary_name(lower: Seq<char>) -> Option<Seq<char>> {
    if starts_with(lower, "fr"@) {
        Some("fr-fr"@)
    } else if starts_with(lower, "de"@) {
        Some("de-de"@)
    } else if starts_with(lower, "es"@) {
        Some("es-es"@)
    } else if starts_with(lower, "it"@) {
        Some("it-it"@)
    } else if starts_with(lower, "pt"@) {
        Some("pt-br"@)
    } else if starts_with(lower, "nl"@) {
        Some("nl-nl"@)
    } else {
        None
    }
}

/// Where a dictionary package keeps its checker extension, relative to the
/// directory that holds `node_modules`.
pub open spec fn dictionary_extension_path(pkg: Seq<char>) -> Seq<char> {
    "node_modules/@cspell/"@ + pkg + "/cspell-ext.json"@
}

pub(crate) fn begins(t: &Vec<char>, p: &str) -> (r: bool)
    ensures
        r == starts_with(t@, p@),
{
    has_at_exec(t, 0, &chars_of(p))
}

pub(crate) fn equals(t: &Vec<char>, p: &str) -> (r: bool)
    ensures
        r == (t@ == p@),
{
    same_chars(t, &chars_of(p))
}

fn dictionary_package_exec(lower: &Vec<char>) -> (r: Option<&'static str>)
    ensures
        match r {
            Some(p) => dictionary_package(lower@) == Some(p@),
            None => dictionary_package(lower@) is None,
        },
{
    if begins(lower, "fr") {
        Some("dict-fr-fr")
    } else if begins(lower, "de") {
        Some("dict-de-de")
    } else if begins(lower, "es") {
        Some("dict-es-es")
    } else if begins(lower, "it") {
        Some("dict-it-it")
    } else if begins(lower, "pt") {
        Some("dict-pt-br")
    } else if begins(lower, "nl") {
        Some("dict-nl-nl")
    } else if equals(lower, "en-gb") || equals(lower, "en_gb") {
        Some("dict-en-gb")
    } else {
        None
    }
}

fn dictionary_name_exec(lower: &Vec<char>) -> (r: Option<&'static str>)
    ensures
        match r {
            Some(p) => dictionary_name(lower@) == Some(p@),
            None => dictionary_name(lower@) is None,
        },
{
    if begins(lower, "fr") {
        Some("fr-fr")
    } else if begins(lower, "de") {
        Some("de-de")
    } else if begins(lower, "es") {
        Some("es-es")
    } else if begins(lower, "it") {
        Some("it-it")
    } else if begins(lower, "pt") {
        Some("pt-br")
    } else if begins(lower, "nl") {
        Some("nl-nl")
    } else {
        None
    }
}

/// The relative path of the dictionary extension to import for `lang`, where
/// the language has a dictionary package; the caller looks for it on disk.
pub fn dictionary_extension(lang: &str) -> (r: Option<String>)
    ensures
        match r {
            Some(p) => dictionary_package(lowercase(lang@)) matches Some(pkg)
                && p@ == dictionary_extension_path(pkg),
            None => dictionary_package(lowercase(lang@)) is None,
        },
{
    let lower = chars_of(to_lowercase(lang).as_str());
    match dictionary_package_exec(&lower) {
        Some(pkg) => {
            let mut p = String::from_str("node_modules/@cspell/");
            p.append(pkg);
            p.append("/cspell-ext.json");
            Some(p)
        },
        None => None,
    }
}

// ---------------------------------------------------------------------------
// Configuration of the checker.
// ---------------------------------------------------------------------------

/// What the checker is told: the fields of its JSON configuration.  An empty
/// `dictionaries` or `flag_words` list stands for a field left out.
pub struct SpellConfig {
    pub language: String,
    pub locale: String,
    pub words: Vec<String>,
    pub ignore_patterns: Vec<String>,
    pub import: Option<String>,
    pub dictionaries: Vec<String>,
    pub flag_words: Vec<String>,
}

/// The language of a check: the one given, else the default.
pub open spec fn spell_language(language: Option<Seq<char>>) -> Seq<char> {
    match language {
        Some(l) => l,
        None => DEFAULT_LANGUAGE@,
    }
}

/// Whether British `-ise` spelling is enforced: only for British English,
/// where it is on unless turned off.
pub open spec fn enforces_ise(lower: Seq<char>, force_ise: Option<bool>) -> bool {
    if starts_with(lower, "en-gb"@) {
        match force_ise {
            Some(b) => b,
            None => true,
        }
    } else {
        false
    }
}

/// The English dictionaries switched off, then the language's own.
pub open spec fn dictionaries_for(lower: Seq<char>, import: Option<Seq<char>>) -> Seq<Seq<char>> {
    match (import, dictionary_name(lower)) {
        (Some(_), Some(name)) => seq!["!en_us"@, "!en-gb"@, "!en-gb-mit"@, name],
        _ => seq![],
    }
}

pub open spec fn opt_text(o: Option<String>) -> Option<Seq<char>> {
    match o {
        Some(s) => Some(s@),
        None => None,
    }
}

/// Builds the configuration for a check in `language` (default British
/// English) with the user's `words` and, where the language has one, the
/// dictionary extension `import`.
pub fn spell_config(
    language: Option<String>,
    words: Vec<String>,
    import: Option<String>,
    force_ise: Option<bool>,
) -> (r: SpellConfig)
    ensures
        r.language@ == spell_language(opt_text(language)),
        r.locale@ == spell_language(opt_text(language)),
        strings(r.words@) == strings(words@),
        strings(r.ignore_patterns@) == lines(SPELL_IGNORE_PATTERNS@),
        opt_text(r.import) == opt_text(import),
        strings(r.dictionaries@) == dictionaries_for(
            lowercase(spell_language(opt_text(language))),
            opt_text(import),
        ),
        strings(r.flag_words@) == (if enforces_ise(
            lowercase(spell_language(opt_text(language))),
            force_ise,
        ) {
            lines(BRITISH_FLAG_WORDS@)
        } else {
            Seq::<Seq<char>>::empty()
        }),
{
    let lang = match language {
        Some(l) => l,
        None => String::from_str(DEFAULT_LANGUAGE),
    };
    let lower = chars_of(to_lowercase(lang.as_str()).as_str());
    let force = if begins(&lower, "en-gb") {
        match force_ise {
            Some(b) => b,
            None => true,
        }
    } else {
        false
    };
    let flag_words = if force {
        lines_as_strings(BRITISH_FLAG_WORDS)
    } else {
        let v: Vec<String> = Vec::new();
        assert(strings(v@) =~= Seq::<Seq<char>>::empty());
        v
    };
    let mut dictionaries: Vec<String> = Vec::new();
    assert(strings(dictionaries@) =~= Seq::<Seq<char>>::empty());
    if import.is_some() {
        match dictionary_name_exec(&lower) {
            Some(name) => {
                push_text(&mut dictionaries, "!en_us");
                push_text(&mut dictionaries, "!en-gb");
                push_text(&mut dictionaries, "!en-gb-mit");
                push_text(&mut dictionaries, name);
                assert(strings(dictionaries@) =~= seq!["!en_us"@, "!en-gb"@, "!en-gb-mit"@, name@]);
            },
            None => {},
        }
    }
    let locale = lang.clone();
    SpellConfig {
        language: lang,
        locale,
        words,
        ignore_patterns: lines_as_strings(SPELL_IGNORE_PATTERNS),
        import,
        dictionaries,
        flag_words,
    }
}

/// The user's words: the global list as it is, then each word of the
/// document's own list that is not there yet.
pub open spec fn merged_words(global: Seq<Seq<char>>, local: Seq<Seq<char>>) -> Seq<Seq<char>>
    decreases local.len(),
{
    if local.len() == 0 {
        global
    } else {
        let m = merged_words(global, local.drop_last());
        if m.contains(local.last()) {
            m
        } else {
            m.push(local.last())
        }
    }
}

pub(crate) fn holds_text(v: &Vec<String>, w: &Vec<char>) -> (r: bool)
    ensures
        r == strings(v@).contains(w@),
{
    let mut k: usize = 0;
    while k < v.len()
        invariant
            k <= v.len(),
            forall|j: int| 0 <= j < k ==> strings(v@)[j] != w@,
        decreases v.len() - k,
    {
        if same_chars(&chars_of(v[k].as_str()), w) {
            assert(strings(v@)[k as int] == w@);
            return true;
        }
        k = k + 1;
    }
    false
}

/// Joins the global and the document's word lists.
pub fn merge_custom_words(global: Vec<String>, local: &Vec<String>) -> (r: Vec<String>)
    ensures
        strings(r@) == merged_words(strings(global@), strings(local@)),
{
    let mut out = global;
    let ghost g = strings(out@);
    let mut k: usize = 0;
    assert(strings(local@).subrange(0, 0) =~= Seq::<Seq<char>>::empty());
    while k < local.len()
        invariant
            k <= local.len(),
            strings(out@) == merged_words(g, strings(local@).subrange(0, k as int)),
        decreases local.len() - k,
    {
        let w = chars_of(local[k].as_str());
        assert(strings(local@).subrange(0, k + 1).drop_last() =~= strings(local@).subrange(0, k as int));
        if !holds_text(&out, &w) {
            push_string(&mut out, local[k].clone());
        }
        k = k + 1;
    }
    assert(strings(local@).subrange(0, k as int) =~= strings(local@));
    out
}

/// Whether a dictionary file already lists `word`, ignoring case.
pub open spec fn lists_word(existing: Seq<Seq<char>>, word: Seq<char>) -> bool {
    exists|k: int| 0 <= k < existing.len() && #[trigger] lowercase(existing[k]) == lowercase(word)
}

/// Whether `word` is already among `existing` (compared lowercased), so
/// that adding it again is skipped.
pub fn dictionary_lists_word(existing: &Vec<String>, word: &str) -> (r: bool)
    ensures
        r == lists_word(strings(existing@), word@),
{
    let lower = chars_of(to_lowercase(word).as_str());
    let mut k: usize = 0;
    while k < existing.len()
        invariant
            k <= existing.len(),
            lower@ == lowercase(word@),
            forall|j: int| 0 <= j < k ==> lowercase(#[trigger] strings(existing@)[j]) != lowercase(word@),
        decreases existing.len() - k,
    {
        let e = chars_of(to_lowercase(existing[k].as_str()).as_str());
        if same_chars(&e, &lower) {
            assert(lowercase(strings(existing@)[k as int]) == lowercase(word@));
            return true;
        }
        k = k + 1;
    }
    false
}

// ---------------------------------------------------------------------------
// Suggestions.
// ---------------------------------------------------------------------------

/// A suggestion line reads `- WORD`; the word is kept unless it is the
/// checked word again (ignoring case) or a forbidden spelling.
pub open spec fn suggestion_of_line(l: Seq<char>, lower_word: Seq<char>) -> Option<Seq<char>> {
    let t = trim(l);
    if starts_with(t, "- "@) {
        let s = t.subrange(2, t.len() as int);
        if lowercase(s) != lower_word && !forbidden_word(lowercase(s)) {
            Some(s)
        } else {
            None
        }
    } else {
        None
    }
}

pub open spec fn suggestions_in(ls: Seq<Seq<char>>, lower_word: Seq<char>) -> Seq<Seq<char>>
    decreases ls.len(),
{
    if ls.len() == 0 {
        seq![]
    } else {
        let prev = suggestions_in(ls.drop_last(), lower_word);
        match suggestion_of_line(ls.last(), lower_word) {
            Some(s) => prev.push(s),
            None => prev,
        }
    }
}

/// The suggestions that the checker printed for `word`, in order.
pub fn suggestions_from_output(output: &str, word: &str) -> (r: Vec<String>)
    ensures
        strings(r@) == suggestions_in(lines(output@), lowercase(word@)),
{
    proof {
        reveal_strlit("- ");
    }
    let ls = split_lines(&chars_of(output));
    let lower_word = chars_of(to_lowercase(word).as_str());
    let dash = chars_of("- ");
    let mut out: Vec<String> = Vec::new();
    let mut k: usize = 0;
    assert(strings(out@) =~= suggestions_in(views(ls@).subrange(0, 0), lower_word@));
    while k < ls.len()
        invariant
            k <= ls.len(),
            views(ls@) == lines(output@),
            lower_word@ == lowercase(word@),
            dash@ == "- "@,
            dash@.len() == 2,
            strings(out@) == suggestions_in(views(ls@).subrange(0, k as int), lower_word@),
        decreases ls.len() - k,
    {
        let l = &ls[k];
        assert(views(ls@).subrange(0, k + 1).drop_last() =~= views(ls@).subrange(0, k as int));
        assert(views(ls@).subrange(0, k + 1).last() == l@);
        let (a, b) = trim_range(l, 0, l.len());
        assert(l@.subrange(0, l@.len() as int) =~= l@);
        let t = copy_range(l, a, b);
        if has_at_exec(&t, 0, &dash) {
            let s = copy_range(&t, 2, t.len());
            let s_str = string_of(&s);
            let ls_lower = chars_of(to_lowercase(s_str.as_str()).as_str());
            if !same_chars(&ls_lower, &lower_word) && !is_forbidden(s_str.as_str()) {
                push_string(&mut out, s_str);
            }
        }
        k = k + 1;
    }
    assert(views(ls@).subrange(0, k as int) =~= views(ls@));
    out
}

/// The arguments of a suggestion request for `word` in the lowercased
/// language `lang`, reading the configuration file `config` where there is one.
pub open spec fn suggest_arguments_of(word: Seq<char>, lang: Seq<char>, config: Option<Seq<char>>) -> Seq<Seq<char>> {
    seq!["suggest"@, "--locale"@, lang] + (match config {
        Some(c) => seq!["--config"@, c],
        None => seq![],
    }) + seq!["--num-suggestions"@, "15"@, word]
}

pub fn suggest_arguments(word: &str, lang: &str, config: Option<String>) -> (r: Vec<String>)
    ensures
        strings(r@) == suggest_arguments_of(word@, lang@, opt_text(config)),
{
    let mut args: Vec<String> = Vec::new();
    push_text(&mut args, "suggest");
    push_text(&mut args, "--locale");
    push_text(&mut args, lang);
    let ghost head = strings(args@);
    match config {
        Some(c) => {
            push_text(&mut args, "--config");
            push_string(&mut args, c);
        },
        None => {},
    }
    let ghost mid = strings(args@);
    push_text(&mut args, "--num-suggestions");
    push_text(&mut args, "15");
    push_text(&mut args, word);
    assert(strings(args@) =~= suggest_arguments_of(word@, lang@, opt_text(config)));
    args
}

// ---------------------------------------------------------------------------
// Reports of the checker.
//
// A report line reads `FILE:LINE:COL - KIND (WORD) fix: (FIX)`, where KIND is
// `Unknown word`, `Info` or `Forbidden word`; the fix may be missing, and the
// word may also stand in double quotes or bare after the kind.  The four
// shapes are tried in that order, each at its leftmost position.
// ---------------------------------------------------------------------------

/// The first index from `k` that holds `stop` (or the end).
pub open spec fn run_until(l: Seq<char>, k: int, stop: char) -> int
    decreases l.len() - k,
{
    if 0 <= k < l.len() && l[k] != stop {
        run_until(l, k + 1, stop)
    } else {
        k
    }
}

pub proof fn lemma_run_until(l: Seq<char>, k: int, stop: char)
    requires
        0 <= k <= l.len(),
    ensures
        k <= run_until(l, k, stop) <= l.len(),
        run_until(l, k, stop) < l.len() ==> l[run_until(l, k, stop)] == stop,
        forall|j: int| k <= j < run_until(l, k, stop) ==> l[j] != stop,
    decreases l.len() - k,
{
    if k < l.len() && l[k] != stop {
        lemma_run_until(l, k + 1, stop);
    }
}

pub(crate) fn run_until_exec(l: &Vec<char>, k: usize, stop: char) -> (r: usize)
    requires
        k <= l.len(),
    ensures
        r as int == run_until(l@, k as int, stop),
{
    let mut i = k;
    while i < l.len() && l[i] != stop
        invariant
            k <= i <= l.len(),
            run_until(l@, k as int, stop) == run_until(l@, i as int, stop),
        decreases l.len() - i,
    {
        i = i + 1;
    }
    i
}

/// `:LINE:COL - ` at `k`: the ends of the two digit runs.
pub open spec fn report_header_at(l: Seq<char>, k: int) -> Option<(int, int)> {
    if 0 <= k < l.len() && l[k] == ':' {
        let e1 = digit_run_end(l, k + 1);
        if e1 > k + 1 && e1 < l.len() && l[e1] == ':' {
            let e2 = digit_run_end(l, e1 + 1);
            if e2 > e1 + 1 && has_at(l, e2, " - "@) {
                Some((e1, e2))
            } else {
                None
            }
        } else {
            None
        }
    } else {
        None
    }
}

/// The end of the kind of report at `p`; `Info` counts only where `info`.
pub open spec fn report_kind_end(l: Seq<char>, p: int, info: bool) -> Option<int> {
    if has_at(l, p, "Unknown word"@) {
        Some(p + "Unknown word"@.len())
    } else if info && has_at(l, p, "Info"@) {
        Some(p + "Info"@.len())
    } else if has_at(l, p, "Forbidden word"@) {
        Some(p + "Forbidden word"@.len())
    } else {
        None
    }
}

/// `open` at `t`, then a non-empty text without `close`, then `close`: the
/// bounds of the text.
pub open spec fn bracketed_at(l: Seq<char>, t: int, open: Seq<char>, close: char) -> Option<
    (int, int),
> {
    if has_at(l, t, open) {
        let a = t + open.len();
        let e = run_until(l, a, close);
        if e > a && e < l.len() {
            Some((a, e))
        } else {
            None
        }
    } else {
        None
    }
}

/// Past an optional colon at `t`.
pub open spec fn after_colon(l: Seq<char>, t: int) -> int {
    if 0 <= t < l.len() && l[t] == ':' {
        t + 1
    } else {
        t
    }
}

/// What follows the kind, for each shape: the word's bounds and the fix's.
pub open spec fn report_tail(l: Seq<char>, t: int, shape: int) -> Option<
    ((int, int), Option<(int, int)>),
> {
    if shape == 0 {
        match bracketed_at(l, t, " ("@, ')') {
            Some((a, e)) => if has_at(l, e + 1, " fix:"@) {
                match bracketed_at(l, e + 1 + " fix:"@.len(), " ("@, ')') {
                    Some(f) => Some(((a, e), Some(f))),
                    None => None,
                }
            } else {
                None
            },
            None => None,
        }
    } else if shape == 1 {
        match bracketed_at(l, t, " ("@, ')') {
            Some(w) => Some((w, None)),
            None => None,
        }
    } else if shape == 2 {
        match bracketed_at(l, after_colon(l, t), " \""@, '"') {
            Some(w) => Some((w, None)),
            None => None,
        }
    } else {
        let c = after_colon(l, t);
        if has_at(l, c, " "@) && c + 1 < l.len() {
            Some(((c + 1, l.len() as int), None))
        } else {
            None
        }
    }
}

/// Where the parts of a report line lie.
pub struct ReportSpan {
    pub line: (int, int),
    pub col: (int, int),
    pub word: (int, int),
    pub fix: Option<(int, int)>,
}

/// A report of the given shape whose file name ends before `k`.
pub open spec fn report_match_at(l: Seq<char>, k: int, shape: int) -> Option<ReportSpan> {
    if k >= 1 {
        match report_header_at(l, k) {
            Some((e1, e2)) => match report_kind_end(l, e2 + " - "@.len(), shape != 3) {
                Some(t) => match report_tail(l, t, shape) {
                    Some((w, f)) => Some(
                        ReportSpan { line: (k + 1, e1), col: (e1 + 1, e2), word: w, fix: f },
                    ),
                    None => None,
                },
                None => None,
            },
            None => None,
        }
    } else {
        None
    }
}

/// The leftmost report of the given shape at or after `k`.
pub open spec fn first_report_match(l: Seq<char>, k: int, shape: int) -> Option<ReportSpan>
    decreases l.len() - k,
{
    if k < 0 || k >= l.len() {
        None
    } else if report_match_at(l, k, shape) is Some {
        report_match_at(l, k, shape)
    } else {
        first_report_match(l, k + 1, shape)
    }
}

/// The report that a line holds: the first shape that matches.
pub open spec fn report_match(l: Seq<char>) -> Option<ReportSpan> {
    if first_report_match(l, 1, 0) is Some {
        first_report_match(l, 1, 0)
    } else if first_report_match(l, 1, 1) is Some {
        first_report_match(l, 1, 1)
    } else if first_report_match(l, 1, 2) is Some {
        first_report_match(l, 1, 2)
    } else {
        first_report_match(l, 1, 3)
    }
}

/// A misspelling found in the manuscript.
pub struct SpellError {
    pub line: usize,
    pub col: usize,
    pub word: String,
    pub context: String,
    pub suggested: Option<String>,
}

/// What a `SpellError` holds.
pub struct SpellReport {
    pub line: nat,
    pub col: nat,
    pub word: Seq<char>,
    pub context: Seq<char>,
    pub suggested: Option<Seq<char>>,
}

impl View for SpellError {
    type V = SpellReport;

    open spec fn view(&self) -> SpellReport {
        SpellReport {
            line: self.line as nat,
            col: self.col as nat,
            word: self.word@,
            context: self.context@,
            suggested: opt_text(self.suggested),
        }
    }
}

pub open spec fn reports_of(v: Seq<SpellError>) -> Seq<SpellReport> {
    v.map_values(|e: SpellError| e@)
}

/// The misspelling a (trimmed) report line gives, unless its word is among
/// the `ignored` ones (all lowercased).
pub open spec fn report_of_line(
    l: Seq<char>,
    file_lines: Seq<Seq<char>>,
    ignored: Seq<Seq<char>>,
) -> Option<SpellReport> {
    match report_match(l) {
        Some(m) => {
            let word = l.subrange(m.word.0, m.word.1);
            if ignored.contains(lowercase(word)) {
                None
            } else {
                let n = number_or_zero(l.subrange(m.line.0, m.line.1));
                Some(
                    SpellReport {
                        line: n,
                        col: number_or_zero(l.subrange(m.col.0, m.col.1)),
                        word,
                        context: context_line(file_lines, n),
                        suggested: match m.fix {
                            Some((a, b)) => Some(l.subrange(a, b)),
                            None => None,
                        },
                    },
                )
            }
        },
        None => None,
    }
}

/// The misspellings that the report lines give, in order.
pub open spec fn spell_reports(
    out: Seq<Seq<char>>,
    file_lines: Seq<Seq<char>>,
    ignored: Seq<Seq<char>>,
) -> Seq<SpellReport>
    decreases out.len(),
{
    if out.len() == 0 {
        seq![]
    } else {
        let prev = spell_reports(out.drop_last(), file_lines, ignored);
        match report_of_line(trim(out.last()), file_lines, ignored) {
            Some(r) => prev.push(r),
            None => prev,
        }
    }
}

/// The literals a report line is read by.
struct ReportWords {
    dash: Vec<char>,
    unknown: Vec<char>,
    info: Vec<char>,
    forbidden: Vec<char>,
    paren: Vec<char>,
    quote: Vec<char>,
    fix: Vec<char>,
    space: Vec<char>,
}

impl ReportWords {
    spec fn wf(&self) -> bool {
        &&& self.dash@ == " - "@
        &&& self.unknown@ == "Unknown word"@
        &&& self.info@ == "Info"@
        &&& self.forbidden@ == "Forbidden word"@
        &&& self.paren@ == " ("@
        &&& self.quote@ == " \""@
        &&& self.fix@ == " fix:"@
        &&& self.space@ == " "@
    }

    fn new() -> (r: ReportWords)
        ensures
            r.wf(),
    {
        ReportWords {
            dash: chars_of(" - "),
            unknown: chars_of("Unknown word"),
            info: chars_of("Info"),
            forbidden: chars_of("Forbidden word"),
            paren: chars_of(" ("),
            quote: chars_of(" \""),
            fix: chars_of(" fix:"),
            space: chars_of(" "),
        }
    }
}

fn report_header_exec(l: &Vec<char>, k: usize, w: &ReportWords) -> (r: Option<(usize, usize)>)
    requires
        w.wf(),
    ensures
        match r {
            Some((e1, e2)) => report_header_at(l@, k as int) == Some((e1 as int, e2 as int))
                && k < e1 < e2 && e2 + 3 <= l.len(),
            None => report_header_at(l@, k as int) is None,
        },
{
    proof {
        reveal_strlit(" - ");
    }
    if k < l.len() && l[k] == ':' {
        proof {
            lemma_digit_run_end(l@, k + 1);
        }
        let e1 = digit_run_end_exec(l, k + 1);
        if e1 > k + 1 && e1 < l.len() && l[e1] == ':' {
            proof {
                lemma_digit_run_end(l@, e1 + 1);
            }
            let e2 = digit_run_end_exec(l, e1 + 1);
            if e2 > e1 + 1 && has_at_exec(l, e2, &w.dash) {
                return Some((e1, e2));
            }
        }
    }
    None
}

fn report_kind_end_exec(l: &Vec<char>, p: usize, info: bool, w: &ReportWords) -> (r: Option<usize>)
    requires
        w.wf(),
    ensures
        match r {
            Some(t) => report_kind_end(l@, p as int, info) == Some(t as int) && t <= l.len(),
            None => report_kind_end(l@, p as int, info) is None,
        },
{
    if has_at_exec(l, p, &w.unknown) {
        assert(p + w.unknown@.len() <= l.len());
        Some(p + w.unknown.len())
    } else if info && has_at_exec(l, p, &w.info) {
        assert(p + w.info@.len() <= l.len());
        Some(p + w.info.len())
    } else if has_at_exec(l, p, &w.forbidden) {
        assert(p + w.forbidden@.len() <= l.len());
        Some(p + w.forbidden.len())
    } else {
        None
    }
}

fn bracketed_exec(l: &Vec<char>, t: usize, open: &Vec<char>, close: char) -> (r: Option<
    (usize, usize),
>)
    ensures
        match r {
            Some((a, e)) => bracketed_at(l@, t as int, open@, close) == Some((a as int, e as int))
                && a < e < l.len(),
            None => bracketed_at(l@, t as int, open@, close) is None,
        },
{
    if has_at_exec(l, t, open) {
        assert(t + open@.len() <= l.len());
        let a = t + open.len();
        let e = run_until_exec(l, a, close);
        if e > a && e < l.len() {
            return Some((a, e));
        }
    }
    None
}

fn after_colon_exec(l: &Vec<char>, t: usize) -> (r: usize)
    requires
        t <= l.len(),
    ensures
        r as int == after_colon(l@, t as int),
        r <= l.len(),
{
    if t < l.len() && l[t] == ':' {
        t + 1
    } else {
        t
    }
}

fn report_tail_exec(l: &Vec<char>, t: usize, shape: usize, w: &ReportWords) -> (r: Option<
    ((usize, usize), Option<(usize, usize)>),
>)
    requires
        w.wf(),
        t <= l.len(),
    ensures
        match r {
            Some((wd, f)) => report_tail(l@, t as int, shape as int) == Some(
                (
                    (wd.0 as int, wd.1 as int),
                    match f {
                        Some((a, b)) => Some((a as int, b as int)),
                        None => None,
                    },
                ),
            ) && wd.0 <= wd.1 <= l.len() && (f matches Some((a, b)) ==> a <= b <= l.len()),
            None => report_tail(l@, t as int, shape as int) is None,
        },
{
    proof {
        reveal_strlit(" ");
    }
    if shape == 0 {
        match bracketed_exec(l, t, &w.paren, ')') {
            Some((a, e)) => {
                if has_at_exec(l, e + 1, &w.fix) {
                    match bracketed_exec(l, e + 1 + w.fix.len(), &w.paren, ')') {
                        Some(f) => Some(((a, e), Some(f))),
                        None => None,
                    }
                } else {
                    None
                }
            },
            None => None,
        }
    } else if shape == 1 {
        match bracketed_exec(l, t, &w.paren, ')') {
            Some(wd) => Some((wd, None)),
            None => None,
        }
    } else if shape == 2 {
        match bracketed_exec(l, after_colon_exec(l, t), &w.quote, '"') {
            Some(wd) => Some((wd, None)),
            None => None,
        }
    } else {
        let c = after_colon_exec(l, t);
        if has_at_exec(l, c, &w.space) && c + 1 < l.len() {
            Some(((c + 1, l.len()), None))
        } else {
            None
        }
    }
}

/// Bounds of a report's parts.
struct ReportBounds {
    line: (usize, usize),
    col: (usize, usize),
    word: (usize, usize),
    fix: Option<(usize, usize)>,
}

spec fn span_of(b: ReportBounds) -> ReportSpan {
    ReportSpan {
        line: (b.line.0 as int, b.line.1 as int),
        col: (b.col.0 as int, b.col.1 as int),
        word: (b.word.0 as int, b.word.1 as int),
        fix: match b.fix {
            Some((a, c)) => Some((a as int, c as int)),
            None => None,
        },
    }
}

spec fn bounds_fit(b: ReportBounds, n: int) -> bool {
    &&& b.line.0 <= b.line.1 <= n
    &&& b.col.0 <= b.col.1 <= n
    &&& b.word.0 <= b.word.1 <= n
    &&& (b.fix matches Some((a, c)) ==> a <= c <= n)
}

fn report_match_at_exec(l: &Vec<char>, k: usize, shape: usize, w: &ReportWords) -> (r: Option<
    ReportBounds,
>)
    requires
        w.wf(),
    ensures
        match r {
            Some(b) => report_match_at(l@, k as int, shape as int) == Some(span_of(b)) && bounds_fit(
                b,
                l@.len() as int,
            ),
            None => report_match_at(l@, k as int, shape as int) is None,
        },
{
    if k < 1 {
        return None;
    }
    match report_header_exec(l, k, w) {
        Some((e1, e2)) => match report_kind_end_exec(l, e2 + w.dash.len(), shape != 3, w) {
            Some(t) => match report_tail_exec(l, t, shape, w) {
                Some((wd, f)) => Some(ReportBounds { line: (k + 1, e1), col: (e1 + 1, e2), word: wd, fix: f }),
                None => None,
            },
            None => None,
        },
        None => None,
    }
}

fn first_report_match_exec(l: &Vec<char>, shape: usize, w: &ReportWords) -> (r: Option<
    ReportBounds,
>)
    requires
        w.wf(),
    ensures
        match r {
            Some(b) => first_report_match(l@, 1, shape as int) == Some(span_of(b)) && bounds_fit(
                b,
                l@.len() as int,
            ),
            None => first_report_match(l@, 1, shape as int) is None,
        },
{
    let mut k: usize = 1;
    while k < l.len()
        invariant
            w.wf(),
            1 <= k,
            first_report_match(l@, 1, shape as int) == first_report_match(l@, k as int, shape as int),
        decreases l.len() - k,
    {
        match report_match_at_exec(l, k, shape, w) {
            Some(b) => {
                return Some(b);
            },
            None => {},
        }
        k = k + 1;
    }
    None
}

fn report_match_exec(l: &Vec<char>, w: &ReportWords) -> (r: Option<ReportBounds>)
    requires
        w.wf(),
    ensures
        match r {
            Some(b) => report_match(l@) == Some(span_of(b)) && bounds_fit(b, l@.len() as int),
            None => report_match(l@) is None,
        },
{
    let m0 = first_report_match_exec(l, 0, w);
    if m0.is_some() {
        return m0;
    }
    let m1 = first_report_match_exec(l, 1, w);
    if m1.is_some() {
        return m1;
    }
    let m2 = first_report_match_exec(l, 2, w);
    if m2.is_some() {
        return m2;
    }
    first_report_match_exec(l, 3, w)
}

/// Reads the checker's report `output` on the manuscript `content`: one
/// `SpellError` per reported word, in order, leaving out the words of
/// `ignore_list` (compared lowercased).
pub fn parse_spell_output(output: &str, content: &str, ignore_list: &Vec<String>) -> (r: Vec<
    SpellError,
>)
    ensures
        reports_of(r@) == spell_reports(
            lines(output@),
            lines(content@),
            ignore_list@.map_values(|s: String| lowercase(s@)),
        ),
{
    let ghost ignored = ignore_list@.map_values(|s: String| lowercase(s@));
    let mut lower_ignores: Vec<Vec<char>> = Vec::new();
    let mut j: usize = 0;
    while j < ignore_list.len()
        invariant
            j <= ignore_list.len(),
            ignored == ignore_list@.map_values(|s: String| lowercase(s@)),
            views(lower_ignores@) == ignored.subrange(0, j as int),
        decreases ignore_list.len() - j,
    {
        let ghost before = lower_ignores@;
        let lw = chars_of(to_lowercase(ignore_list[j].as_str()).as_str());
        lower_ignores.push(lw);
        assert(lower_ignores@ =~= before.push(lw));
        assert(ignored[j as int] == lowercase(ignore_list@[j as int]@));
        assert(views(lower_ignores@) =~= views(before).push(lw@));
        assert(views(lower_ignores@) =~= ignored.subrange(0, j + 1));
        j = j + 1;
    }
    assert(ignored.subrange(0, j as int) =~= ignored);
    let out = split_lines(&chars_of(output));
    let file_lines = split_lines(&chars_of(content));
    let words = ReportWords::new();
    let mut errors: Vec<SpellError> = Vec::new();
    let mut k: usize = 0;
    assert(reports_of(errors@) =~= spell_reports(views(out@).subrange(0, 0), views(file_lines@), ignored));
    while k < out.len()
        invariant
            k <= out.len(),
            words.wf(),
            views(out@) == lines(output@),
            views(file_lines@) == lines(content@),
            views(lower_ignores@) == ignored,
            reports_of(errors@) == spell_reports(views(out@).subrange(0, k as int), views(file_lines@), ignored),
        decreases out.len() - k,
    {
        let l0 = &out[k];
        let (a, b) = trim_range(l0, 0, l0.len());
        assert(l0@.subrange(0, l0@.len() as int) =~= l0@);
        let l = copy_range(l0, a, b);
        assert(views(out@).subrange(0, k + 1).drop_last() =~= views(out@).subrange(0, k as int));
        assert(views(out@).subrange(0, k + 1).last() == l0@);
        match report_match_exec(&l, &words) {
            Some(m) => {
                let word = copy_range(&l, m.word.0, m.word.1);
                let lw = chars_of(to_lowercase(string_of(&word).as_str()).as_str());
                let mut ignore = false;
                let mut q: usize = 0;
                while q < lower_ignores.len()
                    invariant
                        q <= lower_ignores.len(),
                        ignore == exists|i: int| 0 <= i < q && #[trigger] views(lower_ignores@)[i] == lw@,
                    decreases lower_ignores.len() - q,
                {
                    if same_chars(&lower_ignores[q], &lw) {
                        ignore = true;
                        assert(views(lower_ignores@)[q as int] == lw@);
                    }
                    q = q + 1;
                }
                assert(ignore == views(lower_ignores@).contains(lw@));
                if !ignore {
                    let n = number_or_zero_exec(&l, m.line.0, m.line.1);
                    let c = number_or_zero_exec(&l, m.col.0, m.col.1);
                    let ctx = context_of(&file_lines, n);
                    let suggested = match m.fix {
                        Some((fa, fb)) => Some(string_of_range(&l, fa, fb)),
                        None => None,
                    };
                    let ghost before = errors@;
                    let e = SpellError {
                        line: n,
                        col: c,
                        word: string_of(&word),
                        context: string_of(&ctx),
                        suggested,
                    };
                    errors.push(e);
                    assert(reports_of(errors@) =~= reports_of(before).push(e@));
                }
            },
            None => {},
        }
        k = k + 1;
    }
    assert(views(out@).subrange(0, k as int) =~= views(out@));
    errors
}

// ---------------------------------------------------------------------------
// Laws.
// ---------------------------------------------------------------------------

/// No reported misspelling is one of the ignored words, and each quotes the
/// (trimmed) manuscript line that it names, or nothing where there is no
/// such line.
pub proof fn law_reports_skip_ignored_and_quote_their_line(
    out: Seq<Seq<char>>,
    file_lines: Seq<Seq<char>>,
    ignored: Seq<Seq<char>>,
)
    ensures
        forall|k: int|
            0 <= k < spell_reports(out, file_lines, ignored).len() ==> !ignored.contains(
                lowercase(#[trigger] spell_reports(out, file_lines, ignored)[k].word),
            ),
        forall|k: int|
            0 <= k < spell_reports(out, file_lines, ignored).len() ==> (#[trigger] spell_reports(
                out,
                file_lines,
                ignored,
            )[k]).context == context_line(
                file_lines,
                spell_reports(out, file_lines, ignored)[k].line,
            ),
    decreases out.len(),
{
    if out.len() > 0 {
        law_reports_skip_ignored_and_quote_their_line(out.drop_last(), file_lines, ignored);
    }
}

/// A suggestion is never the checked word again (ignoring case) nor a
/// forbidden spelling.
pub proof fn law_suggestions_exclude_word_and_forbidden(ls: Seq<Seq<char>>, lower_word: Seq<char>)
    ensures
        forall|k: int|
            0 <= k < suggestions_in(ls, lower_word).len() ==> lowercase(
                #[trigger] suggestions_in(ls, lower_word)[k],
            ) != lower_word && !forbidden_word(lowercase(suggestions_in(ls, lower_word)[k])),
    decreases ls.len(),
{
    if ls.len() > 0 {
        let t = ls.drop_last();
        law_suggestions_exclude_word_and_forbidden(t, lower_word);
        let prev = suggestions_in(t, lower_word);
        let r = suggestions_in(ls, lower_word);
        assert forall|k: int| 0 <= k < r.len() implies lowercase(#[trigger] r[k]) != lower_word
            && !forbidden_word(lowercase(r[k])) by {
            if k < prev.len() {
                assert(r[k] == prev[k]);
            } else {
                let x = suggestion_of_line(ls.last(), lower_word);
                assert(x is Some);
                assert(r[k] == x->0);
            }
        }
    }
}

/// Joining word lists keeps the global list as it is, in front, and loses
/// no word of the document's list.
pub proof fn law_merged_words_keep_both_lists(global: Seq<Seq<char>>, local: Seq<Seq<char>>)
    ensures
        merged_words(global, local).len() >= global.len(),
        merged_words(global, local).subrange(0, global.len() as int) == global,
        forall|k: int| 0 <= k < local.len() ==> merged_words(global, local).contains(#[trigger] local[k]),
    decreases local.len(),
{
    if local.len() > 0 {
        let t = local.drop_last();
        law_merged_words_keep_both_lists(global, t);
        let m = merged_words(global, t);
        let r = merged_words(global, local);
        assert(r.subrange(0, global.len() as int) =~= m.subrange(0, global.len() as int));
        assert forall|k: int| 0 <= k < local.len() implies r.contains(#[trigger] local[k]) by {
            if k < t.len() {
                assert(m.contains(t[k]));
                let j = choose|j: int| 0 <= j < m.len() && m[j] == t[k];
                assert(r[j] == m[j]);
            } else if !m.contains(local.last()) {
                assert(r[r.len() - 1] == local[k]);
            }
        }
    }
}

} // verus!
