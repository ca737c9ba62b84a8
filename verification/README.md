# qvtf_author

The text-processing core of a desktop tool for writing and publishing
scientific manuscripts in Markdown and LaTeX, written in Verus: every
function in `src/` carries a contract over a model of the text as a
sequence of characters, and Verus proves the code against it.

## Layout

- `src/text.rs` – characters, trimming, lines, literal search, numbers;
  the case mapping and the regex character classes that come from outside.
- `src/numbering.rs`, `src/environments.rs`, `src/labels.rs`,
  `src/references.rs` – equation numbering (global, by chapter, by section)
  and the resolution of `\ref`/`\eqref` to printed numbers.
- `src/logparse.rs`, `src/diagnostics.rs`, `src/suggest.rs` – reading LaTeX
  and Pandoc logs into errors placed on manuscript lines, with advice;
  `src/emergency_stop.rs` – what a final emergency stop adds to them.
- `src/spelling.rs` – the spell checker's configuration, its reports and
  suggestions, and the forbidden American spellings.
- `src/mathfix.rs`, `src/manuscript.rs` – cleaning up display mathematics
  and reporting problems with it line by line.
- `src/unicode_math.rs`, `src/html_source.rs`, `src/html_post.rs` – HTML
  export: the source given to Pandoc and the page it writes.
- `src/publishing.rs`, `src/paths.rs` – the arguments and sources of the
  PDF, HTML, Word and LaTeX conversions, file names and search paths.
- `app/lib.rs` – files, processes and serialised records around the library.
- `tests/` – examples, and agreement with the regular expressions that the
  scanners implement.

Public proof functions named `law_*` state properties that hold across
calls, such as the ordering of reported errors; others stand in the
`ensures` of the function they are about, such as that no error is
reported twice.
