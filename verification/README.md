# xml_fmt

A formatter for XML control files that carry Perl code in CDATA sections.
The input is cut into pieces at each `>`; every piece is cleaned of runs of
white space and laid out in turn: elements one attribute per line and
indented by depth, comments kept, and the Perl code of a CDATA section
re-indented by its braces and statements.

Layout:

- `src/text.rs`: string helpers (replace, byte-offset slicing, split) with
  their specifications.
- `src/pattern.rs`: regular expressions through the `regex` crate; what a
  regex matches is named, not restated.
- `src/handle_ncurly_perl.rs`, `src/xml_fmt.rs`: laying out CDATA sections
  and comments.
- `src/cdata.rs`, `src/element.rs`: the brace layout of CDATA code, and
  the layout of an element's name, attributes and end.
- `src/formatter.rs`: one step of the formatter, `FmtState::step`, against
  `step_spec`, and its laws.
- `src/document.rs`: a whole document, `format_bytes`, against `run_spec`,
  and its laws.
- `app/main.rs`: the command line, reading the input file, printing the
  warnings and writing the output.
