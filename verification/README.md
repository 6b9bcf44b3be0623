# mdbook_runnable_examples

An mdBook preprocessor that turns two kinds of directives in book chapters
into rendered content:

- `{{#runnable path [mode=auto|deterministic|nondeterministic]}}` shows the
  Rust example at `path` (lines `#` and `# ...` hidden) and, when the
  preprocessor is enabled, embeds the example's recorded outputs so that the
  page can replay a run;
- `{{#note type [title="..."]}}` ... `{{/note}}` becomes a styled note block
  whose body is rendered from Markdown.

Lines inside fenced code blocks are never directives. Example outputs are
recorded once per source (fingerprinted with SHA-256) and reused while the
source and the requested mode stay the same.

## Layout

- `src/` is the library, verified with Verus: directive parsing, chapter
  expansion, note and example rendering, the collection of referenced
  examples, path and package-name rules, and the decisions about when an
  example's recorded outputs are rebuilt (`refresh`). Each public function
  states its result in its contract; laws that relate several functions are
  public proof functions.
- `app/` is the executable around it: reading the book from mdBook, reading
  and writing files, running examples with cargo.
- `tests/` runs the library on concrete inputs.

Paths are Unix paths: `/` is the only separator, and the path model and the
contracts of the `std::path` calls hold on Unix only.
