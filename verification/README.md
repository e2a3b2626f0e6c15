# indexrs

The verified core of a trigram-indexed local code search tool.

- `src/` is the library, written in Verus. Its functions carry contracts
  that Verus proves, except the small trusted wrappers around outside crates
  described below:
  - `types`: identifiers, trigrams, languages and their printed forms;
  - `trigram`, `query_trigrams`: case-folded trigram extraction for literal
    and regex queries, and the plan the index is queried with;
  - `lines`, `verify`, `merge`, `query_match`: finding the lines of file
    content that a query AST matches, with context lines;
  - `search_cmd`: what the `search` command decides from its flags, how it
    filters and prints what the engine found;
  - `query`, `search`, `error`, `cli`, `reindex_progress`: the data types.
- `tests/` runs the library on concrete inputs.
- `app/` is the command line front end: argument parsing with clap, the
  JSON form of progress events with serde, and the async entry point.

Calls into `memchr`, `regex`, `regex-syntax` and `globset` stand behind small
trusted wrappers whose contracts say what those crates document.
