# askgrep

grep for questions you cannot write as a pattern: source files are cut into
chunks, and a model is asked, chunk by chunk, how likely it is that the code
does what the question says.

The library under `src/` is verified with Verus:

- `text`: lines, trimming, UTF-8 lengths and decimal numbers, with the meaning
  the standard library gives them.
- `chunk`: splitting a file into spans at definition lines and windowing long
  spans; `chunk_laws` proves what holds of every result (chunks in file order,
  each opening with its definition line, windows stopping at the size limit,
  nothing from `.git`).
- `backend`: the FNV-1a cache key, the cache protocol and the retry policy
  shared by the backends; `jev` and `openai` hold the requests each backend
  sends and the decision taken on each reply.
- `flags`, `goal`, `dashboard`, `doctor`, `context`, `init`, `pi`: argument
  handling, responses and report text for the `omni` subcommands; `pi` parses
  settings documents with serde_json.

`app/` is the command-line program: argument parsing, the directory walk, the
HTTP calls, threads, reading and writing the on-disk cache and the settings
files, and the floating-point scores.
