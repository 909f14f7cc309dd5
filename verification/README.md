# aetherium

A personal knowledge store ("codex"): a folder of files with a SQLite index of
their terms, chunks and embeddings, and a command line to add, sync, search and
cluster them.

- `src/` is the library, verified with Verus: tokenizing and counting terms,
  reading files in chunks, splitting text into sentences and token-bounded chunks,
  the codex configuration and its versions, the decisions of a synchronisation
  between the data folder and the database, the SQL text the store runs, and the
  text of every table and card the command line prints. Each public function
  states its result in `ensures`; the `law_*` proof functions state properties
  that span several calls.
- `tests/` runs the library on concrete values.
- `app/` is the program around it: argument parsing, the disk and the databases,
  floating-point scores and the calls to the engine.
