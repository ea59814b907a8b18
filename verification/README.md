# spec_topics

Verified (Verus) logic of two repository tools:

- `src/topics.rs` lays out the language specification: the slug of each
  topic, the navigation entries, the text of each topic page and the table
  that locates every production on the page that lists it. Its proof
  functions state that the navigation and the pages agree and that the
  production table points at pages that list the production.
- `src/pipenv.rs` plans the `pipenv` setup: the `pip3` command that installs
  the version pinned in the `Pipfile`, then the `pipenv install` command.
- `src/grammar.rs` holds the grammar model that the pages are built from;
  `src/text.rs` the character-level helpers (decimal numerals, slugs).

`app/` is the I/O around it: reading and parsing the `Pipfile`, running the
commands, and writing the pages to disk.
