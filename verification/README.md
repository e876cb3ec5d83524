# textpod

A small server for short notes. Notes are written in Markdown, tagged with
`#words`, kept in one file and shown on a page, which other sites can embed.

- `src/` is the library, verified with Verus. It decides what each request does,
  writes and reads the file of notes, and writes the pages.
- `app/` is the server around it: command line, files, routes. It expects
  `index.html` and `favicon.svg` beside the program.
- `tests/` runs the library.

What is proved beyond the contracts of the functions stands in the proof
functions whose names begin with `law_`. The library relies on `comrak`,
`chrono`, `base64` and parts of the standard library; what it takes for granted
of them stands in `markdown.rs`, `clock.rs`, `page.rs` and `unicode.rs`.
