# marks-client

A desktop launcher for the marks kept on a marks server: one search field, the marks it matches
underneath with their favicons, and a sign-in dialog until there is a session.

The crate is in two parts.

- `src/` is the library, written in Verus and verified: what the window decides and computes,
  each function with a contract that states it.
  - `app` — the window's state and how it moves: keys, dialogs, answers from the server, and
    the effects it asks the program to carry out.
  - `launcher` — which marks a query keeps and in what order, what a typed line is saved as,
    the hints, the server address typed into the sign-in dialog, and the server and session a
    run starts from.
  - `search` — how a query finds text (a fuzzy subsequence, through `fuzzy-matcher`), where the
    matched characters are, and the stretches a line is drawn in.
  - `title` — reading the `<title>` of a page: the scan, the character references, the
    whitespace, and which answers are worth reading.
  - `mark`, `api`, `session_file`, `config`, `fonts`, `icons`, `icon_cache` — a mark and its
    link, the requests and their failures, the kept session, the settings, the font order, the
    favicons and where they are kept.
  - `text` — the facts about text the rest is written against.
- `app/` is the program around it: the egui window, the HTTP requests, the files on disk, and
  the worker threads.

The laws the library keeps are proof functions beside the code they are about, named
`lemma_...`; the tests under `tests/` run the library on concrete values.
