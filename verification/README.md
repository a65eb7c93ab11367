# gh-pilot

A terminal UI for GitHub Copilot CLI sessions in tmux, with its logic verified by Verus.

- `src/` is the library. It decides what is listed, shown, cached and run. All of it is verified by
  Verus, and every public function has a contract. What it takes on trust from `std` and from other
  crates stands in `src/foreign.rs`.
- `app/` is the program around it: the terminal, tmux, `gh`, SQLite and the clock.
- `tests/` runs the library on concrete values.

The modules of the library:

| Module | What it holds |
| --- | --- |
| `text`, `chars`, `numbers`, `order`, `tables` | texts, numbers, sorting, sets and maps |
| `paths`, `projects` | paths, prompts, the projects that are followed |
| `status` | what a session is doing, by what its terminal shows |
| `tmux`, `remote`, `store` | managed sessions, remote tasks and the cache of both |
| `groups` | the tree of projects and its rows |
| `app`, `selection`, `keys`, `schedule` | the state of the program and how keys change it |
| `style`, `view` | what the program shows |
| `session`, `events`, `log` | Copilot's own records and the logs of remote tasks |
| `terminal` | the terminal in which a session is shown |
| `panel`, `markdown` | what the session browser shows |
| `registry` | the registry of managed sessions |
| `json`, `foreign` | JSON values, and what comes from outside |
