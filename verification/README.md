# shipflow

Track what you intend to ship; report what you shipped. A local-first, git-aware
command-line tool whose core is verified with Verus.

- `src/` is the library, verified by Verus against the contracts it states:
  - `task` — task records, reading tag lists, tag filters, looking a task up by id
    prefix or title;
  - `storage` — where the task file lives, the in-memory store (add, find, complete),
    schema migration and the order the file is written in;
  - `report` — which tasks a period covers, tag statistics, text and Markdown reports;
  - `git` — what git's output means (repository root, branch, log lines, commit links);
  - `commands` — what each command prints and decides, including the board's cursor
    movement and the interactive commit choice;
  - `text`, `time`, `order`, `table`, `utils`, `error`, `cli` — the pieces these rest on;
  - `laws` — properties that span several operations.
  Calls into chrono, ulid, owo-colors and comfy-table go through small trusted
  functions whose contracts state what those crates do.
- `app/` is the program around it: clap, files and JSON (serde), running git, the
  terminal, the ratatui board and shell completions.
- `tests/` exercises the library on concrete values.
