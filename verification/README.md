# notahub

A keyboard-driven terminal application for projects, tasks and ideas, kept as
plain markdown files with a YAML front matter.

The library (`src/`) holds the logic, verified with Verus:

- `shortcut` — the one- and two-letter item shortcuts;
- `text` — trimming, searching and splitting text as `str` does it;
- `model` — projects, tasks and ideas, and their ids;
- `storage` — where the data lives (`NOTAHUB_HOME`, else the platform's
  local data directory, else `.notahub`) and the file format: front matter
  framing, reading and writing project and idea bodies, file names;
- `roundtrip` — proofs that a written file reads back: its front matter
  text comes back out between the fences, and its body gives back the notes
  or tasks written (and a written project body is readable). The front
  matter's YAML itself is written and read by the program, so those proofs
  stop at its text;
- `search` — case-insensitive search with snippets;
- `order` — ordering items by title;
- `app` — the application state and its selections;
- `event` — what each key press or mouse event does, and the storage request
  that goes with it.

The program (`app/`) runs the terminal, draws the screens with ratatui, and
reads, writes and removes the files that the library's storage requests name.
