# vergissmeinnicht

The logic of a Taskwarrior-compatible task manager for the desktop: parsing of
quick-capture lines, due dates and recurrences, sidebar filters and counts,
saved searches, the project tree, backup rotation, the assistant's prompts and
drafts, and the choice of a dictation backend.

- `src/` is the library. Every function there carries a contract and is
  proved by Verus; the laws that relate several functions stand there as
  public proof functions. Calls into outside crates (chrono, uuid,
  serde_json, keyring, dirs) go through small trusted wrappers whose doc
  comments say what is assumed of them.
- `tests/` runs the library on concrete values.
- `app/` is the program around it: the task store on taskchampion, files,
  the HTTP client of the assistant, recording processes, JSON for the UI and
  the urgency score (floating point).
