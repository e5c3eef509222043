# cpl

A local cache of AI command solutions for the GitHub Copilot CLI and the agy
CLI. It scans their transcript logs, turns each user turn into a solution
(the request, the commands that ran, the code blocks that came back), stores
the solutions in SQLite and offers them back through a search, a browser and
a run prompt.

Layout:

- `src/` is the library, written in Verus and verified:
  - `text.rs`: character-level text operations (trim, find, replace, lines)
    with their models over `Seq<char>`;
  - `json.rs`: JSON documents as plain values and member lookup;
  - `model.rs`: solutions and code snippets, and their dates;
  - `ingestor.rs`: transcript parsing, request and command cleaning, code
    block extraction, with the laws that parsed solutions obey;
  - `storage.rs`: rows of the solution table, full-text search statements,
    pin toggling, and what a read gives back of a write;
  - `ui.rs`: browser keys and fuzzy filter, list, preview and plain listing;
  - `executor.rs`: which command to offer and what the user chose;
  - `updater.rs`: release address, version comparison, asset choice;
  - `cli.rs`: the command line and the start-up plan.
- `app/` is the program around it: terminal, clipboard, file system, SQLite,
  network and process handling.
- `tests/` exercises the library on concrete values.
