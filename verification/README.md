# ccplan

A plain-text day planner: a plan is a list of time blocks for one date, each of which can notify
you, track its status and run a command when it starts. This crate is written in Verus; the
planner's rules are stated as contracts and proved.

## Layout

- `src/` is the verified library.
  - `civil`, `time`: calendar dates, instants and their resolution in a time zone.
  - `model`: blocks, plans, their fields and parsers, validation, schedule revisions, the plan
    file's raw form and the round trip between the two.
  - `recurrence`: recurrence rules (`daily`, `weekday`, `weekly:mon,wed`, `3d`, `2w`), which
    dates they fall on and the index of an occurrence.
  - `lifecycle`: what a fired trigger does to a block (notify, activate, mark missed, close) and
    the settling of overdue blocks.
  - `store`: the store's paths, the fired-event and trigger ledgers, and the merge of a new plan
    with the stored one that keeps finished history.
  - `commands`: the logic behind the command line (tables, agenda rows, trigger reconciliation,
    authorization of commands, the plan file's ownership verdict, block activation, slugs and
    ids).
  - `rpc`: the agent tool server's protocol: how a JSON-RPC request line is read and what it is
    answered, and which tool a call names.
  - `mcp`: the checks behind the agent tool requests.
  - `serve`: the reactive loop's decisions (conditions that fire once, agent assignments).
  - `gui::model`: the data of each panel of the cockpit.
  - `platform`, `config`, `context`, `error`, `text`: doctor checks and escaping, configuration,
    backend errors, error messages and exit codes, string helpers.
- `app/` is the command-line program around the library: argument parsing, files, locks, the
  system scheduler, desktop notifications, and the agent tool server's read/write loop.
- `tests/` runs the library on concrete values.

Calls into `jiff` (time zones, calendar arithmetic, parsing and printing instants) and `blake3`
(hashing) are made from the library through small trusted wrappers, each documented with what it
claims of the outside function.
