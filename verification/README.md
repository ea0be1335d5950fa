# pinki

A tiny promise broker: an append-only log of obligations between named agents.
A debtor (`by`) owes a creditor (`to`) a thing (`promise`) by a deadline (`until`),
possibly only once another promise (`on`) is satisfied. State is never stored: it is
computed by folding the log at an injected `now`.

The library is written in Verus and verified; the program around it is plain Rust.

## Layout

- `src/` — the verified library.
  - `state.rs` — the fold: every declared promise's computed state (`conditional`,
    `detached`, `overdue`, `satisfied`, `cancelled`, `released`, `expired`), stated
    as spec functions over the log and proved of the executable fold; a promise
    whose `on` chain runs into a cycle, on it or leading into it, is `conditional`.
  - `verbs.rs` — what each of the seven verbs (`promise`, `amend`, `resolve`,
    `assess`, `ls`, `show`, `a2a`) decides, given the ledger and `now`: the event to
    append or the lines to print, every refusal with its exact message, and the
    notes for stderr.
  - `laws.rs` — what holds across calls: first declaration wins, the first resolve
    wins and is final, assessments and unknown events change nothing wherever they
    stand in the log, an amend moves only the horizon, `meta` is never read, the
    fold follows the table of computed states, and what `promise`, `amend`,
    `resolve` and `assess` append reads back as they say — a second declaration or
    resolve is refused.
  - `event.rs`, `record.rs` — the log's vocabulary.
  - `id.rs` — minted and supplied ids.
  - `instant.rs` — instants; parsing and printing ISO-8601 is `jiff`'s.
  - `ledger.rs` — the ledger's path, its significant lines, and its messages.
  - `cli.rs`, `a2a.rs`, `text.rs` — the command's plain values, the A2A names, and
    text helpers.
- `app/` — the program: command-line parsing, the ledger file, stdin, the clock,
  and the JSON on the wire.
- `tests/` — tests of the library through its public functions.

## Exit codes

`0` success, `1` a well-formed command that could not be carried out, `2` malformed
input. Errors go to stderr, never stdout.
