# crabs

The decision logic of a personal agent that talks over WhatsApp, Telegram,
Trello, an editor protocol and an HTTP agent protocol, verified with Verus.

## Layout

- `src/` is the library. Every function states in its contract what it returns
  or changes, and Verus proves it.
  - `text`, `search`, `sort`, `window`, `paths`, `json`, `regexes`, `clock`:
    shared data structures and algorithms.
  - `context`: the token-budgeted conversation, its trimming and compaction.
  - `decisions`, `db`: cache keys, reports and the rows behind them.
  - `tools`: the agent's tools, each as a plan over plain values.
  - `whatsapp`, `telegram`, `trello`, `channels`: the messaging channels.
  - `acp`, `a2a`, `service`, `timeout`: sessions, turns and their rules.
- `app/` is ordinary Rust around the library: network, database, files and the
  async loops. It performs what the library decides.
- `tests/` run the library on concrete values.

## What is trusted

Calls into outside crates that only compute stand in `src/` behind small
functions marked `external_body`. Each doc comment says what is believed of the
call. Where the result takes pages to describe, the contract names it with a
spec function without a body and says nothing more of it than callers need.

## Laws

Public proof functions whose names start with `law_` state what holds across
several functions: what one call undoes, what every operation keeps, and what
never happens twice.

## Dependencies

`Cargo.toml` names `takecell` though no file uses it: `teloxide` depends on it,
and the line holds it to 0.1.1, the last release that builds with Rust older
than 1.96.
