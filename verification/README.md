# tttt

The core of a terminal multiplexer for coding agents: sessions on pseudo-terminals, what their
screens show, how they are drawn, scheduled, logged and replayed, and the tools by which agents work
with them. The library in `src/` is written in Verus: every function has a contract, and every
contract is proved.

## Layout

- `src/vt100/` interprets the output of programs and keeps their screens; `screen`, `session`,
  `manager`, `backend` and `device` make sessions of them.
- `src/input`, `keys`, `selection`, `pane_renderer`, `pty_widget`, `sidebar`, `sidebar_widget` and
  `vt100_style` are the user interface; `protocol` and `viewer` serve viewers elsewhere.
- `src/scheduler`, `notification`, `sandbox`, `event`, `base64`, `logging` and `replay` are
  reminders, watchers, permissions and logs.
- `src/mcp/` has the tools: what they are called, what they take, what they answer, and the server
  and the bridge that agents talk to.
- `app/` is the program around the library: processes, files, sockets, the database and the
  terminal.
- `tests/` runs the library.

## How the library and the program divide the work

The library reads no clock, no file and no socket. A call of a tool that takes a while, needs a
process or looks into the log returns a `Step` that says what to do; the program does it and hands
the result back. Bridges and connections are state machines in the same way.

## What is not proved

Regular expressions (`regex`), JSON (`serde_json`) and time zones (`chrono`, `chrono_tz`) are taken
at their word: `src/pattern.rs`, `src/json.rs` and `src/mcp/rate_limit.rs` name what those crates
return, and state it where that is short, as for JSON strings. Of the standard library,
`String::push`, `char::from_u32` and `Duration`'s `new`, `as_secs_f64` and `try_from_secs_f64` are
taken at theirs. Everything else in `src/` is proved.
