# wayward

Audits which applications hold persistent desktop-portal permissions on a
Wayland session, and finds out whom they belong to.

- `src/` is the library, written and verified in Verus: every function carries a
  contract, and the public `law_*` proof functions state what holds across them.
- `app/` is the program around it: the command line, the session bus, files and
  the terminal.
- `tests/` run the library on concrete values.

## Trusted base

The proofs rest on the contracts of a few calls into other crates and the
standard library. Each stands behind a function of its own, with a comment on
what is claimed of it: the colours in `style.rs`, the clock and the calendar in
`clock.rs`, letter case and lossy decoding in `format.rs`, JSON in `json.rs`,
bus names in `sessions.rs`, and `String::push` in `text.rs`.
