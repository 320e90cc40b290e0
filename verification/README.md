# chud

The decision logic of a companion app for a live game client, written in Verus.

Every feature is a set of functions on plain values, or a state machine that
takes in what happened and says what to do next. The contracts say exactly what
is decided; the public proof functions state what holds across calls, such as
that a ready check is counted once, that a silent client is dropped, and that
what is saved of the registry of broken mods stays in step with it.

- `src/` is the verified library. What it takes from outside is in `json.rs`
  (`serde_json`), `digest.rs` (`sha2`) and at the top of `text.rs` (two functions
  of the standard library); each of those items says what is believed of it.
- `app/` is the code around the library: threads, sockets, HTTP, the Windows
  registry and the disk. It carries out the actions that the library returns.
- `tests/` runs the library with the outside crates linked.
