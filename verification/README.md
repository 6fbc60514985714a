# markitel_helper

The verified core of the Markitel Helper, the tray app that installs the
Markitel MT5 bridge: it keys the bridge EA with the user's API key,
whitelists `https://markitel.com` in each terminal's `terminal.ini`,
recognises MT5 terminals and processes, reads the pairing code of a
`markitel://pair?code=...` link, steps through the pairing flow (exchange,
key save, auto-install unless MT5 runs), and decides what each install
step reports.

- `src/` — the library, proved with Verus. `text.rs` models the string
  operations (`trim`, `lines`, `find`, `replace`, `parse::<i32>`, ...) on
  character sequences; `ini_writer.rs` holds the `terminal.ini` edit and
  its laws (the edited file is whitelisted, a second edit is a no-op, the
  new index is above every existing one); `ea_writer.rs` the EA keying;
  `mt5_discovery.rs` broker classification, process matching and the
  deduplication of terminals; `pairing.rs` the pairing code and the pairing flow's steps; the other
  modules the per-command decisions.
- `tests/` — tests of the library on concrete values.
- `app/` — the Tauri app around it: file system, keychain, HTTP, processes.
