# vaultkey

A library for managing secret bundles (access rules, aliases, keys, tags,
pins, expiry and time-to-live entries, snapshots, backups, exports, templates,
rotation to a new recipient), written in Verus: each public function carries a
contract that Verus proves.

- `src/` — the verified library. Collections are modelled as sequences of
  `(key, value)` pairs without repeated keys (`strmap`); each module states its
  operations over that model, and the `law_*` proof functions state what holds
  across several calls.
- `tests/` — tests on concrete values.
- `app/` — the command-line program around the library: files, the clock's
  reading where a command needs one, the `gpg` process, and serde copies of the
  library's types.

Calls into outside crates (`flate2`, `base64`, `serde_json`, `toml`, `chrono`)
and into std where vstd gives no specification go through small wrappers in
`src/`, whose contracts are trusted; each one's doc comment says what it claims.
