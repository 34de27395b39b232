# marcel_ssh

The core of the Marcel SSH client as a library verified with Verus, and a
small command-line front end around it.

- `src/` — the verified library. Each public function states in its
  contract what it returns or changes; the laws that span several
  functions are public proof functions beside them. Calls into `zip`,
  `chrono`, `semver`, `serde_json` and `uuid` (a random v4 id for remote
  sidecar files) go through a few trusted wrappers, each documented where
  it stands. So do three std calls that vstd gives no contract:
  `String::push`, `str::to_uppercase` and `char::is_numeric`.
- `tests/` — tests run against the compiled library.
- `app/` — the front end: configuration files on disk, HTTP requests,
  the segmented downloader's network side, archive extraction onto disk,
  plugin installation and updates on disk, and crash bookkeeping, all driven by the library's decisions.

Run `verus` on `src/lib.rs` to check the library.
