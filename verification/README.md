# Pelagian Shell layout and configuration library

A Verus-verified library for the Pelagian Shell's layout daemon and configuration
tool, with a thin Rust executable around it.

- `src/` is the library. `planner` and `workspace` hold the window model,
  classification and the one-to-six window layouts; `labwc` and `xwayland` hold
  the two compositor adapters' decisions (events from observations, convergence,
  action requests, `wmctrl` mutations and restore geometry); `daemon` holds the
  reconciliation loop's decisions (health, deadline, retries); `config` and
  `shell` hold layered configuration resolution and the `status` document;
  `text`, `lines`, `glob` and `keyed` are the verified string, parsing and
  ordered-table helpers they share.
- `app/` performs the I/O: the Labwc socket, the X11 tools, the state file,
  TOML and JSON decoding, and the two command lines (`pelagian-layoutd`,
  `pelagian-shellctl`, chosen by the executable's name).
- `tests/` exercises the library on concrete scenarios.
