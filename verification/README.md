# ade

The workspace, layout and daemon logic of a Windows terminal-workspace manager, verified with
Verus.

- `src/` is the verified library: split layouts (`layout`, `layout_laws`), the daemon's state
  machine (`daemon`, `daemon_laws`, and the whole-state invariant that every request keeps in
  `daemon_invariant`), the output hub and replay buffers (`hub`, `osc`), OSC
  handling and synchronized-output framing (`terminal_output`), file URLs (`file_url`), key and
  paste encoding (`keys`), the frame and pipe protocol (`protocol`), ConPTY command lines and the
  session model (`pty`), Git status parsing (`git`), Codex usage labels (`usage`) and display
  helpers (`ui`).
- `tests/` runs the library on concrete values.
- `app/` is the command-line client with the I/O around the library: pipe frames with serde,
  the SQLite store, running git, and reading the Codex usage reply.
