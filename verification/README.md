# ssh_core

The core of a desktop SSH server manager: host inventory, pinned host keys,
an encrypted credential vault, background jobs, health probes, port
forwarding and the bookkeeping of open sessions and terminals.

- `src/` is the library, verified with Verus. Every store, every decision
  about a connection, a job, a forward or a health report is a function with
  a contract here, and the laws that tie them together (what a read gives
  back after a write, what a cleanup leaves behind, the order of listings)
  are proof functions next to them. Calls into `argon2`,
  `chacha20poly1305`, `base64`, `rand`, `uuid` and `dirs`, and the clock,
  are trusted wrappers whose contracts say what those crates document.
- `app/` is the runtime around it: JSON files on disk, russh connections,
  SFTP, TCP listeners, tokio tasks and the event bus. It asks the library
  for every decision and performs the I/O.
- `tests/` exercises the library on concrete values.
