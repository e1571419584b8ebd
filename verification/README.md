# genvm

The decision-making core of the GenVM executor, written in Verus: every
function in `src/` carries a contract, and the properties the runtime relies
on (a storage read gives back what was written, a refused charge changes no
bucket, a child VM never gets more rights than its parent, a checksummed
address differs from the plain hex only in letter case, UTF-8 text
decodes to its characters, ...) are stated and proved as proof functions next to the code.

Layout:

- `src/` — the verified library: ABI constants, the calldata decoder,
  page-based contract storage with its overlay, memory and fee accounting,
  runner ids and actions, the host wire protocol, `gl_call` permission and
  configuration rules, templates and the virtual file table.
- `tests/` — tests run against the compiled library with the real outside
  crates linked.
- `app/` — the unverified plumbing: the host socket, and the serde forms of
  runner files and JSON templates.
