# tracer

A desktop usage tracker that records how long each application is in the
foreground and synchronises the records between devices through a WebDAV
server, end-to-end encrypted.

`src/` is the verified library (Verus). It holds the rules of the tracker and
of synchronisation, with their contracts:

- `merge`, `merge_meta`, `order`, `records`: merging session facts, device,
  application and category metadata; the merge laws (commutativity,
  idempotence, associativity, convergence).
- `crypto`, `stream`, `encoding`, `package`: the password-wrapped master key,
  the chunked authenticated stream format, the manifest and yearly packages,
  with their round-trip properties.
- `service`, `run`, `webdav`, `apply`: the decisions of a synchronisation
  run and its protocol as a state machine, the package list, the server's
  sync directory URL, remote names and directory listings, and which shared
  metadata is written locally.
- `owner`, `repo`, `stats`, `commands`, `types`, `numbers`, `text`,
  `process`: the tracker's segment state machine, category rules with glob
  patterns, the split of usage at local midnights, the usage chart, and the
  checks of the user-facing commands.

`app/` is ordinary Rust around it: SQLite storage, the WebDAV client, package
files (SQLite snapshots), JSON encoding, the operating system's protection
of the stored credentials, and the asynchronous tasks that perform the
actions the run protocol chooses.

`tests/` exercises the library on concrete values.
