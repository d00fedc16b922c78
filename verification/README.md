# holofs

The logic of a holographic object store, with its behaviour stated in contracts and proved by
Verus: the nodes that keep shards, and the gateway that people and programs talk to.

- `src/` is the library. A node's store is a row of shards and a log; `store`, `wal`, `recovery`
  and `compaction` say what each operation does to both, also where the disk fails. `wal_laws` and
  `writer_laws` prove what is read back from a log, whole, cut or altered; `durability` and
  `restart` prove that a restart or a compaction loses nothing, that a queue which was carried out
  only in part loses nothing either, and that a crash loses no put that was published. `keyring` and
  `crypto` seal what is kept, `identity`, `whitelist` and `handshake` decide who is let in, `node`
  answers requests. For the gateway there are the catalog (`filter`, `catalog`, `tree`,
  `catalog_view`), the replies (`http`, `handlers`, `pictures`, `metrics`, `help`), access (`access`,
  `audit`) and the start of a cluster (`bootstrap`, `cli`, `config_file`, `tls`, `certificates`,
  `wire`).
- What the library needs of other crates (SHA-256, AES-GCM, Ed25519, regular expressions, Markdown,
  PNG, certificates) stands behind small functions whose contracts say what is relied upon.
- `tests/` runs the library on concrete values.
- `app/` holds what is left: sockets, files, the command line, and the routes of the HTTP server.

The library does no input or output. A store queues what is to be done on disk; `app/` does it and
reports how far it came, and what was not done stays in the queue. What waits for the disk comes in
two halves: the first queues, the second is told what came of it, and only then publishes or drops
anything. A purge whose record could not be written drops nothing and is answered with an error; as
its record stays in the queue, it can still take effect at the next start. A function that needs the
time, a file or an answer from the network takes it as an argument.
