# proglog

A commit log, verified with Verus: records are appended to segments, each with a
store and an index, and are read back by their offsets.

- `src/log/` holds the log: stores, indexes, segments, the names of their files,
  readers, and what holds of a log as a whole (`laws.rs`).
- `src/server/` holds the services: what a peer is answered over gRPC, the log in
  memory that is served over HTTP, and what holds of them (`laws.rs`).
- `src/auth/` decides on requests by a policy of `casbin`.
- `src/config/` says where settings lie and how connections are secured.
- `app/` reads and writes the files, and speaks HTTP and gRPC.
- `tests/` runs the library with the crates that it calls.

The library works on the contents of files. It never touches a disk or a socket:
the program hands it the files of a directory, and writes down what it says is in
them.
