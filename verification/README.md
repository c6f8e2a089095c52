# pnpd

The network policy daemon: a wire tap with a bounded backlog, the kernel's
verdict stream, policy authoring, and a small HTTP server for the viewer.

`src/` is the verified library. It decides and computes everything the daemon
does between two system calls:

- `ring`, `fanout`: the packet backlog and its live subscribers
- `capture`: what becomes of each frame
- `engine`: the verdict ring, and the kernel's records as bytes
- `policy`, `walk`: showing, typing, writing and deleting rules
- `http`, `report`, `json`, `log`: requests, replies and every text that is sent
- `stream`: the live event stream of a client
- `sid`, `sha1`: security identifiers and the names behind them
- `text`, `bytes`: the vocabulary the rest is stated in
- `policy_laws`, `walk_laws`, `query_laws`, `stream_laws`: promises that span
  several functions; the laws of the other modules stand beside what they are
  about, under `law_` names

`app/` is the daemon around it: sockets, the device, the registry and threads.
`tests/` runs the library from outside.
