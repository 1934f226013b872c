# lean-helix-view

A Lean 4 infoview for the Helix editor. Helix talks to a proxy as if it were
the Lean server; the proxy forwards every byte untouched, asks Lean for the
goals at the cursor on the side, and publishes them to a viewer.

- `src/` is the library, verified with Verus: frame codec, message
  classification, forwarding, session and focus, goal queries, the state and
  its rendering, and the decisions of start-up, shutdown and reconnecting.
- `tests/` runs it on concrete values.
- `app/` is the program around it: command line, streams, processes, sockets
  and files.

What the library promises as a whole is stated as public proof functions, most
of them in `codec`, `forward` and `query`: forwarded bytes are never altered,
frames are never interleaved, and the answer to a query of the proxy's own is
kept from Helix while the query awaits it. A server that answers one query
twice has its second answer forwarded, as any response to an id that nobody
awaits.

What it takes on trust are the contracts of the functions marked
`external_body`. Each stands above a single call into `serde_json`, `tokio` or
`std` and says what it claims of it.
