# gbfr_lan

The decision logic of a LAN multiplayer stack, verified with Verus.

Three parts meet in it:

- the broker: accounts, lobbies, their search, and the registry of the peers of a mesh, behind an
  HTTP server and a WebSocket;
- the lobby client: what a title calls to create, join, search, change and leave lobbies, answered
  in batches of changes;
- the party transport: networks of peers, a reliable datagram protocol between them, and the
  delivery of what happens to the title.

## Layout

- `src/` is the library. The modules from `broker` to `http` are the broker, those whose names
  begin with `lobby_` the lobby client (except `lobby_filter`, the filter and sort language of a
  search), and `reliable` with those from `wire` to `scan` the transport, whose messages `tally`
  counts. `json`, `text`, `bytes`,
  `assoc` and `numeral` are what they share; `notes`, `diag`, `traffic`, `probes` and the modules
  behind them write the lines of the log. `broker_laws` states what holds of the broker as a whole.
- `tests/` runs the library.
- `app/` is the program around it: sockets, files, the exported C interface, the reading of memory.

Time is handed in by the caller, and so is everything else that the library cannot compute by
itself: the entropy of an identifier, the value of a decimal numeral, a reply of the broker.
