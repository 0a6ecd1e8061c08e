# frontdoor

A TLS-aware front door, verified with Verus. It listens on a public port,
reads the server name out of each TLS ClientHello, looks the name up in a
routing table, and bridges the raw, still encrypted stream to the backend for
that name. It terminates no TLS: backends see the stream from byte zero.

## Routing

The configuration is a JSON object:

```json
{
  "default_backend": "127.0.0.1:8443",
  "routes": [
    { "hostname": "mail.colinrozzi.com", "backend": "127.0.0.1:8443" }
  ]
}
```

Each part may be left out. `public_listen_addr` and `control_listen_addr`, where
given, replace the addresses `0.0.0.0:443` and `127.0.0.1:9100`.

Host names match exactly. A connection that names no host, or a host without a
route, goes to the default backend; without one it is dropped.

The first byte of a connection tells what it is: `0x16` starts a TLS record,
`{` starts a line of JSON, and anything else is dropped. Lines of JSON change the table while the front door runs:

```
{"op":"upsert_route","hostname":"tickets.colinrozzi.com","backend":"127.0.0.1:8444"}
{"op":"delete_route","hostname":"tickets.colinrozzi.com"}
{"op":"set_default","backend":"127.0.0.1:8443"}
{"op":"list_routes"}
```

Such lines are meant to come on the control port, which is bound to loopback
only. The front door does not tell its two listeners apart, though: a line of
JSON that arrives on the public port is carried out too. Whoever can reach
either port can rewrite the routes.

Connections that are already bridged are unaffected. Where one end of a bridge is
closed, or its stream ends, both ends are closed.

## Layout

```
src/
  wire.rs          a cursor over bytes
  sni.rs           the server name parser
  hello.rs         ClientHello records as they are sent, and what the parser finds
  text.rs          strings
  json.rs          JSON strings
  seqs.rs          sequences
  state.rs         routes, pending connections, pipes
  control.rs       the control channel
  control_laws.rs  what holds of the control channel as a whole
  init.rs          starting up
  actor.rs         the life of a connection, as a state machine
  actor_laws.rs    what holds of connections over their whole life
  stream_laws.rs   what becomes of their bytes
app/               the actor around the library: host calls, JSON, logging
tests/             the library on concrete values
```

Each function of `src/` that handles an event returns what the host is to do
next; `app/` does it and hands the outcome back.
