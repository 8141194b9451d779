# MineShield proxy

A reverse proxy for Minecraft servers. Clients are sent on to the server behind
the domain they have dialled; the servers learn who the clients are by the PROXY
protocol, version 2. Status requests are answered from a cache, and clients that
ping, connect or send too often are blocked for 300 seconds.

## Layout

- `src/` is the library `mineshield_proxy`. It makes all decisions, on plain
  values, and is verified with Verus but for the small functions that call into
  other crates (see below):
  - `wire`, `haproxy`, `text`, `addr`: formats of bytes and text
  - `limbo`, `session`, `status`, `forwarding`: what becomes of a client
  - `proxy`, `window`, `tables`: standings of addresses and rate limits
  - `config_loader`, `target`, `update_service`: configuration
  - `pinger`: asking servers for their status
  - `metrics`: counters for Prometheus
- `app/` is the program around the library: sockets, files, clocks, threads.
- `tests/` runs the library.

What the library takes on trust stands in functions marked
`#[verifier::external_body]` and in `assume_specification` items. Each of them
calls into another crate or the standard library, and says in its
documentation what is claimed of it.
