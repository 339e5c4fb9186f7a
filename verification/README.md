# udp_balancer

A UDP request balancer. Clients poll a list of servers for their load, send
each request to the least loaded one, wait for its echo and keep per-server
statistics; servers answer load queries, queue requests and echo them back in
arrival order. A two-party mode forwards typed lines and acknowledges them.

- `src/` — the verified library (Verus): byte formats (`wire`), text handling
  (`text`), the server list (`config`), the client's server choice and
  statistics (`client`), the server's load and queue (`server`), the
  two-party mode (`peer`), and properties spanning them (`laws`).
- `app/` — the program: sockets, threads, timers and files around the library.
- `tests/` — tests of the library.
