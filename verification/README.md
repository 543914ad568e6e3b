# portal

Publishes game servers on a private network through a rented server, with no
port forwarding and no exposed home address.

- `src/` is the library, verified with Verus: port and address allocation, the
  store, DNS reconciliation, firewall and WireGuard configuration, the API's
  rules, and the agent's forwarding state.
- `app/` is the program around it: `portal gateway` and `portal agent`. It opens
  sockets and files, keeps the store in SQLite, and talks to Cloudflare.
- `tests/` runs the library on concrete values.

What is taken on trust is marked where it stands: calls into the `base64`,
`rand`, `sha2`, `time`, `uuid` and `x25519-dalek` crates, and `String::push`.
