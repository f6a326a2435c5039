# openiwan

The protocol and policy core of a client for iWAN-compatible networks, written in
Verus: every function in `src/` is verified against its contract, except the
wrappers around other crates that are named at the end.

- `src/` holds the library. `client`, `session`, `fragment`, `crypto` and
  `protocol` decide what a session sends and how it takes packets; `dns` decides
  which questions go through the tunnel, are answered, dropped or relayed; `cli`
  decides what the command line asks for, from options to profiles, logins, routes
  and forwarding.
- `app/` holds what the library leaves to ordinary Rust: sockets, files, the
  credential store, host commands, the userspace network stack and the command
  line itself. The packet format, the tunnel driver and the controller client are
  traits there, to be implemented by the build that links them.
- `tests/` runs the library on concrete values.

What the library takes from other crates stands behind small wrappers whose
contracts are trusted, and stated next to the calls: digests and ciphers, DNS
messages, URLs, HTTP headers, certificates and JSON in files, and random numbers.
