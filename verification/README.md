# ktuctl

Control tools for the tutuicmptunnel kernel module, with their logic
verified by Verus.

- `ktuctl` configures the module over generic netlink: server or client
  mode, peers, users, interfaces, status, and dumps that replay as scripts.
- `tuctl-client` and `tuctl-server` carry such scripts over UDP, encrypted
  with XChaCha20-Poly1305 under a key that Argon2id derives from a
  pre-shared key, with a replay window on both sides.

## Layout

- `src/` is the verified library:
  - `wire`, `config`, `netlink`: byte order, the module's structures and
    their encoding, generic-netlink messages and the scanning of replies;
  - `text`, `uid_map`, `helper`, `error`: text handling, the user table,
    addresses, comments, XOR keys, and why a command is refused;
  - `commands`, `report`, `script`, `cli`: what each command reads from its
    arguments and hands to the module, what it prints, and how scripts and
    the command line select commands;
  - `tunnel`, `client`, `server`: the encrypted packet, the replay window,
    padding, and the decisions of the remote-control client and server.
- `app/` holds what talks to the outside world: the netlink socket, name
  resolution, files, UDP, child processes, and the command-line parsers.
- `tests/` runs the library on concrete values.
