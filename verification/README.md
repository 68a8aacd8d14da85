# port-knocking-doors

A port-knocking daemon. It listens on the UDP ports of a knock sequence; a client
that sends a `knock` datagram to each of them, in order, gets the controlled TCP
ports of the firewall (firewalld zone `knock-access`) opened for its own address
only (`/32` for IPv4, `/128` for IPv6) for a while. A wrong port sends the client back to the start and makes the daemon ignore
it for a few seconds.

Layout:

- `src/`: the library, with its contracts and proofs. `pattern` (formats of the settings,
  checked with `regex`), `data` (settings in force and their reading as numbers),
  `knock` and `knockers` (the clients moving along the sequence, with the laws of
  that state machine), `door` (open doors and their expiry), `firewall` (which
  firewall, zone check-up, rule arguments), `workflow` (messages and periodic
  chores), `config` and `args`.
- `app/`: the program around it: command line (clap), configuration files (TOML),
  environment, UDP sockets, threads and channels, and the `firewall-cmd` commands.
- `tests/`: tests of the library.

Settings: `--magic-seq` / `KNOCKER_SEQ` (5 to 20 ports, default
`16001,16002,16003,16004,16005`), `--ports` / `KNOCKER_PORTS` (1 to 20 ports,
default `22`), `--conf` (configuration file, else `~/.port_knocker.toml`, else
`/etc/port_knocker.toml`).
