# r2n

A virtual LAN overlay. Edges join a room, and exchange packets as if they shared
one network; a supernode hands out rooms and addresses, introduces the members to
each other and relays what cannot travel directly.

- `src/` is the library. It holds every decision that edge and supernode make, as
  verified functions with contracts: wire formats, addressing, policy, replay
  protection, switching, the control state machines and their configuration.
- `tests/` runs the library on concrete values.
- `app/` is the program around it: sockets, devices, routes, clocks and files,
  and whatever is computed in floating point.

## The library

| modules | what they hold |
| --- | --- |
| `bytes`, `text`, `sort`, `table`, `slab`, `qos` | data structures |
| `common`, `net`, `address`, `invite`, `proto`, `transport`, `stun`, `json` | names, addresses and formats |
| `crypto` | sealing, replay windows and handshakes |
| `packet`, `discovery`, `policy`, `defense`, `rewrite`, `ethernet`, `flood`, `tun`, `route` | packets and what is done to them |
| `path`, `rendezvous`, `nat_probe`, `port_mapping` | how peers reach one another |
| `metrics`, `dataplane`, `incoming`, `outgoing` | the data plane |
| `room`, `supernode`, `upkeep`, `management` | the supernode |
| `edge`, `edge_control`, `edge_handshake`, `edge_commands`, `endpoints`, `history`, `reports`, `ipc`, `cli`, `config` | the edge and its clients |

Times are nanoseconds on a clock that the program reads; the library takes them
as arguments. What the library has from other crates is declared in wrappers
whose comments say what is relied on.
