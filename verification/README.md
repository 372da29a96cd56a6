# nexthop

A TCP/UDP relay (unicast, broadcast, multicast; cross-protocol) whose
decision-making core is verified with Verus.

## Layout

- `src/` — the verified library.
  - `config` — the configuration model, its defaults, the validation rules
    (`validate`, with the outcome of the address parsers passed in), and the
    TOML writer (`to_toml_string`).
  - `error` — the broken-rule kinds and their messages, and `RelayError`.
  - `stats` — wrapping counters with the invariant that the drop total is
    the sum of the per-reason drops, snapshots, and the Prometheus text
    rendering.
  - `transforms` — the per-destination pipeline (drop by size, byte swaps).
  - `rate_limiter` — an integer token bucket measured in nano-bytes.
  - `relay` — destination identity and the old/new list diff, per-destination
    live settings, source intake and fan-out accounting; `relay::reload`
    (what a configuration reload changes), `relay::supervisor` (the running
    destinations, keyed by identity), `relay::peers` (peers of server-mode
    destinations), `relay::health` (the HTTP health/stats/metrics responses).
  - `commands`, `prefs`, `cli` — what the front end and the command line
    compute.
- `tests/` — tests of the library.
- `app/` — the binary: command line, logging, file and socket I/O, the tokio
  tasks, the configuration watcher and the health listener, all driving the
  library.

## Keyed collections

The running destinations (`relay::supervisor::DestSupervisor`) and the
peers of a server-mode destination (`relay::peers::PeerTable`) are kept in
a `Vec` of key/value pairs with the invariant that no key occurs twice,
rather than in a `HashMap`/`HashSet`. Their keys are structs (a
destination's identity holds strings; a peer address holds several
integers). vstd's hash-map specifications need a key type whose hashing
and equality Verus knows; with a `HashMap<PeerAddr, u32>`, Verus accepts
`insert` but cannot prove even that one insertion into an empty map leaves
one entry. The `Vec` form lets every lookup, insertion and removal be stated
and proved exactly.
