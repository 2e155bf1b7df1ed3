# sectorsync

Synchronization mechanics for spatial, real-time entity replication across several simulation
stations, written in Rust and verified with Verus. The library owns how frames are encoded, how
packets are secured, retried and queued, and how stations hand over entities and share load. It
owns no game rules, no cryptography and no sockets.

## Layout

`src/` is the library. Every function in it is verified against the contract in its header.

- Wire format: `frames` holds the frame types, `wire_spec` says which bytes each frame is, and
  `wire_codec`, `frame_builder` and `frame_ref` write and read them. `wire_laws` proves that
  decoding undoes encoding and that truncated or extended frames are refused.
- Packet transport: `packets` and `memory_transport` hold the transports and their queues,
  `udp_routes` decides where datagrams go, `reliable_*` retries and acknowledges packets, and
  `security_*`, `key_ring` and `replay` frame sealed packets and refuse replayed ones.
- Stations: `station`, `station_set`, `station_registry`, `cell_index` and `ownership` hold the
  state. `load_sampler`, `split_scheduler`, `split_execution`, `migration` and `station_scheduler`
  measure load and move cells. `event_router` delivers events between stations.
- Coordination: `barrier*`, `gateway*` and `deployment` cover upgrade barriers, command admission
  and the routes from stations to nodes. The `*_bridge` modules, with `replication_receive`, connect
  these to a transport, and `parallel` plans replication on a worker pool.

Laws that span several functions are public proof functions whose names begin with `law_`.

What the library does not decide is handed in. Ciphers, transports, queues, admission, handoff and
snapshot hooks are traits or arguments, and the contracts hold for whatever they answer.

What is believed without proof is small: the capacities of standard collections, in `memory`, and
the calls to `rayon`, in `parallel`.

`app/` is ordinary Rust around the library: UDP sockets, a hub shared between threads, the host's
parallelism and the texts of the errors. `tests/` runs the library.
