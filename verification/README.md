# Drone

A drone of a simulated packet network, as a library that is verified with Verus.

- `src/drone.rs` holds the drone, `MyDrone`. It is handed packets and commands, and hands out
  what is to be sent to its neighbours and to the simulation controller.
- `src/drone_model.rs` says what the drone does, over mathematical values. The contracts in
  `src/drone.rs` are stated in its terms.
- `src/drone_laws.rs` and `src/run_laws.rs` prove what holds of the drone as a whole.
- `src/flood_history.rs` and `src/ring_buffer.rs` hold the floods that a drone remembers,
  `src/network.rs`, `src/packet.rs` and `src/controller.rs` the messages.
- `src/networking/flooder.rs` holds the flooding behaviour for other kinds of nodes.
- `src/drop_rate.rs` is the only place where something is trusted: the sampling of a Bernoulli
  distribution of the crate `rand`.
- `app/` runs the drone on crossbeam channels.

## Logging

Set the environment variable `RUST_LOG` to the desired level. By default everything is logged in
debug builds, and only errors are in release builds.

## Remembered floods

By default the drone keeps track of the last 64 flood ids of every initiator. A drone made by
`with_flood_memory` with `UNLIMITED_BUFF_SZ` keeps track of all of them.
