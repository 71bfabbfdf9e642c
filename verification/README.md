# deej-rs

A controller for physical volume sliders on Linux: an Arduino-style board reports slider
positions over a serial line (`401|410|517|561|612`), and the daemon turns them into volume
changes on a PulseAudio server.

## Layout

- `src/` is the verified library (Verus).
  - `text.rs`: trimming and `u16` parsing on characters.
  - `slider.rs`: decoding a serial line into a frame of normalized volumes, and the moving-average
    smoother that decides which sliders moved enough to be acted on.
  - `config.rs`: resolution of the configuration file's contents (`master`, `mic`,
    `deej.unmapped` and process names) into the service configuration.
  - `service.rs`: which volume requests a slider frame gives rise to.
  - `supervisor.rs`: what the daemon does when its configuration file changes, when shutdown is
    requested, and when the service ends by itself.
  - `serial_policy.rs`: when the serial reader reconnects, how long it waits first, and when it
    stops.
  - `audio/`: volume targets, fixed-point normalized volumes, adapter errors, the registry of the
    last volume requested per target, and what a request asks of PulseAudio.
  - `pulse/`: interest masks for server events and the dispatcher that routes events to
    subscriptions and tracks the union of their interests. Its event channels are those of the
    `futures` crate, reached through a few trusted wrappers. `pulse/worker.rs` holds the decisions
    of the thread that owns the server connection: how its startup ends, and what it does with
    each message while connecting and once connected.
- `tests/` exercises the library on concrete values.
- `app/` is the daemon around it: argument handling, logging, reading the YAML file, the serial
  port, the async service loop and the `libpulse` worker thread.

Volumes are fixed-point: a `NormalizedVolume` holds a number of millionths of full volume.
