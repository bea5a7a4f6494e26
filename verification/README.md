# chirpmunk

The logic of a LoRa transceiver daemon, written in Rust and proved with Verus: the CBOR wire protocol,
the subscriber registry of its UDP fan-out, the dedup of packets that several receive chains hear, the
carrying out of transmit requests with listen-before-talk, the burst logic of the hardware sinks, and
the daemon's start-up.

## Layout

| Path | What it holds |
|---|---|
| `src/cbor/` | The frames of the wire protocol: what they look like as bytes, how they are written and read, that what is written reads back, and that the order of keys does not matter. |
| `src/blocks/` | The receive and transmit path: frame sink, dedup, channel activity, dispatch, sinks, and the plans of receivers for several bandwidths and spreading factors. |
| `src/udp.rs` | Who is subscribed, who is sent what, who is dropped. |
| `src/config.rs`, `src/daemon.rs` | The configuration tree, and what the daemon makes of it. |
| `src/ui.rs` | The decisions of the browser frontend. |
| `src/double.rs`, `src/text.rs` | Numbers by their bit patterns; text. |
| `tests/` | Tests of the library on concrete values. |
| `app/` | The program around the library: command line, sockets, clocks, flowgraph, browser components. |

Measurements are held by their IEEE 754 bit patterns: the library compares, widens and stores them, and
leaves arithmetic to the program. The library does no I/O and has no clock. State machines are given
what happened and answer with what to do next.

## Trust

Calls into `minicbor`, `chrono`, `uuid` and two functions on strings stand behind small functions whose
contracts are believed, not proved; each says in its comment what it claims. All else in `src/` is
proved.
