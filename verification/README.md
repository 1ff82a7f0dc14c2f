# RoboProtocol

A protocol for driving a robot from afar over QUIC, with the safety rules that
go with it: who is in control, when the robot stops by itself, and what it takes
before it moves again.

`src/` is the library. It holds the rules and formats of the protocol and what
its two ends decide, stated in contracts and proved with Verus. It reads no
clock, opens no socket and touches no file: it takes what happened and what time
it is, and returns what is to be done. `app/` holds the programs that do it: the
robot's end, the operator's console, the headset gateway and the tools. They
read their arguments and settings files, wait, and print.

## The library

| Modules | What they hold |
| --- | --- |
| `time`, `timestamp`, `fixed`, `single`, `text`, `wire` | instants, round-trip times, fixed-point numbers, single-precision bit patterns, text, byte order |
| `fb`, `fb_table` | FlatBuffers tables: what the `flatbuffers` crate writes, and checks before anything is read |
| `hello`, `hello_handler`, `session_handler` | negotiation, and the description and acceptance of a session |
| `profile`, `xgo_profile`, `sizing`, `command` | robot profiles, the layouts derived from them, datagram sizes, quantized commands |
| `datagram`, `channel_a`, `channel_b`, `video`, `reassembly` | tags, telemetry and command frames, video units and their pieces |
| `estop`, `action_trigger`, `action_trigger_handler`, `camera_control`, `camera_control_handler` | stops, one-shot actions and camera settings, each applied at most once |
| `safety` | latency tiers, the watchdog, the resume interlock, and who is in control |
| `session`, `bridge`, `capture`, `restart` | the robot's end: its session, its driver process and its camera process |
| `client`, `client_state`, `input`, `gamepad`, `ui`, `playback`, `session_cache`, `options` | the operator's end |
| `recording`, `recorder`, `replay_decode` | the format of recordings, what is kept and for how long, and what is printed of them |
| `picture`, `gateway`, `zenoh_bridge`, `zenoh_monitor`, `interpolation` | decoded pictures, the headset gateway, the sidecar, its monitor, and motion between samples |
| `action` | what the two ends ask for |

Quantities that are floating-point numbers on the wire are held as their bit
patterns, as fractions, or in whole hundredths, thousandths or millionths; each
module says which.

## Trust

The calls into `flatbuffers`, the decoder of `openh264`, the JPEG encoder of
`image` and two calls into the standard library's UTF-8 functions are wrapped,
and the contracts of the wrappers are believed. They are the functions marked
`external_body` in `fb.rs`, `picture.rs` and `replay_decode.rs`. All else is
proved.
