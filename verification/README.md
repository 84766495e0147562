# firmware

The logic of a Somfy RTS shade controller running on an ESP32-S3, written in
Verus and proved against its contracts.

`src/` is the library. Each module holds one part of the controller's own
rules, stated over plain values and verified:

| module | what it decides |
|---|---|
| `diag` | the reset-surviving log ring (whole-line eviction, checksummed header) and panic record |
| `inventory`, `bounded` | the shades a broker session announces, in fixed-capacity `heapless` storage |
| `mqtt`, `session`, `edits`, `form`, `device`, `wire` | inbound command decoding, tracked shade state, the session's bookkeeping and the shade-table events it answers, the add-a-shade form, the device-level readings, which publish failures end a session |
| `api`, `assets` | WebSocket slots that leave REST two tasks, response statuses per route, JSON listing framing, `Accept-Encoding` negotiation |
| `ota`, `upload` | the over-the-air self-test, the page-by-page image upload and the one-upload-at-a-time right |
| `config`, `estate`, `region` | what a scan of a flash ring adds up to, superseded broker namespaces, and where a ring may live |
| `heap`, `startup` | the stack and heap budgets, and the boot checks |
| `net`, `mdns`, `identity` | socket count, association logging, signal reading, announcement schedule, hostname |
| `checks` | the bench round-trip checks' verdicts |

Outside crates the logic calls — `crc` for record checksums and `heapless`
for fixed-capacity collections — are reached through small trusted wrappers
whose contracts say what the crates' sources show.

`app/` is the firmware image around the library: hardware bring-up, flash and
network I/O, and the async tasks. It depends on the chip support crates and
on the project's domain crates.

`tests/` exercise the library on concrete values.
