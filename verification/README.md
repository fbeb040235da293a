# Lovense Intiface Bridge

A bridge that serves the Lovense Standard/LAN HTTP and HTTPS API and drives
Buttplug (Intiface Central) devices.

- `src/` is the verified library: response envelopes and toy descriptions
  (`lovense`), the JSON text of `GetToys` (`json`), request building and
  command dispatch (`server`), the command handlers' decisions (`commands`),
  the string-keyed stores for PatternV2 timelines and task cancellation
  (`store`), character-level text handling (`text`), and the few calls into std
  and outside crates (`serde_urlencoded`, `serde_json`) whose contracts are
  trusted (`external`).
- `app/` is the program around it: the Tokio/Axum servers, TLS, the Buttplug
  client, timers, the JSON decoding of request bodies, and the strength ratios
  and waveforms, which are floating point numbers.

## The stores

The server keeps its PatternV2 timelines and the cancellation handles of
running tasks in maps keyed by strings. The library holds them in
`store::StringKeyedMap`, a vector of key/value pairs that keeps each key at
most once (its type invariant), rather than in a `HashMap<String, _>`: vstd's
specification of `HashMap` lets Verus prove what a map holds only for keys
whose hashing and equality it knows, which `String` keys are not, so with a
`HashMap` no contract of the stores could be proved. The stores are small (one
timeline, one handle per running task), so a linear search costs nothing
noticeable.

A new command cancels every running task that drives one of its toys: the
task started for all toys, each task whose id is exactly one of the toy ids
(an id may itself hold a comma), and each task whose id (the toy ids it was
started for, joined by commas) lists one of them.
