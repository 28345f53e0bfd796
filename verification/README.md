# parlor

Concurrent ML style events for Scheme programs on tokio: events are values,
composed with `choose` and `wrap`, and resolved by `sync`.

`src/` is the verified core:

- `state`, `flag`: the Waiting / Claimed / Synched flag of a sync, with
  compare-and-swap; all alternatives of a choice share one flag, and a flag
  commits at most once.
- `channel`, `channel_laws`: the channel protocol (blocked senders and
  receivers, the double-claim rendezvous, the FIFO buffer of buffered
  channels, lazy sweeping of finished waiters) as exact transitions, and
  their laws.
- `event`: `choose` flattening, `wrap`, and the random order in which a
  choice tries its ready alternatives.
- `conditions`, `timers`: single-shot conditions and timer readiness.
- `queue`: the `imbl` persistent vectors behind the channel queues.

`app/` holds the Scheme bridges, the async sync loop and the I/O, task and
timer plumbing; it performs what the core decides.
