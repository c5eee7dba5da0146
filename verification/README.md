# sinew

Peer discovery and messaging between coding sessions on one machine. A
broker daemon keeps a registry of sessions and a queue of messages between
them; each session runs an MCP server that registers with the broker, sends
heartbeats, polls for messages, and offers the tools `list_peers`,
`send_message`, `set_summary` and `check_messages`.

## Layout

- `src/` is the verified library.
  - `broker/db.rs`: the broker's store (peers and messages), its model
    `DbView`, its invariant, and the laws of registration, listing and
    message delivery.
  - `broker/routes.rs`: what each HTTP route answers and does to the store.
  - `broker.rs`: the stale-peer sweep.
  - `mcp/`: the broker client's addressing and status check, the broker
    bring-up state machine, the lifecycle decisions (port, failure counter,
    registration, sender lookup), the tools' replies, and the summary
    helpers.
  - `text.rs`, `process.rs`, `types.rs`: string operations, the process
    liveness probe, and the shared records.
- `tests/`: the test suite.
- `app/`: the `sinew` executable: the HTTP server, the HTTP client, the MCP
  transport, process spawning, signals and timers.

## Channel notifications

Incoming messages are pushed to the MCP client as channel notifications
in a namespace that the client names; set it in `SINEW_CHANNEL_NAMESPACE`.
Without it, messages stay queued until `check_messages` fetches them.

## Platform

The process liveness probe is a POSIX signal-0 probe, so the crate targets
Unix systems.
