# detour

Route live cloud traffic to your local machine.

A sidecar in front of a cloud service looks at the start of each connection. One that carries
`X-Route-To: <session>` is relayed through a broker and the tunnel of an agent to a port on your
machine; everyone else reaches the service. A preloaded layer leads the outbound connections of a
local process the other way, through the agent into the cloud.

```
client ──▶ sidecar ──┬─ no X-Route-To ────────────▶ the service
                     └─ X-Route-To: <session> ──▶ broker ──▶ agent ──▶ localhost:<port>
```

## Layout

- `src/` is the library. Every decision of the programs is made here, and every function has a
  contract that Verus proves.
  - `model/`: configuration, sessions, messages, frames of raw connections.
  - `sidecar/`: sniffing HTTP/1.x and HTTP/2, the session cache, where a connection goes.
  - `broker/`: authorization, the session registry, the calls that a broker serves.
  - `agent/`: the tunnel, local calls and connections, the SOCKS5 proxy, the status report.
  - `layer/`: made-up addresses, lookups, which connections are tunneled, carrying the route on.
  - `cli/`: the commands `env`, `run`, `start` and `status`.
  - `journey.rs`: what holds of a connection on its whole way.
  - `text.rs`, `json.rs`, `headers.rs`: what the others are made of.
- `app/` is one program around the library: `detour broker`, `detour sidecar` and the commands of
  the user. It holds sockets, streams, clocks and the hooks of the preloaded layer.
- `tests/` runs the library.

Calls that take several steps are functions from a state and an event to the next state and the
action to take. Public proof functions state what holds across functions: what a write gives back
when it is read, what a refusal leaves unchanged, and that bytes pass through as they are.

What other crates compute is taken from them: UUIDs (`uuid`), header maps, methods and addresses
(`http`), metadata values (`tonic`), JSON (`serde_json`) and signed tokens (`jsonwebtoken`). What is
assumed of each call stands in a contract above a small function that makes the call.
