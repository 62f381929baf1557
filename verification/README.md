# naia_socket

The verified core of a WebRTC data-channel socket layer for a game
networking stack: a server that accepts many clients, and a client that
connects to one server.

- `src/` is the library, proved against its contracts:
  - `ice` — the fallback ICE (STUN) server configuration;
  - `util` — base64 codec for signaling messages (with the proof that
    decoding undoes encoding) and trimming of terminal input;
  - `json`, `session` — reading the signaling server's JSON reply
    (answer SDP and remote candidate);
  - `signal` — session descriptions as the lines pasted between peers
    (base64 of their JSON), with the proof that a printed line reads back
    as the same description;
  - `packet`, `server` — remote addresses, packets, the table of sessions
    and the decisions of the server's event loops;
  - `client` — the decision of the client's read loop;
  - `counter` — per-connection packet counters;
  - `demo` — the text and state of the demo client.
- `app/` is the asynchronous plumbing around it (peer connections, signaling
  over stdin/stdout and HTTP, task spawning, the event loops themselves); it
  carries no proofs.
- `tests/` runs the library on concrete values.
