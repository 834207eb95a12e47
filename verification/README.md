# remote_bind

A reverse tunnel and port-multiplexing toolkit with a verified core.

- `src/` is the library, verified with Verus:
  - `cmd`: the command protocol (frame encoding, an incremental frame reader, command
    text parsing) with its round-trip and password laws;
  - `server`: the relay server's per-agent session as a state machine (bind, keep-alive,
    visitor hand-over, direct-connection brokering);
  - `client`: the agent's decisions on what the server sends;
  - `p2p`: NAT classification, the listener election and the ports to try;
  - `oneport`: forwarding rules, built-in rule names, configuration loading from YAML
    and first-match routing;
  - `launch`: command lines and the HTTP body of the public-address lookup;
  - `text`: whitespace splitting, decimal numbers, UTF-8 decoding.
- `app/` holds the programs (`server`, `client`, `oneport`, chosen by the name they are
  run under) and the mobile entry points; it performs the I/O that the library asks for.
- `tests/` exercises the library.
