# zerostack

The decision-making core of the zerostack coding agent, each function with a
contract that its body is checked against.

- `src/` — the verified library: edit-block parsing and application, bash
  command splitting and output capping, permission globs, prompt/theme
  layering, JSON configuration merging, MCP and LSP configuration, the ACP
  and agent-run state machines, LSP diagnostic reports, and the small text
  helpers they share. Public proof functions state the library's laws
  (layer precedence, merge behaviour, CRLF round trip, edit ranges, call-id
  pairing, defaults never being saved).
- `tests/` — tests that run the compiled library on concrete inputs.
- `app/` — the unverified shell around it: file and socket I/O, process
  spawning, serde conversions, the OAuth callback listener, and the cost
  estimates that work in floating point.
