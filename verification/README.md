# neomux

A tmux cockpit for a coding agent: Neovim in the left pane, a small chat
agent backed by an EdgeOne-hosted model in the right pane.

- `src/` is the verified library (Verus): reading the command line and the
  launch arguments, the tmux commands that lay out the panes, the agent's
  command language and its step from state and line to next state and
  action, its bounded session state, the workspace check for `/read`, the
  JSON request body, the reading of streamed tokens, the risk screen for
  shell commands, and the `doctor`, `config` and `version` reports. Reading
  a temperature as a floating-point number is left to `app/`.
  - `text`, `number`: characters, trimming, search, UTF-8 lengths, decimals.
  - `wire`: JSON escaping and server-sent-event token extraction.
  - `shell`: command splitting, quoting, slugs, the risk screen, invocations.
  - `agent`, `prompt`, `command`, `step`: agent state, request body, agent
    input, and the step that takes in a typed line.
  - `workspace`: path components and the inside-the-workspace check.
  - `json`: a JSON reader (RFC 8259) used to state what the body means.
  - `launch`, `cli`: the program's command line and the tmux layout.
  - `laws`: proved properties that relate several functions.
- `app/main.rs` runs processes, reads the environment and the terminal, and
  prints; it hands plain values to the library and acts on what it returns.
- `tests/` exercises the library on concrete values.
