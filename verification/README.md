# e_agent

The decisions of a terminal coding agent, written in Verus and proved against
their contracts.

- `src/` — the verified library:
  - conversation and protocol: `message`, `event`, `hooks`, `json`, `provider`
    (Responses API items and responses), `session` (stream state, turn ids,
    restored history, host actions), `queue`;
  - extension host rules: `policy`, `pi_compat`, `pi_ui`, `lzss`;
  - terminal UI: `text`, `editing`, `input`, `render`, `ansi`, `renderers`,
    `component`, `markdown`, `transcript`, `state`, `reducer`, `ui_protocol`,
    `broker`, `terminal`.
- `tests/` — scenarios run against the compiled library.
- `app/` — the input/output side: crossterm and ratatui, the broker's
  channels, the Pi UI call path, process-wide extension state.
